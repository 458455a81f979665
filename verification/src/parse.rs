//! The graph text parser.
//!
//! The grammar is line-oriented.  Tokens are runs of identifier bytes
//! (ASCII letters, digits, underscore), separated by blanks, tabs or
//! carriage returns; any other byte is refused outright.  Each non-empty
//! line is one of:
//!
//! ```text
//! node <id> reacher      declare a Reacher-owned node
//! node <id> opponent     declare an Opponent-owned node
//! maxtime <n>            declare the maximum time step, exactly once
//! edge <from> <to> <t>+  edge from <from> to <to>, active at each <t>
//! ```
//!
//! Node declarations come first, then the `maxtime` line, then the edge
//! lines; every edge endpoint must be declared, every edge time must not
//! exceed the declared maximum.  Blank lines are allowed anywhere.
//! Nothing malformed is dropped or coerced: the first offense aborts the
//! parse with a [`ParseError`] carrying the offending byte offset or
//! 1-based line number.
//!
//! The whole grammar is stated as a fold (`gstep`, `gfold`, `gfinish`)
//! over the input bytes, and the executable parser is proved to return
//! exactly what the fold denotes.

use vstd::prelude::*;

use crate::bytes::{
    bytes_eq, copy_bytes, first_bad, first_bad_from, lemma_view2_push, list_contains, parse_num,
    spec_parse_num, spec_sep_byte, view2,
};
use crate::errors::ParseError;
use crate::graph::{idx_of, TemporalGraph};

verus! {

/// The byte string `node`.
pub open spec fn kw_node() -> Seq<u8> {
    seq![0x6eu8, 0x6fu8, 0x64u8, 0x65u8]
}

/// The byte string `maxtime`.
pub open spec fn kw_maxtime() -> Seq<u8> {
    seq![0x6du8, 0x61u8, 0x78u8, 0x74u8, 0x69u8, 0x6du8, 0x65u8]
}

/// The byte string `edge`.
pub open spec fn kw_edge() -> Seq<u8> {
    seq![0x65u8, 0x64u8, 0x67u8, 0x65u8]
}

/// The byte string `reacher`.
pub open spec fn kw_reacher() -> Seq<u8> {
    seq![0x72u8, 0x65u8, 0x61u8, 0x63u8, 0x68u8, 0x65u8, 0x72u8]
}

/// The byte string `opponent`.
pub open spec fn kw_opponent() -> Seq<u8> {
    seq![0x6fu8, 0x70u8, 0x70u8, 0x6fu8, 0x6eu8, 0x65u8, 0x6eu8, 0x74u8]
}

/// What the parser has gathered: the identifier table, one owner tag per
/// declared node, the declared maximum time step once seen, and the
/// collected edges as (time, from, to) triples of node indices.
pub ghost struct BState {
    pub ids: Seq<Seq<u8>>,
    pub owners: Seq<bool>,
    pub max_time: Option<usize>,
    pub edges: Seq<(usize, usize, usize)>,
}

/// The full fold state: the token being read, the tokens of the current
/// line, the 1-based number of the current line, and the gathered graph.
pub ghost struct PState {
    pub cur: Seq<u8>,
    pub toks: Seq<Seq<u8>>,
    pub line: int,
    pub b: BState,
}

/// The initial fold state.
pub open spec fn init_pstate() -> PState {
    PState {
        cur: Seq::empty(),
        toks: Seq::empty(),
        line: 1,
        b: BState {
            ids: Seq::empty(),
            owners: Seq::empty(),
            max_time: None,
            edges: Seq::empty(),
        },
    }
}

/// Close the token being read, if any.
pub open spec fn flush(cur: Seq<u8>, toks: Seq<Seq<u8>>) -> Seq<Seq<u8>> {
    if cur.len() == 0 {
        toks
    } else {
        toks.push(cur)
    }
}

/// Append the edge `(from, to)` at each remaining time token of an edge
/// line, refusing a malformed number or a time beyond the maximum.
pub open spec fn add_times(
    b: BState,
    from: usize,
    to: usize,
    toks: Seq<Seq<u8>>,
    j: int,
    lineno: int,
) -> Result<BState, ParseError>
    decreases toks.len() - j,
{
    if j < 0 || j >= toks.len() {
        Ok(b)
    } else {
        match spec_parse_num(toks[j]) {
            None => Err(ParseError::BadNumber(lineno as usize)),
            Some(t) => {
                let mt = match b.max_time { Some(m) => m as int, None => -1 };
                if t > mt {
                    Err(ParseError::TimeTooLarge(lineno as usize))
                } else {
                    add_times(
                        BState { edges: b.edges.push((t as usize, from, to)), ..b },
                        from,
                        to,
                        toks,
                        j + 1,
                        lineno,
                    )
                }
            },
        }
    }
}

/// What one line of tokens does to the gathered state.
pub open spec fn line_apply(b: BState, toks: Seq<Seq<u8>>, lineno: int) -> Result<
    BState,
    ParseError,
> {
    if toks.len() == 0 {
        Ok(b)
    } else if toks[0] == kw_node() {
        if toks.len() != 3 {
            Err(ParseError::BadLine(lineno as usize))
        } else if toks[2] != kw_reacher() && toks[2] != kw_opponent() {
            Err(ParseError::BadLine(lineno as usize))
        } else if b.max_time is Some {
            Err(ParseError::NodeAfterMaxTime(lineno as usize))
        } else if b.ids.contains(toks[1]) {
            Err(ParseError::DuplicateNode(lineno as usize))
        } else {
            Ok(BState {
                ids: b.ids.push(toks[1]),
                owners: b.owners.push(toks[2] == kw_reacher()),
                ..b
            })
        }
    } else if toks[0] == kw_maxtime() {
        if toks.len() != 2 {
            Err(ParseError::BadLine(lineno as usize))
        } else if b.max_time is Some {
            Err(ParseError::DuplicateMaxTime(lineno as usize))
        } else {
            match spec_parse_num(toks[1]) {
                None => Err(ParseError::BadNumber(lineno as usize)),
                Some(v) => Ok(BState { max_time: Some(v as usize), ..b }),
            }
        }
    } else if toks[0] == kw_edge() {
        if toks.len() < 4 {
            Err(ParseError::BadLine(lineno as usize))
        } else if b.max_time is None {
            Err(ParseError::EdgeBeforeMaxTime(lineno as usize))
        } else {
            match (idx_of(b.ids, toks[1], 0), idx_of(b.ids, toks[2], 0)) {
                (Some(f), Some(t)) => add_times(b, f as usize, t as usize, toks, 3, lineno),
                _ => Err(ParseError::UndeclaredNode(lineno as usize)),
            }
        }
    } else {
        Err(ParseError::BadLine(lineno as usize))
    }
}

/// What one input byte does to the fold state.
pub open spec fn gstep(st: PState, byte: u8) -> Result<PState, ParseError> {
    if byte == 0x0a {
        match line_apply(st.b, flush(st.cur, st.toks), st.line) {
            Ok(b2) => Ok(
                PState { cur: Seq::empty(), toks: Seq::empty(), line: st.line + 1, b: b2 },
            ),
            Err(e) => Err(e),
        }
    } else if spec_sep_byte(byte) {
        Ok(PState { cur: Seq::empty(), toks: flush(st.cur, st.toks), ..st })
    } else {
        Ok(PState { cur: st.cur.push(byte), ..st })
    }
}

/// The fold of `gstep` over the input bytes from position `i` on.
pub open spec fn gfold(s: Seq<u8>, i: int, st: PState) -> Result<PState, ParseError>
    decreases s.len() - i,
{
    if i < 0 || i >= s.len() {
        Ok(st)
    } else {
        match gstep(st, s[i]) {
            Ok(st2) => gfold(s, i + 1, st2),
            Err(e) => Err(e),
        }
    }
}

/// Close the final line and demand the `maxtime` declaration.
pub open spec fn gfinish(st: PState) -> Result<BState, ParseError> {
    match line_apply(st.b, flush(st.cur, st.toks), st.line) {
        Ok(b2) => if b2.max_time is Some {
            Ok(b2)
        } else {
            Err(ParseError::MissingMaxTime)
        },
        Err(e) => Err(e),
    }
}

/// What a graph text denotes: the gathered state, or the first offense.
pub open spec fn spec_parse_graph(s: Seq<u8>) -> Result<BState, ParseError> {
    match first_bad_from(s, false, 0) {
        Some(p) => Err(ParseError::BadByte(p as usize)),
        None => match gfold(s, 0, init_pstate()) {
            Ok(st) => gfinish(st),
            Err(e) => Err(e),
        },
    }
}

/// The deduplicated successors of node `v` at time `t` drawn from the
/// edge list, in order of first appearance.
pub open spec fn row_succ(edges: Seq<(usize, usize, usize)>, t: int, v: int) -> Seq<usize>
    decreases edges.len(),
{
    if edges.len() == 0 {
        Seq::empty()
    } else {
        let p = row_succ(edges.drop_last(), t, v);
        let e = edges.last();
        if e.0 == t && e.1 == v && !p.contains(e.2) {
            p.push(e.2)
        } else {
            p
        }
    }
}

/// Internal consistency of the gathered state: one owner per declared
/// node, pairwise distinct identifiers, and every collected edge within
/// the declared node and time ranges.
pub open spec fn bstate_wf(b: BState) -> bool {
    &&& b.owners.len() == b.ids.len()
    &&& forall|i: int, j: int| 0 <= i < j < b.ids.len() ==> b.ids[i] != b.ids[j]
    &&& forall|i: int|
        0 <= i < b.edges.len() ==> {
            let e = #[trigger] b.edges[i];
            &&& b.max_time is Some
            &&& e.0 <= b.max_time->Some_0
            &&& e.1 < b.ids.len()
            &&& e.2 < b.ids.len()
        }
}

/// Whether the constructed graph holds exactly what the gathered state
/// denotes.
pub open spec fn graph_matches(g: TemporalGraph, b: BState) -> bool {
    &&& g.ids_view() == b.ids
    &&& g.owners@ == b.owners
    &&& b.max_time is Some
    &&& g.succ@.len() == b.max_time->Some_0 + 1
    &&& forall|t: int, v: int|
        0 <= t < g.succ@.len() && 0 <= v < g.n() ==> g.succ_seq(t, v) == row_succ(b.edges, t, v)
}

/// The gathered graph data, in executable form.
struct Builder {
    ids: Vec<Vec<u8>>,
    owners: Vec<bool>,
    max_time: Option<usize>,
    edges: Vec<(usize, usize, usize)>,
}

impl Builder {
    spec fn bview(self) -> BState {
        BState {
            ids: view2(self.ids@),
            owners: self.owners@,
            max_time: self.max_time,
            edges: self.edges@,
        }
    }
}

/// The keyword `node` as a vector.
fn kw_node_vec() -> (r: Vec<u8>)
    ensures
        r@ == kw_node(),
{
    let mut r: Vec<u8> = Vec::new();
    r.push(0x6e);
    r.push(0x6f);
    r.push(0x64);
    r.push(0x65);
    proof {
        assert(r@ =~= kw_node());
    }
    r
}

/// The keyword `maxtime` as a vector.
fn kw_maxtime_vec() -> (r: Vec<u8>)
    ensures
        r@ == kw_maxtime(),
{
    let mut r: Vec<u8> = Vec::new();
    r.push(0x6d);
    r.push(0x61);
    r.push(0x78);
    r.push(0x74);
    r.push(0x69);
    r.push(0x6d);
    r.push(0x65);
    proof {
        assert(r@ =~= kw_maxtime());
    }
    r
}

/// The keyword `edge` as a vector.
fn kw_edge_vec() -> (r: Vec<u8>)
    ensures
        r@ == kw_edge(),
{
    let mut r: Vec<u8> = Vec::new();
    r.push(0x65);
    r.push(0x64);
    r.push(0x67);
    r.push(0x65);
    proof {
        assert(r@ =~= kw_edge());
    }
    r
}

/// The keyword `reacher` as a vector.
fn kw_reacher_vec() -> (r: Vec<u8>)
    ensures
        r@ == kw_reacher(),
{
    let mut r: Vec<u8> = Vec::new();
    r.push(0x72);
    r.push(0x65);
    r.push(0x61);
    r.push(0x63);
    r.push(0x68);
    r.push(0x65);
    r.push(0x72);
    proof {
        assert(r@ =~= kw_reacher());
    }
    r
}

/// The keyword `opponent` as a vector.
fn kw_opponent_vec() -> (r: Vec<u8>)
    ensures
        r@ == kw_opponent(),
{
    let mut r: Vec<u8> = Vec::new();
    r.push(0x6f);
    r.push(0x70);
    r.push(0x70);
    r.push(0x6f);
    r.push(0x6e);
    r.push(0x65);
    r.push(0x6e);
    r.push(0x74);
    proof {
        assert(r@ =~= kw_opponent());
    }
    r
}

/// Index of the first entry of `ids` equal to `x`, executably.
fn find_index(ids: &Vec<Vec<u8>>, x: &Vec<u8>) -> (r: Option<usize>)
    ensures
        match r {
            Some(v) => idx_of(view2(ids@), x@, 0) == Some(v as int) && v < ids@.len(),
            None => idx_of(view2(ids@), x@, 0) is None,
        },
{
    let mut v: usize = 0;
    while v < ids.len()
        invariant
            0 <= v <= ids@.len(),
            idx_of(view2(ids@), x@, 0) == idx_of(view2(ids@), x@, v as int),
        decreases ids@.len() - v,
    {
        if bytes_eq(&ids[v], x) {
            proof {
                assert(view2(ids@)[v as int] == x@);
            }
            return Some(v);
        }
        v += 1;
    }
    None
}

/// Whether `r` already lists the node index `x`.
fn contains_usize(r: &Vec<usize>, x: usize) -> (b: bool)
    ensures
        b == r@.contains(x),
{
    let mut i: usize = 0;
    while i < r.len()
        invariant
            0 <= i <= r@.len(),
            forall|j: int| 0 <= j < i ==> r@[j] != x,
        decreases r@.len() - i,
    {
        if r[i] == x {
            return true;
        }
        i += 1;
    }
    proof {
        if r@.contains(x) {
            let j = choose|j: int| 0 <= j < r@.len() && r@[j] == x;
            assert(r@[j] != x);
        }
    }
    false
}

/// Apply one line of tokens to the gathered state, executably.
fn apply_line(bld: &mut Builder, toks: &Vec<Vec<u8>>, lineno: usize) -> (r: Result<(), ParseError>)
    requires
        bstate_wf(old(bld).bview()),
    ensures
        match r {
            Ok(()) => line_apply(old(bld).bview(), view2(toks@), lineno as int)
                == Ok::<BState, ParseError>(final(bld).bview())
                && bstate_wf(final(bld).bview()),
            Err(e) => line_apply(old(bld).bview(), view2(toks@), lineno as int)
                == Err::<BState, ParseError>(e),
        },
{
    if toks.len() == 0 {
        return Ok(());
    }
    let kwn = kw_node_vec();
    let kwm = kw_maxtime_vec();
    let kwe = kw_edge_vec();
    if bytes_eq(&toks[0], &kwn) {
        if toks.len() != 3 {
            return Err(ParseError::BadLine(lineno));
        }
        let kwr = kw_reacher_vec();
        let kwo = kw_opponent_vec();
        let is_r = bytes_eq(&toks[2], &kwr);
        let is_o = bytes_eq(&toks[2], &kwo);
        if !is_r && !is_o {
            return Err(ParseError::BadLine(lineno));
        }
        if bld.max_time.is_some() {
            return Err(ParseError::NodeAfterMaxTime(lineno));
        }
        if list_contains(&bld.ids, &toks[1]) {
            return Err(ParseError::DuplicateNode(lineno));
        }
        let ghost b0 = bld.bview();
        proof {
            if b0.edges.len() > 0 {
                assert(b0.edges[0].0 <= b0.max_time->Some_0);
                assert(false);
            }
        }
        let id = copy_bytes(&toks[1]);
        proof {
            lemma_view2_push(bld.ids@, id);
        }
        bld.ids.push(id);
        bld.owners.push(is_r);
        proof {
            let b1 = bld.bview();
            assert(b1.ids == b0.ids.push(toks@[1]@));
            assert forall|i: int, j: int| 0 <= i < j < b1.ids.len() implies b1.ids[i] != b1.ids[j] by {
                if j < b0.ids.len() {
                    assert(b0.ids[i] != b0.ids[j]);
                } else {
                    assert(b1.ids[j] == toks@[1]@);
                    if b1.ids[i] == toks@[1]@ {
                        assert(b0.ids[i] == toks@[1]@);
                        assert(b0.ids.contains(toks@[1]@));
                    }
                }
            }
            assert(bstate_wf(b1));
            assert(line_apply(b0, view2(toks@), lineno as int) == Ok::<BState, ParseError>(b1));
        }
        return Ok(());
    }
    if bytes_eq(&toks[0], &kwm) {
        if toks.len() != 2 {
            return Err(ParseError::BadLine(lineno));
        }
        if bld.max_time.is_some() {
            return Err(ParseError::DuplicateMaxTime(lineno));
        }
        match parse_num(&toks[1]) {
            None => {
                return Err(ParseError::BadNumber(lineno));
            },
            Some(v) => {
                let ghost b0 = bld.bview();
                proof {
                    if b0.edges.len() > 0 {
                        assert(b0.edges[0].0 <= b0.max_time->Some_0);
                        assert(false);
                    }
                }
                bld.max_time = Some(v);
                proof {
                    assert(bstate_wf(bld.bview()));
                    assert(line_apply(b0, view2(toks@), lineno as int)
                        == Ok::<BState, ParseError>(bld.bview()));
                }
                return Ok(());
            },
        }
    }
    if bytes_eq(&toks[0], &kwe) {
        if toks.len() < 4 {
            return Err(ParseError::BadLine(lineno));
        }
        if bld.max_time.is_none() {
            return Err(ParseError::EdgeBeforeMaxTime(lineno));
        }
        let from = match find_index(&bld.ids, &toks[1]) {
            Some(f) => f,
            None => {
                return Err(ParseError::UndeclaredNode(lineno));
            },
        };
        let to = match find_index(&bld.ids, &toks[2]) {
            Some(t) => t,
            None => {
                return Err(ParseError::UndeclaredNode(lineno));
            },
        };
        let mt = match bld.max_time {
            Some(m) => m,
            None => {
                proof {
                    assert(false);
                }
                0
            },
        };
        let ghost b0 = bld.bview();
        proof {
            assert(view2(toks@).len() == toks@.len());
            assert(view2(toks@)[0] == toks@[0]@);
            assert(view2(toks@)[1] == toks@[1]@);
            assert(view2(toks@)[2] == toks@[2]@);
            assert(b0.max_time is Some);
            assert(idx_of(b0.ids, view2(toks@)[1], 0) == Some(from as int));
            assert(idx_of(b0.ids, view2(toks@)[2], 0) == Some(to as int));
            assert(line_apply(b0, view2(toks@), lineno as int)
                == add_times(b0, from, to, view2(toks@), 3, lineno as int));
        }
        let mut j: usize = 3;
        while j < toks.len()
            invariant
                3 <= j <= toks@.len(),
                b0 == old(bld).bview(),
                bstate_wf(bld.bview()),
                bld.bview().max_time == Some(mt),
                bld.bview().ids == b0.ids,
                bld.bview().owners == b0.owners,
                from < b0.ids.len(),
                to < b0.ids.len(),
                line_apply(b0, view2(toks@), lineno as int)
                    == add_times(b0, from, to, view2(toks@), 3, lineno as int),
                add_times(b0, from, to, view2(toks@), 3, lineno as int)
                    == add_times(bld.bview(), from, to, view2(toks@), j as int, lineno as int),
            decreases toks@.len() - j,
        {
            match parse_num(&toks[j]) {
                None => {
                    proof {
                        assert(add_times(bld.bview(), from, to, view2(toks@), j as int, lineno as int)
                            == Err::<BState, ParseError>(ParseError::BadNumber(lineno)));
                        assert(line_apply(b0, view2(toks@), lineno as int)
                            == add_times(b0, from, to, view2(toks@), 3, lineno as int));
                    }
                    return Err(ParseError::BadNumber(lineno));
                },
                Some(t) => {
                    if t > mt {
                        proof {
                            assert(add_times(bld.bview(), from, to, view2(toks@), j as int, lineno as int)
                                == Err::<BState, ParseError>(ParseError::TimeTooLarge(lineno)));
                            assert(line_apply(b0, view2(toks@), lineno as int)
                                == add_times(b0, from, to, view2(toks@), 3, lineno as int));
                        }
                        return Err(ParseError::TimeTooLarge(lineno));
                    }
                    let ghost bprev = bld.bview();
                    bld.edges.push((t, from, to));
                    proof {
                        assert(bld.bview().edges == bprev.edges.push((t, from, to)));
                        assert(add_times(bprev, from, to, view2(toks@), j as int, lineno as int)
                            == add_times(bld.bview(), from, to, view2(toks@), j + 1, lineno as int));
                        assert forall|i: int|
                            0 <= i < bld.bview().edges.len() implies {
                            let e = #[trigger] bld.bview().edges[i];
                            &&& bld.bview().max_time is Some
                            &&& e.0 <= bld.bview().max_time->Some_0
                            &&& e.1 < bld.bview().ids.len()
                            &&& e.2 < bld.bview().ids.len()
                        } by {
                            if i < bprev.edges.len() {
                                assert(bprev.edges[i] == bld.bview().edges[i]);
                            }
                        }
                    }
                },
            }
            j += 1;
        }
        proof {
            assert(add_times(bld.bview(), from, to, view2(toks@), toks@.len() as int, lineno as int)
                == Ok::<BState, ParseError>(bld.bview()));
            assert(line_apply(b0, view2(toks@), lineno as int)
                == add_times(b0, from, to, view2(toks@), 3, lineno as int));
        }
        return Ok(());
    }
    Err(ParseError::BadLine(lineno))
}

/// Parse a graph text into a temporal graph.
///
/// On success the graph is well formed and holds exactly what the text
/// denotes under the fold semantics; on failure the error is exactly the
/// first offense of the text.
pub fn parse_graph(input: &Vec<u8>) -> (r: Result<TemporalGraph, ParseError>)
    requires
        input@.len() < usize::MAX,
    ensures
        match r {
            Ok(g) => {
                &&& g.wf()
                &&& spec_parse_graph(input@) matches Ok(b) && graph_matches(g, b)
            },
            Err(e) => spec_parse_graph(input@) == Err::<BState, ParseError>(e),
        },
{
    if let Some(p) = first_bad(input, false) {
        return Err(ParseError::BadByte(p));
    }
    let mut cur: Vec<u8> = Vec::new();
    let mut toks: Vec<Vec<u8>> = Vec::new();
    let mut line: usize = 1;
    let mut bld = Builder {
        ids: Vec::new(),
        owners: Vec::new(),
        max_time: None,
        edges: Vec::new(),
    };
    proof {
        assert(view2(Seq::<Vec<u8>>::empty()) =~= Seq::<Seq<u8>>::empty());
    }
    let mut i: usize = 0;
    while i < input.len()
        invariant
            0 <= i <= input@.len(),
            input@.len() < usize::MAX,
            first_bad_from(input@, false, 0) is None,
            1 <= line,
            line <= i + 1,
            bstate_wf(bld.bview()),
            gfold(input@, 0, init_pstate()) == gfold(
                input@,
                i as int,
                PState { cur: cur@, toks: view2(toks@), line: line as int, b: bld.bview() },
            ),
        decreases input@.len() - i,
    {
        let ghost st0 = PState { cur: cur@, toks: view2(toks@), line: line as int, b: bld.bview() };
        let byte = input[i];
        if byte == 0x0a {
            if cur.len() > 0 {
                proof {
                    lemma_view2_push(toks@, cur);
                }
                toks.push(cur);
                cur = Vec::new();
            }
            proof {
                assert(view2(toks@) == flush(st0.cur, st0.toks));
            }
            match apply_line(&mut bld, &toks, line) {
                Ok(()) => {},
                Err(e) => {
                    proof {
                        assert(gstep(st0, byte) == Err::<PState, ParseError>(e));
                        assert(gfold(input@, 0, init_pstate()) == Err::<PState, ParseError>(e));
                        assert(first_bad_from(input@, false, 0) is None);
                        assert(spec_parse_graph(input@) == Err::<BState, ParseError>(e));
                    }
                    return Err(e);
                },
            }
            toks = Vec::new();
            line += 1;
            proof {
                assert(view2(Seq::<Vec<u8>>::empty()) =~= Seq::<Seq<u8>>::empty());
                assert(cur@ =~= Seq::<u8>::empty());
                let st1 = PState {
                    cur: cur@,
                    toks: view2(toks@),
                    line: line as int,
                    b: bld.bview(),
                };
                assert(gstep(st0, byte) == Ok::<PState, ParseError>(st1));
            }
        } else if byte == 0x20 || byte == 0x09 || byte == 0x0d {
            if cur.len() > 0 {
                proof {
                    lemma_view2_push(toks@, cur);
                }
                toks.push(cur);
                cur = Vec::new();
            }
            proof {
                assert(cur@ =~= Seq::<u8>::empty());
                let st1 = PState {
                    cur: cur@,
                    toks: view2(toks@),
                    line: line as int,
                    b: bld.bview(),
                };
                assert(gstep(st0, byte) == Ok::<PState, ParseError>(st1));
            }
        } else {
            cur.push(byte);
            proof {
                let st1 = PState {
                    cur: cur@,
                    toks: view2(toks@),
                    line: line as int,
                    b: bld.bview(),
                };
                assert(gstep(st0, byte) == Ok::<PState, ParseError>(st1));
            }
        }
        i += 1;
    }
    let ghost stf = PState { cur: cur@, toks: view2(toks@), line: line as int, b: bld.bview() };
    proof {
        assert(gfold(input@, 0, init_pstate()) == Ok::<PState, ParseError>(stf));
    }
    if cur.len() > 0 {
        proof {
            lemma_view2_push(toks@, cur);
        }
        toks.push(cur);
    }
    proof {
        assert(view2(toks@) == flush(stf.cur, stf.toks));
    }
    match apply_line(&mut bld, &toks, line) {
        Ok(()) => {},
        Err(e) => {
            proof {
                assert(gfinish(stf) == Err::<BState, ParseError>(e));
                assert(spec_parse_graph(input@) == Err::<BState, ParseError>(e));
            }
            return Err(e);
        },
    }
    let mt = match bld.max_time {
        Some(m) => m,
        None => {
            proof {
                assert(gfinish(stf) == Err::<BState, ParseError>(ParseError::MissingMaxTime));
            }
            return Err(ParseError::MissingMaxTime);
        },
    };
    let ghost b = bld.bview();
    proof {
        assert(gfinish(stf) == Ok::<BState, ParseError>(b));
    }
    let n = bld.ids.len();
    let mut succ: Vec<Vec<Vec<usize>>> = Vec::new();
    while succ.len() <= mt
        invariant
            bstate_wf(b),
            b == bld.bview(),
            n == b.ids.len(),
            succ@.len() <= mt + 1,
            forall|t: int|
                0 <= t < succ@.len() ==> #[trigger] succ@[t]@.len() == n,
            forall|t: int, v: int|
                0 <= t < succ@.len() && 0 <= v < n ==> succ@[t]@[v]@ == row_succ(b.edges, t, v),
        decreases mt + 1 - succ@.len(),
    {
        let t = succ.len();
        let mut row_list: Vec<Vec<usize>> = Vec::new();
        while row_list.len() < n
            invariant
                b == bld.bview(),
                n == b.ids.len(),
                row_list@.len() <= n,
                forall|v: int|
                    0 <= v < row_list@.len() ==> row_list@[v]@ == row_succ(b.edges, t as int, v),
            decreases n - row_list@.len(),
        {
            let v = row_list.len();
            let row = build_row(&bld.edges, t, v);
            row_list.push(row);
        }
        succ.push(row_list);
    }
    let g = TemporalGraph { owners: bld.owners, ids: bld.ids, succ };
    proof {
        assert(g.ids_view() == b.ids);
        assert(g.n() == b.owners.len());
        assert forall|t: int, v: int, j: int|
            0 <= t < g.succ@.len() && 0 <= v < g.n() && 0 <= j < g.succ_seq(t, v).len()
            implies #[trigger] g.succ_seq(t, v)[j] < g.n() by {
            assert forall|ii: int|
                0 <= ii < b.edges.len() implies (#[trigger] b.edges[ii]).2 < g.n() as int by {
                assert(b.edges[ii].2 < b.ids.len());
            }
            lemma_row_succ_elems(b.edges, t, v, g.n() as int);
            assert(g.succ_seq(t, v) == row_succ(b.edges, t, v));
            assert(row_succ(b.edges, t, v)[j] < g.n() as int);
        }
        assert(g.wf());
        assert(graph_matches(g, b));
    }
    Ok(g)
}

/// The deduplicated successor row of node `v` at time `t`, executably.
fn build_row(edges: &Vec<(usize, usize, usize)>, t: usize, v: usize) -> (r: Vec<usize>)
    ensures
        r@ == row_succ(edges@, t as int, v as int),
{
    let mut r: Vec<usize> = Vec::new();
    let mut j: usize = 0;
    while j < edges.len()
        invariant
            0 <= j <= edges@.len(),
            r@ == row_succ(edges@.take(j as int), t as int, v as int),
        decreases edges@.len() - j,
    {
        let e = edges[j];
        proof {
            assert(edges@.take(j + 1).drop_last() =~= edges@.take(j as int));
            assert(edges@.take(j + 1).last() == edges@[j as int]);
        }
        if e.0 == t && e.1 == v {
            if !contains_usize(&r, e.2) {
                r.push(e.2);
            }
        }
        j += 1;
    }
    proof {
        assert(edges@.take(edges@.len() as int) =~= edges@);
    }
    r
}

/// Every target field of the collected edges is a node index, so every
/// entry of a successor row is one too.
proof fn lemma_row_succ_elems(edges: Seq<(usize, usize, usize)>, t: int, v: int, n: int)
    requires
        forall|i: int| 0 <= i < edges.len() ==> (#[trigger] edges[i]).2 < n,
    ensures
        forall|j: int|
            0 <= j < row_succ(edges, t, v).len() ==> #[trigger] row_succ(edges, t, v)[j] < n,
    decreases edges.len(),
{
    if edges.len() > 0 {
        assert(edges.drop_last() =~= edges.take(edges.len() - 1));
        assert forall|i: int| 0 <= i < edges.drop_last().len() implies (
        #[trigger] edges.drop_last()[i]).2 < n by {
            assert(edges.drop_last()[i] == edges[i]);
        }
        lemma_row_succ_elems(edges.drop_last(), t, v, n);
        assert(edges.last() == edges[edges.len() - 1]);
        let p = row_succ(edges.drop_last(), t, v);
        let e = edges.last();
        assert forall|j: int|
            0 <= j < row_succ(edges, t, v).len() implies #[trigger] row_succ(edges, t, v)[j]
            < n by {
            if e.0 == t && e.1 == v && !p.contains(e.2) {
                assert(row_succ(edges, t, v) == p.push(e.2));
                if j < p.len() {
                    assert(p[j] < n);
                } else {
                    assert(row_succ(edges, t, v)[j] == e.2);
                }
            } else {
                assert(row_succ(edges, t, v) == p);
                assert(p[j] < n);
            }
        }
    }
}

} // verus!
