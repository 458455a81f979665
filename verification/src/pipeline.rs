//! One whole run: parse the graph text and the target list, resolve the
//! targets, solve, and list the identifiers of the winning sets at the
//! initial step `k` and the final step `0`.  This is the computational
//! core behind the command-line driver; the driver itself only reads the
//! inputs and prints the two lines.

use vstd::prelude::*;

use crate::bytes::{rows_view, view2};
use crate::errors::{GraphError, ParseError, RunError};
use crate::graph::{first_unknown, sel_of, TemporalGraph};
use crate::parse::{graph_matches, parse_graph, spec_parse_graph, BState};
use crate::solver::{solve, wins_at};
use crate::targets::{parse_targets, spec_parse_targets};

verus! {

/// Run the full computation.
///
/// On success, return the parsed graph together with the identifiers of
/// the winning set at step `k` (the resolved target restated) and at
/// step `0` (the answer), each in ascending node order.  Fail with the
/// first parse offense, the first unknown target identifier, or the
/// out-of-range time step that a horizon beyond the graph's time domain
/// would query.
pub fn run(graph_text: &Vec<u8>, target_text: &Vec<u8>, k: usize) -> (r: Result<
    (TemporalGraph, Vec<Vec<u8>>, Vec<Vec<u8>>),
    RunError,
>)
    requires
        graph_text@.len() < usize::MAX,
    ensures
        match r {
            Ok((g, wk, w0)) => {
                &&& g.wf()
                &&& spec_parse_graph(graph_text@) matches Ok(b) && graph_matches(g, b)
                &&& spec_parse_targets(target_text@) matches Ok(l) && {
                    let target = sel_of(g.ids_view(), l);
                    &&& first_unknown(g.ids_view(), l, 0) is None
                    &&& k <= g.succ@.len()
                    &&& view2(wk@) == g.ids_selected(wins_at(g, target, k as int, k as int))
                    &&& view2(w0@) == g.ids_selected(wins_at(g, target, k as int, 0))
                }
            },
            Err(RunError::Parse(e)) => {
                ||| spec_parse_graph(graph_text@) == Err::<BState, ParseError>(e)
                ||| (spec_parse_graph(graph_text@) is Ok && spec_parse_targets(target_text@)
                    == Err::<Seq<Seq<u8>>, ParseError>(e))
            },
            Err(RunError::Graph(ge)) => {
                &&& spec_parse_graph(graph_text@) is Ok
                &&& spec_parse_targets(target_text@) matches Ok(l) && {
                    let b = spec_parse_graph(graph_text@)->Ok_0;
                    match ge {
                        GraphError::UnknownIdentifier(u) => exists|j: int|
                            first_unknown(b.ids, l, 0) == Some(j) && u@ == l[j],
                        GraphError::TimeOutOfRange(t) => {
                            &&& first_unknown(b.ids, l, 0) is None
                            &&& b.max_time matches Some(mt) && k > mt + 1
                            &&& t == k - 1
                        },
                        _ => false,
                    }
                }
            },
        },
{
    let g = match parse_graph(graph_text) {
        Ok(g) => g,
        Err(e) => {
            return Err(RunError::Parse(e));
        },
    };
    let tl = match parse_targets(target_text) {
        Ok(v) => v,
        Err(e) => {
            return Err(RunError::Parse(e));
        },
    };
    let sel = match g.resolve_ids(&tl) {
        Ok(s) => s,
        Err(ge) => {
            return Err(RunError::Graph(ge));
        },
    };
    let wins = match solve(&g, &sel, k) {
        Ok(w) => w,
        Err(ge) => {
            return Err(RunError::Graph(ge));
        },
    };
    proof {
        assert(rows_view(wins@)[k as int] == wins@[k as int]@);
        assert(rows_view(wins@)[0] == wins@[0]@);
        assert(wins_at(g, sel@, k as int, k as int).len() == g.n());
        assert(wins_at(g, sel@, k as int, 0) == if k == 0 {
            sel@
        } else {
            crate::solver::step_wins(g, wins_at(g, sel@, k as int, 1), 0)
        });
    }
    let wk = g.identifiers_for(&wins[k]);
    let w0 = g.identifiers_for(&wins[0]);
    Ok((g, wk, w0))
}

} // verus!
