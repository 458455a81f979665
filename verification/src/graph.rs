//! The temporal graph model: nodes, per-node ownership, the time-indexed
//! successor relation, and the identifier table that maps node indices to
//! the external identifiers used by the textual inputs.
//!
//! A graph is built once by the parser and read-only afterwards.

use vstd::prelude::*;

use crate::bytes::{bytes_eq, copy_bytes, list_contains, view2};
use crate::errors::GraphError;

verus! {

/// Whether the identifier `x` occurs in the identifier table `ids`.
pub open spec fn known_id(ids: Seq<Seq<u8>>, x: Seq<u8>) -> bool {
    exists|v: int| 0 <= v < ids.len() && ids[v] == x
}

/// Index of the first entry of `ids`, at or after `i`, equal to `x`.
pub open spec fn idx_of(ids: Seq<Seq<u8>>, x: Seq<u8>, i: int) -> Option<int>
    decreases ids.len() - i,
{
    if i < 0 || i >= ids.len() {
        None
    } else if ids[i] == x {
        Some(i)
    } else {
        idx_of(ids, x, i + 1)
    }
}

/// Index of the first identifier of `l`, at or after `j`, that does not
/// occur in the table `ids`; `None` when all of them do.
pub open spec fn first_unknown(ids: Seq<Seq<u8>>, l: Seq<Seq<u8>>, j: int) -> Option<int>
    decreases l.len() - j,
{
    if j < 0 || j >= l.len() {
        None
    } else if !known_id(ids, l[j]) {
        Some(j)
    } else {
        first_unknown(ids, l, j + 1)
    }
}

/// The selection vector that a list of identifiers denotes against the
/// table `ids`: slot `v` is set exactly when node `v`'s identifier occurs
/// in the list.
pub open spec fn sel_of(ids: Seq<Seq<u8>>, l: Seq<Seq<u8>>) -> Seq<bool> {
    Seq::new(ids.len(), |v: int| l.contains(ids[v]))
}

/// A two-player game graph whose edge relation is indexed by a discrete
/// time step.
#[derive(Debug, PartialEq, Eq)]
pub struct TemporalGraph {
    /// `owners[v]` is true when node `v` is owned by the Reacher,
    /// false when it is owned by the Opponent.
    pub owners: Vec<bool>,
    /// `ids[v]` is the external identifier of node `v`; entries are
    /// pairwise distinct.
    pub ids: Vec<Vec<u8>>,
    /// `succ[t][v]` lists the successors of node `v` at time `t`,
    /// for every `t` in `0..=max_time`.
    pub succ: Vec<Vec<Vec<usize>>>,
}

impl TemporalGraph {
    /// Number of nodes.
    pub open spec fn n(self) -> nat {
        self.owners@.len()
    }

    /// Maximum defined time step.
    pub open spec fn max_time(self) -> int {
        self.succ@.len() - 1
    }

    /// Whether node `v` is owned by the Reacher.
    pub open spec fn owner_of(self, v: int) -> bool {
        self.owners@[v]
    }

    /// The identifier table as a sequence of byte strings.
    pub open spec fn ids_view(self) -> Seq<Seq<u8>> {
        view2(self.ids@)
    }

    /// The successors of node `v` at time `t`.
    pub open spec fn succ_seq(self, t: int, v: int) -> Seq<usize> {
        self.succ@[t]@[v]@
    }

    /// Internal consistency: every time slice covers every node, every
    /// successor is a node, and identifiers are pairwise distinct.
    pub open spec fn wf(self) -> bool {
        &&& self.ids@.len() == self.n()
        &&& self.succ@.len() >= 1
        &&& forall|t: int| 0 <= t < self.succ@.len() ==> #[trigger] self.succ@[t]@.len() == self.n()
        &&& forall|t: int, v: int, j: int|
            0 <= t < self.succ@.len() && 0 <= v < self.n() && 0 <= j < self.succ_seq(t, v).len()
                ==> #[trigger] self.succ_seq(t, v)[j] < self.n()
        &&& forall|v: int, w: int|
            0 <= v < w < self.n() ==> self.ids_view()[v] != self.ids_view()[w]
    }

    /// The identifiers of the nodes below `v` whose slot in `sel` is set,
    /// in ascending node order.
    pub open spec fn ids_selected_upto(self, sel: Seq<bool>, v: int) -> Seq<Seq<u8>>
        decreases v,
    {
        if v <= 0 {
            Seq::empty()
        } else {
            self.ids_selected_upto(sel, v - 1)
                + if sel[v - 1] { seq![self.ids_view()[v - 1]] } else { Seq::<Seq<u8>>::empty() }
        }
    }

    /// The identifiers of all selected nodes, in ascending node order.
    pub open spec fn ids_selected(self, sel: Seq<bool>) -> Seq<Seq<u8>> {
        self.ids_selected_upto(sel, self.n() as int)
    }

    /// Total number of nodes; fixed after construction.
    pub fn node_count(&self) -> (r: usize)
        ensures
            r == self.n(),
    {
        self.owners.len()
    }

    /// Maximum defined time step; queries beyond it fail.
    pub fn max_defined_time(&self) -> (r: usize)
        requires
            self.wf(),
        ensures
            r == self.max_time(),
    {
        self.succ.len() - 1
    }

    /// The node indices `0..node_count` in ascending order.
    pub fn nodes(&self) -> (r: Vec<usize>)
        ensures
            r@.len() == self.n(),
            forall|i: int| 0 <= i < r@.len() ==> r@[i] == i,
    {
        let mut r: Vec<usize> = Vec::new();
        let mut v: usize = 0;
        while v < self.owners.len()
            invariant
                0 <= v <= self.n(),
                r@.len() == v,
                forall|i: int| 0 <= i < v ==> r@[i] == i,
            decreases self.n() - v,
        {
            r.push(v);
            v += 1;
        }
        r
    }

    /// Owner of node `v`: true for the Reacher, false for the Opponent.
    pub fn owner(&self, v: usize) -> (r: Result<bool, GraphError>)
        ensures
            match r {
                Ok(b) => v < self.n() && b == self.owner_of(v as int),
                Err(e) => v >= self.n() && (e matches GraphError::OutOfRange(u) && u == v),
            },
    {
        if v < self.owners.len() {
            Ok(self.owners[v])
        } else {
            Err(GraphError::OutOfRange(v))
        }
    }

    /// The successors of node `v` at time `t`, as a fresh vector.
    /// An empty result is a valid dead end, distinct from the error cases.
    pub fn successors_at(&self, v: usize, t: usize) -> (r: Result<Vec<usize>, GraphError>)
        requires
            self.wf(),
        ensures
            match r {
                Ok(s) => v < self.n() && t <= self.max_time() && s@ == self.succ_seq(t as int, v as int),
                Err(e) => match e {
                    GraphError::OutOfRange(u) => u == v && v >= self.n(),
                    GraphError::TimeOutOfRange(u) => u == t && v < self.n() && t > self.max_time(),
                    _ => false,
                },
            },
    {
        if v >= self.owners.len() {
            return Err(GraphError::OutOfRange(v));
        }
        if t >= self.succ.len() {
            return Err(GraphError::TimeOutOfRange(t));
        }
        let row: &Vec<usize> = &self.succ[t][v];
        let mut out: Vec<usize> = Vec::new();
        let mut j: usize = 0;
        while j < row.len()
            invariant
                0 <= j <= row@.len(),
                out@ == row@.take(j as int),
            decreases row@.len() - j,
        {
            out.push(row[j]);
            proof {
                assert(row@.take(j as int).push(row@[j as int]) =~= row@.take(j + 1));
            }
            j += 1;
        }
        proof {
            assert(row@.take(row@.len() as int) =~= row@);
        }
        Ok(out)
    }

    /// Index of the node carrying identifier `x`, if any.
    pub fn find_id(&self, x: &Vec<u8>) -> (r: Option<usize>)
        ensures
            match r {
                Some(v) => idx_of(self.ids_view(), x@, 0) == Some(v as int),
                None => idx_of(self.ids_view(), x@, 0) is None,
            },
    {
        let mut v: usize = 0;
        while v < self.ids.len()
            invariant
                0 <= v <= self.ids@.len(),
                idx_of(self.ids_view(), x@, 0) == idx_of(self.ids_view(), x@, v as int),
            decreases self.ids@.len() - v,
        {
            if bytes_eq(&self.ids[v], x) {
                proof {
                    assert(self.ids_view()[v as int] == x@);
                }
                return Some(v);
            }
            v += 1;
        }
        None
    }

    /// Resolve a list of external identifiers into a selection vector of
    /// length `node_count`: slot `v` is set exactly when node `v`'s
    /// identifier occurs in the list.  Fails, naming the offending
    /// identifier, when any entry of the list is absent from the table.
    pub fn resolve_ids(&self, l: &Vec<Vec<u8>>) -> (r: Result<Vec<bool>, GraphError>)
        requires
            self.wf(),
        ensures
            match r {
                Ok(sel) => {
                    &&& first_unknown(self.ids_view(), view2(l@), 0) is None
                    &&& sel@ == sel_of(self.ids_view(), view2(l@))
                },
                Err(e) => match e {
                    GraphError::UnknownIdentifier(u) => exists|j: int|
                        first_unknown(self.ids_view(), view2(l@), 0) == Some(j) && u@ == view2(l@)[j],
                    _ => false,
                },
            },
    {
        let mut j: usize = 0;
        while j < l.len()
            invariant
                0 <= j <= l@.len(),
                first_unknown(self.ids_view(), view2(l@), 0)
                    == first_unknown(self.ids_view(), view2(l@), j as int),
            decreases l@.len() - j,
        {
            match self.find_id(&l[j]) {
                Some(_) => {
                    proof {
                        lemma_idx_of_known(self.ids_view(), view2(l@)[j as int], 0);
                    }
                }
                None => {
                    proof {
                        lemma_idx_of_none(self.ids_view(), view2(l@)[j as int], 0);
                    }
                    return Err(GraphError::UnknownIdentifier(copy_bytes(&l[j])));
                }
            }
            j += 1;
        }
        let mut sel: Vec<bool> = Vec::new();
        let mut v: usize = 0;
        while v < self.ids.len()
            invariant
                self.wf(),
                0 <= v <= self.n(),
                self.ids@.len() == self.n(),
                sel@.len() == v,
                forall|u: int| 0 <= u < v ==> sel@[u] == view2(l@).contains(self.ids_view()[u]),
            decreases self.n() - v,
        {
            let hit = list_contains(l, &self.ids[v]);
            sel.push(hit);
            v += 1;
        }
        proof {
            assert(sel@ =~= sel_of(self.ids_view(), view2(l@)));
        }
        Ok(sel)
    }

    /// The external identifiers of the selected nodes, in ascending node
    /// order.  Total: any boolean vector of the right length is valid.
    pub fn identifiers_for(&self, sel: &Vec<bool>) -> (r: Vec<Vec<u8>>)
        requires
            self.wf(),
            sel@.len() == self.n(),
        ensures
            view2(r@) == self.ids_selected(sel@),
    {
        let mut r: Vec<Vec<u8>> = Vec::new();
        let mut v: usize = 0;
        while v < self.ids.len()
            invariant
                self.wf(),
                sel@.len() == self.n(),
                self.ids@.len() == self.n(),
                0 <= v <= self.n(),
                view2(r@) == self.ids_selected_upto(sel@, v as int),
            decreases self.n() - v,
        {
            if sel[v] {
                let id = copy_bytes(&self.ids[v]);
                proof {
                    crate::bytes::lemma_view2_push(r@, id);
                    assert(view2(r@).push(id@)
                        =~= view2(r@) + seq![self.ids_view()[v as int]]);
                }
                r.push(id);
            } else {
                proof {
                    assert(view2(r@) =~= view2(r@) + Seq::<Seq<u8>>::empty());
                }
            }
            v += 1;
        }
        r
    }
}

/// When `idx_of` finds an index, the identifier is known; used to bridge
/// the executable search and the membership predicate.
pub proof fn lemma_idx_of_known(ids: Seq<Seq<u8>>, x: Seq<u8>, i: int)
    requires
        idx_of(ids, x, i) is Some,
    ensures
        known_id(ids, x),
    decreases ids.len() - i,
{
    if 0 <= i < ids.len() {
        if ids[i] == x {
        } else {
            lemma_idx_of_known(ids, x, i + 1);
        }
    }
}

/// When `idx_of` finds nothing from position `i` on, no entry at or after
/// `i` equals `x`.
pub proof fn lemma_idx_of_none(ids: Seq<Seq<u8>>, x: Seq<u8>, i: int)
    requires
        idx_of(ids, x, i) is None,
        0 <= i,
    ensures
        forall|v: int| i <= v < ids.len() ==> ids[v] != x,
    decreases ids.len() - i,
{
    if i < ids.len() {
        lemma_idx_of_none(ids, x, i + 1);
    }
}

} // verus!
