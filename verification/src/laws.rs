//! Laws of the library, stated once and proved for every input: the
//! base case of the induction, the per-owner polarity of a backward
//! step, the dead-end convention, determinism of the solver, and the
//! resolution round trip.

use vstd::prelude::*;

use crate::graph::{first_unknown, known_id, sel_of, TemporalGraph};
use crate::solver::{all_succ_win, is_solution, some_succ_wins, step_wins, wins_at};

verus! {

/// Base case: with zero remaining steps the winning vector is the target
/// vector exactly — no node outside the target wins, none inside loses.
pub proof fn lemma_base_case(g: TemporalGraph, target: Seq<bool>, k: int)
    ensures
        wins_at(g, target, k, k) == target,
{
}

/// Polarity of one backward step: at any step before the horizon, a
/// Reacher-owned node wins exactly when some successor at that very time
/// index wins at the next step, an Opponent-owned node exactly when all
/// of them do.
pub proof fn lemma_step_polarity(g: TemporalGraph, target: Seq<bool>, k: int, i: int, v: int)
    requires
        0 <= i < k,
        0 <= v < g.n(),
    ensures
        wins_at(g, target, k, i)[v] == if g.owner_of(v) {
            some_succ_wins(g.succ_seq(i, v), wins_at(g, target, k, i + 1))
        } else {
            all_succ_win(g.succ_seq(i, v), wins_at(g, target, k, i + 1))
        },
{
    assert(wins_at(g, target, k, i) == step_wins(g, wins_at(g, target, k, i + 1), i));
}

/// Dead-end convention: a node with no successors at time `i` is winning
/// there exactly when the Opponent owns it — the Opponent is stuck and
/// loses by immobilization, while a stuck Reacher cannot force progress.
pub proof fn lemma_dead_end(g: TemporalGraph, target: Seq<bool>, k: int, i: int, v: int)
    requires
        0 <= i < k,
        0 <= v < g.n(),
        g.succ_seq(i, v).len() == 0,
    ensures
        wins_at(g, target, k, i)[v] == !g.owner_of(v),
{
    lemma_step_polarity(g, target, k, i, v);
}

/// Determinism: any two outputs meeting the solver's contract for the
/// same graph, target and horizon are equal, vector by vector and bit
/// by bit.
pub proof fn lemma_solver_deterministic(
    g: TemporalGraph,
    target: Seq<bool>,
    k: int,
    out1: Seq<Seq<bool>>,
    out2: Seq<Seq<bool>>,
)
    requires
        k >= 0,
        is_solution(g, target, k, out1),
        is_solution(g, target, k, out2),
    ensures
        out1 == out2,
{
    assert forall|i: int| 0 <= i < out1.len() implies out1[i] == out2[i] by {
        assert(out1[i] == wins_at(g, target, k, i));
        assert(out2[i] == wins_at(g, target, k, i));
    }
    assert(out1 =~= out2);
}

/// Membership in the ascending selection listing: an identifier is
/// listed below `v` exactly when some selected node below `v` carries it.
pub proof fn lemma_ids_selected_membership(
    g: TemporalGraph,
    sel: Seq<bool>,
    v: int,
    x: Seq<u8>,
)
    requires
        v <= g.n(),
    ensures
        g.ids_selected_upto(sel, v).contains(x) <==> exists|u: int|
            0 <= u < v && sel[u] && g.ids_view()[u] == x,
    decreases v,
{
    if v <= 0 {
    } else {
        lemma_ids_selected_membership(g, sel, v - 1, x);
        let prefix = g.ids_selected_upto(sel, v - 1);
        let whole = g.ids_selected_upto(sel, v);
        if whole.contains(x) {
            let j = choose|j: int| 0 <= j < whole.len() && whole[j] == x;
            if j < prefix.len() {
                assert(prefix[j] == x);
                assert(prefix.contains(x));
            } else {
                assert(sel[v - 1] && g.ids_view()[v - 1] == x);
            }
        }
        if exists|u: int| 0 <= u < v && sel[u] && g.ids_view()[u] == x {
            let u = choose|u: int| 0 <= u < v && sel[u] && g.ids_view()[u] == x;
            if u < v - 1 {
                assert(prefix.contains(x));
                let j = choose|j: int| 0 <= j < prefix.len() && prefix[j] == x;
                assert(whole[j] == x);
                assert(whole.contains(x));
            } else {
                assert(whole[whole.len() - 1] == x);
                assert(whole.contains(x));
            }
        }
    }
}

/// Resolution round trip: resolving a list of identifiers that all exist
/// in the graph and listing the selected nodes' identifiers again yields
/// the same set of identifiers — order-independent, duplicates collapsed.
pub proof fn lemma_resolution_round_trip(g: TemporalGraph, l: Seq<Seq<u8>>)
    requires
        g.wf(),
        forall|j: int| 0 <= j < l.len() ==> known_id(g.ids_view(), #[trigger] l[j]),
    ensures
        forall|x: Seq<u8>|
            g.ids_selected(sel_of(g.ids_view(), l)).contains(x) <==> l.contains(x),
{
    let sel = sel_of(g.ids_view(), l);
    assert forall|x: Seq<u8>|
        g.ids_selected(sel).contains(x) <==> l.contains(x) by {
        lemma_ids_selected_membership(g, sel, g.n() as int, x);
        if g.ids_selected(sel).contains(x) {
            let u = choose|u: int| 0 <= u < g.n() && sel[u] && g.ids_view()[u] == x;
            assert(l.contains(g.ids_view()[u]));
        }
        if l.contains(x) {
            let j = choose|j: int| 0 <= j < l.len() && l[j] == x;
            assert(known_id(g.ids_view(), l[j]));
            let u = choose|u: int| 0 <= u < g.ids_view().len() && g.ids_view()[u] == x;
            assert(sel[u] == l.contains(g.ids_view()[u]));
            assert(sel[u]);
        }
    }
}

/// A list with every identifier known resolves without error: the
/// success case of resolution is owed, not merely permitted.
pub proof fn lemma_resolve_total_on_known(ids: Seq<Seq<u8>>, l: Seq<Seq<u8>>, j: int)
    requires
        0 <= j,
        forall|i: int| j <= i < l.len() ==> known_id(ids, #[trigger] l[i]),
    ensures
        first_unknown(ids, l, j) is None,
    decreases l.len() - j,
{
    if j < l.len() {
        lemma_resolve_total_on_known(ids, l, j + 1);
    }
}

} // verus!
