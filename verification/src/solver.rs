//! The attractor solver: bounded-horizon backward induction.
//!
//! Given a graph, a target selection vector and a horizon `k`, the solver
//! produces the winning set of the Reacher at every time step from `k`
//! down to `0`.  `wins[i][v]` holds exactly when, standing on node `v`
//! with `i` of the `k` steps already elapsed, the Reacher can force the
//! token into the target set at step `k`.

use vstd::prelude::*;

use crate::bytes::rows_view;
use crate::errors::GraphError;
use crate::graph::TemporalGraph;

verus! {

/// At least one successor is winning at the next step: the Reacher,
/// choosing the move, wins.
pub open spec fn some_succ_wins(succs: Seq<usize>, next: Seq<bool>) -> bool {
    exists|j: int| #![trigger succs[j]] 0 <= j < succs.len() && next[succs[j] as int]
}

/// Every successor is winning at the next step: the Opponent, choosing
/// the move, cannot escape.  Vacuously true of a dead end.
pub open spec fn all_succ_win(succs: Seq<usize>, next: Seq<bool>) -> bool {
    forall|j: int| #![trigger succs[j]] 0 <= j < succs.len() ==> next[succs[j] as int]
}

/// One step of backward induction: the winning vector at time `t`,
/// derived from the winning vector `next` at time `t + 1`.  The
/// quantifier's polarity is picked per node by its owner.
pub open spec fn step_wins(g: TemporalGraph, next: Seq<bool>, t: int) -> Seq<bool> {
    Seq::new(
        g.n(),
        |v: int|
            if g.owner_of(v) {
                some_succ_wins(g.succ_seq(t, v), next)
            } else {
                all_succ_win(g.succ_seq(t, v), next)
            },
    )
}

/// The winning vector at time `i`, for horizon `k` and target vector
/// `target`: the target itself at `i == k`, one backward step otherwise.
pub open spec fn wins_at(g: TemporalGraph, target: Seq<bool>, k: int, i: int) -> Seq<bool>
    decreases k - i,
{
    if i >= k {
        target
    } else {
        step_wins(g, wins_at(g, target, k, i + 1), i)
    }
}

/// What the solver owes: one winning vector per time step `0..=k`, each
/// the backward-induction value at its step.
pub open spec fn is_solution(g: TemporalGraph, target: Seq<bool>, k: int, out: Seq<Seq<bool>>) -> bool {
    &&& out.len() == k + 1
    &&& forall|i: int| 0 <= i <= k ==> out[i] == wins_at(g, target, k, i)
}

/// A fresh copy of a boolean vector.
fn copy_bools(src: &Vec<bool>) -> (r: Vec<bool>)
    ensures
        r@ == src@,
{
    let mut r: Vec<bool> = Vec::new();
    let mut i: usize = 0;
    while i < src.len()
        invariant
            0 <= i <= src@.len(),
            r@ == src@.take(i as int),
        decreases src@.len() - i,
    {
        r.push(src[i]);
        proof {
            assert(src@.take(i as int).push(src@[i as int]) =~= src@.take(i + 1));
        }
        i += 1;
    }
    proof {
        assert(src@.take(src@.len() as int) =~= src@);
    }
    r
}

/// Whether some listed successor is winning in `next`.
fn any_true(succs: &Vec<usize>, next: &Vec<bool>) -> (r: bool)
    requires
        forall|j: int| 0 <= j < succs@.len() ==> #[trigger] succs@[j] < next@.len(),
    ensures
        r == some_succ_wins(succs@, next@),
{
    let mut j: usize = 0;
    while j < succs.len()
        invariant
            0 <= j <= succs@.len(),
            forall|jj: int| 0 <= jj < succs@.len() ==> #[trigger] succs@[jj] < next@.len(),
            forall|jj: int| #![trigger succs@[jj]] 0 <= jj < j ==> !next@[succs@[jj] as int],
        decreases succs@.len() - j,
    {
        if next[succs[j]] {
            proof {
                assert(0 <= j < succs@.len() && next@[succs@[j as int] as int]);
            }
            return true;
        }
        j += 1;
    }
    false
}

/// Whether every listed successor is winning in `next`.
fn all_true(succs: &Vec<usize>, next: &Vec<bool>) -> (r: bool)
    requires
        forall|j: int| 0 <= j < succs@.len() ==> #[trigger] succs@[j] < next@.len(),
    ensures
        r == all_succ_win(succs@, next@),
{
    let mut j: usize = 0;
    while j < succs.len()
        invariant
            0 <= j <= succs@.len(),
            forall|jj: int| 0 <= jj < succs@.len() ==> #[trigger] succs@[jj] < next@.len(),
            forall|jj: int| #![trigger succs@[jj]] 0 <= jj < j ==> next@[succs@[jj] as int],
        decreases succs@.len() - j,
    {
        if !next[succs[j]] {
            proof {
                assert(0 <= j < succs@.len() && !next@[succs@[j as int] as int]);
            }
            return false;
        }
        j += 1;
    }
    true
}

/// One executable backward step at time `t`.
fn attract_step(g: &TemporalGraph, next: &Vec<bool>, t: usize) -> (r: Vec<bool>)
    requires
        g.wf(),
        next@.len() == g.n(),
        t < g.succ@.len(),
    ensures
        r@ == step_wins(*g, next@, t as int),
{
    let mut out: Vec<bool> = Vec::new();
    let mut v: usize = 0;
    while v < g.owners.len()
        invariant
            g.wf(),
            next@.len() == g.n(),
            t < g.succ@.len(),
            0 <= v <= g.n(),
            out@.len() == v,
            forall|u: int| 0 <= u < v ==> out@[u] == step_wins(*g, next@, t as int)[u],
        decreases g.n() - v,
    {
        let succs: &Vec<usize> = &g.succ[t][v];
        proof {
            assert(succs@ == g.succ_seq(t as int, v as int));
            assert forall|j: int| 0 <= j < succs@.len() implies #[trigger] succs@[j] < next@.len() by {
                assert(g.succ_seq(t as int, v as int)[j] < g.n());
            }
        }
        let b = if g.owners[v] {
            any_true(succs, next)
        } else {
            all_true(succs, next)
        };
        out.push(b);
        v += 1;
    }
    proof {
        assert(out@ =~= step_wins(*g, next@, t as int));
    }
    out
}

/// Reverse the rows of `a`.
fn reverse_rows(a: Vec<Vec<bool>>) -> (r: Vec<Vec<bool>>)
    ensures
        r@.len() == a@.len(),
        forall|i: int| 0 <= i < r@.len() ==> r@[i]@ == a@[a@.len() - 1 - i]@,
{
    let ghost orig = a@;
    let mut a = a;
    let mut r: Vec<Vec<bool>> = Vec::new();
    while a.len() > 0
        invariant
            r@.len() + a@.len() == orig.len(),
            a@ == orig.take(a@.len() as int),
            forall|i: int| 0 <= i < r@.len() ==> r@[i]@ == orig[orig.len() - 1 - i]@,
        decreases a@.len(),
    {
        let x = a.pop().unwrap();
        proof {
            assert(orig.take((a@.len() + 1) as int).drop_last() =~= orig.take(a@.len() as int));
            assert(x == orig[a@.len() as int]);
        }
        r.push(x);
    }
    r
}

/// Solve the bounded-horizon reachability game: compute the winning
/// vectors at every time step `0..=k` by backward induction from the
/// target.  The vector at step `k` is the target itself; each earlier
/// step looks its successors up at exactly its own time index.  Fails
/// exactly when the horizon would make the first backward step look up
/// time `k - 1` beyond the graph's maximum defined time step.
pub fn solve(g: &TemporalGraph, target: &Vec<bool>, k: usize) -> (r: Result<
    Vec<Vec<bool>>,
    GraphError,
>)
    requires
        g.wf(),
        target@.len() == g.n(),
    ensures
        match r {
            Ok(out) => {
                &&& k <= g.succ@.len()
                &&& is_solution(*g, target@, k as int, rows_view(out@))
                &&& rows_view(out@)[k as int] == target@
            },
            Err(e) => match e {
                GraphError::TimeOutOfRange(t) => k > g.succ@.len() && t == k - 1,
                _ => false,
            },
        },
{
    if k > g.succ.len() {
        return Err(GraphError::TimeOutOfRange(k - 1));
    }
    let mut rev: Vec<Vec<bool>> = Vec::new();
    let mut cur: Vec<bool> = copy_bools(target);
    rev.push(copy_bools(&cur));
    let mut i: usize = k;
    while i > 0
        invariant
            g.wf(),
            target@.len() == g.n(),
            k <= g.succ@.len(),
            0 <= i <= k,
            cur@ == wins_at(*g, target@, k as int, i as int),
            rev@.len() == k - i + 1,
            forall|j: int|
                0 <= j < rev@.len() ==> rows_view(rev@)[j] == wins_at(*g, target@, k as int, k - j),
        decreases i,
    {
        i -= 1;
        let nxt = attract_step(g, &cur, i);
        let c = copy_bools(&nxt);
        let ghost prev = rev@;
        proof {
            assert(wins_at(*g, target@, k as int, i as int)
                == step_wins(*g, wins_at(*g, target@, k as int, i + 1), i as int));
        }
        rev.push(c);
        proof {
            assert forall|j: int|
                0 <= j < rev@.len() implies rows_view(rev@)[j]
                == wins_at(*g, target@, k as int, k - j) by {
                assert(rows_view(rev@)[j] == rev@[j]@);
                if j < prev.len() {
                    assert(rev@[j] == prev[j]);
                    assert(rows_view(prev)[j] == prev[j]@);
                } else {
                    assert(rev@[j] == c);
                }
            }
        }
        cur = nxt;
    }
    let out = reverse_rows(rev);
    proof {
        assert forall|j: int| 0 <= j <= k implies rows_view(out@)[j]
            == wins_at(*g, target@, k as int, j) by {
            assert(rows_view(out@)[j] == out@[j]@);
            assert(out@[j]@ == rows_view(rev@)[k - j]);
        }
        assert(rows_view(out@).len() == k + 1);
        assert(rows_view(out@)[k as int] == wins_at(*g, target@, k as int, k as int));
    }
    Ok(out)
}

} // verus!
