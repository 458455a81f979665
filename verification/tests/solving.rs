//! Tests of the attractor solver and of the whole pipeline.

use temporal_reach::errors::{GraphError, ParseError, RunError};
use temporal_reach::parse::parse_graph;
use temporal_reach::pipeline::run;
use temporal_reach::solver::solve;

fn bytes(s: &str) -> Vec<u8> {
    s.as_bytes().to_vec()
}

fn ids(names: &[&str]) -> Vec<Vec<u8>> {
    names.iter().map(|n| bytes(n)).collect()
}

/// Winning sets with zero remaining steps are the target exactly.
#[test]
fn base_case_is_target() {
    let text = "node A reacher\nnode B opponent\nnode C opponent\nmaxtime 2\nedge A B 0 1 2\n";
    let g = parse_graph(&bytes(text)).unwrap();
    let target = vec![false, true, false];
    for k in 0..3 {
        let wins = solve(&g, &target, k).unwrap();
        assert_eq!(wins.len(), k + 1);
        assert_eq!(wins[k], target);
    }
}

/// The polarity of the quantifier follows the owner: with one winning
/// and one losing successor, a Reacher-owned node wins and an
/// Opponent-owned node loses.
#[test]
fn ownership_polarity() {
    // A Reacher-owned, successors A (out of target) and B (in target).
    let r = "node A reacher\nnode B opponent\nmaxtime 1\nedge A A 0 1\nedge A B 0 1\n";
    let g = parse_graph(&bytes(r)).unwrap();
    let target = vec![false, true];
    let wins = solve(&g, &target, 2).unwrap();
    assert_eq!(wins[1][0], true);

    // The same graph, but A Opponent-owned: A must be losing at k - 1.
    let o = "node A opponent\nnode B opponent\nmaxtime 1\nedge A A 0 1\nedge A B 0 1\n";
    let g = parse_graph(&bytes(o)).unwrap();
    let wins = solve(&g, &target, 2).unwrap();
    assert_eq!(wins[1][0], false);
}

/// An Opponent-owned dead end is winning, a Reacher-owned dead end is
/// losing, at every step before the horizon.
#[test]
fn dead_end_convention() {
    let text = "node R reacher\nnode O opponent\nmaxtime 2\n";
    let g = parse_graph(&bytes(text)).unwrap();
    let target = vec![false, false];
    let wins = solve(&g, &target, 2).unwrap();
    for i in 0..2 {
        assert_eq!(wins[i][0], false, "stuck Reacher node must lose at step {}", i);
        assert_eq!(wins[i][1], true, "stuck Opponent node must win at step {}", i);
    }
    assert_eq!(wins[2], target);
}

/// A node's winning status may flip both ways across steps: the
/// successor lookup uses exactly the step's own time index.
#[test]
fn winning_status_flips_both_ways() {
    // X reaches the absorbing target T at times 0 and 2, but only the
    // dead end D at time 1.
    let text = "node X reacher\nnode T opponent\nnode D reacher\nmaxtime 2\n\
                edge T T 0 1 2\nedge X T 0 2\nedge X D 1\n";
    let g = parse_graph(&bytes(text)).unwrap();
    let target = vec![false, true, false];
    let wins = solve(&g, &target, 3).unwrap();
    assert_eq!(wins[3], vec![false, true, false]);
    assert_eq!(wins[2], vec![true, true, false]);
    assert_eq!(wins[1], vec![false, true, false]);
    assert_eq!(wins[0], vec![true, true, false]);
    // X flips from winning to losing and back: no monotonicity.
    assert!(wins[2][0] && !wins[1][0] && wins[0][0]);
}

/// Two runs on identical inputs give bit-identical vectors at every step.
#[test]
fn solver_is_deterministic() {
    let text = "node X reacher\nnode T opponent\nnode D reacher\nmaxtime 2\n\
                edge T T 0 1 2\nedge X T 0 2\nedge X D 1\n";
    let g1 = parse_graph(&bytes(text)).unwrap();
    let g2 = parse_graph(&bytes(text)).unwrap();
    let target = vec![false, true, false];
    let w1 = solve(&g1, &target, 3).unwrap();
    let w2 = solve(&g2, &target, 3).unwrap();
    assert_eq!(w1, w2);

    let r1 = run(&bytes(text), &bytes("T"), 3).unwrap();
    let r2 = run(&bytes(text), &bytes("T"), 3).unwrap();
    assert_eq!(r1.1, r2.1);
    assert_eq!(r1.2, r2.2);
}

/// A horizon beyond the graph's time domain is refused, not guessed at.
#[test]
fn horizon_beyond_time_domain() {
    let g = parse_graph(&bytes("node A reacher\nmaxtime 0\nedge A A 0\n")).unwrap();
    let target = vec![true];
    assert!(solve(&g, &target, 1).is_ok());
    assert_eq!(solve(&g, &target, 2), Err(GraphError::TimeOutOfRange(1)));
    assert_eq!(solve(&g, &target, 5), Err(GraphError::TimeOutOfRange(4)));
}

/// The three-node example, end to end through the pipeline.
#[test]
fn end_to_end_three_nodes() {
    let text = "node A reacher\nnode B opponent\nnode C opponent\nmaxtime 2\n\
                edge A B 0 1 2\nedge B A 0 1 2\nedge B C 0 1 2\n";
    let (g, wk, w0) = run(&bytes(text), &bytes("C"), 2).unwrap();

    // Derived by the backward induction itself: C is an isolated
    // Opponent-owned node, so it stays winning by immobilization; B's
    // successor A never wins, A's successor B never wins.
    let target = vec![false, false, true];
    let wins = solve(&g, &target, 2).unwrap();
    assert_eq!(wins[2], vec![false, false, true]);
    assert_eq!(wins[1], vec![false, false, true]);
    assert_eq!(wins[0], vec![false, false, true]);

    assert_eq!(wk, ids(&["C"]));
    assert_eq!(w0, ids(&["C"]));
}

/// The pipeline surfaces an unknown target identifier as a fatal error.
#[test]
fn pipeline_unknown_identifier() {
    let text = "node A reacher\nmaxtime 0\n";
    assert_eq!(
        run(&bytes(text), &bytes("A, Z"), 0),
        Err(RunError::Graph(GraphError::UnknownIdentifier(bytes("Z"))))
    );
}

/// The pipeline propagates a parse failure of either input.
#[test]
fn pipeline_parse_errors() {
    assert_eq!(
        run(&bytes("node A\n"), &bytes("A"), 0),
        Err(RunError::Parse(ParseError::BadLine(1)))
    );
    assert_eq!(
        run(&bytes("node A reacher\nmaxtime 0\n"), &bytes("A;"), 0),
        Err(RunError::Parse(ParseError::BadByte(1)))
    );
}
