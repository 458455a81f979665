//! Tests of the two textual parsers, identifier resolution and the
//! reporting direction.

use temporal_reach::errors::{GraphError, ParseError};
use temporal_reach::parse::parse_graph;
use temporal_reach::targets::parse_targets;

fn bytes(s: &str) -> Vec<u8> {
    s.as_bytes().to_vec()
}

fn ids(names: &[&str]) -> Vec<Vec<u8>> {
    names.iter().map(|n| bytes(n)).collect()
}

const SMALL: &str = "node A reacher\nnode B opponent\nmaxtime 1\nedge A B 0 1\nedge B A 1\n";

#[test]
fn parse_small_graph() {
    let g = parse_graph(&bytes(SMALL)).unwrap();
    assert_eq!(g.node_count(), 2);
    assert_eq!(g.max_defined_time(), 1);
    assert_eq!(g.owner(0), Ok(true));
    assert_eq!(g.owner(1), Ok(false));
    assert_eq!(g.owner(2), Err(GraphError::OutOfRange(2)));
    assert_eq!(g.successors_at(0, 0), Ok(vec![1]));
    assert_eq!(g.successors_at(0, 1), Ok(vec![1]));
    assert_eq!(g.successors_at(1, 0), Ok(vec![]));
    assert_eq!(g.successors_at(1, 1), Ok(vec![0]));
    assert_eq!(g.successors_at(1, 2), Err(GraphError::TimeOutOfRange(2)));
    assert_eq!(g.successors_at(9, 0), Err(GraphError::OutOfRange(9)));
    assert_eq!(g.nodes(), vec![0, 1]);
}

#[test]
fn parse_without_final_newline() {
    let g = parse_graph(&bytes("node A reacher\nmaxtime 0\nedge A A 0")).unwrap();
    assert_eq!(g.successors_at(0, 0), Ok(vec![0]));
}

#[test]
fn parse_duplicate_successor_collapses() {
    let g = parse_graph(&bytes("node A reacher\nmaxtime 0\nedge A A 0 0\nedge A A 0\n")).unwrap();
    assert_eq!(g.successors_at(0, 0), Ok(vec![0]));
}

#[test]
fn parse_bad_byte() {
    assert_eq!(
        parse_graph(&bytes("node A reacher!\n")),
        Err(ParseError::BadByte(14))
    );
}

#[test]
fn parse_bad_line() {
    assert_eq!(
        parse_graph(&bytes("node A reacher\nnode B\nmaxtime 1\n")),
        Err(ParseError::BadLine(2))
    );
    assert_eq!(
        parse_graph(&bytes("node A somebody\n")),
        Err(ParseError::BadLine(1))
    );
    assert_eq!(
        parse_graph(&bytes("frobnicate\n")),
        Err(ParseError::BadLine(1))
    );
}

#[test]
fn parse_bad_number() {
    assert_eq!(
        parse_graph(&bytes("maxtime zero\n")),
        Err(ParseError::BadNumber(1))
    );
    assert_eq!(
        parse_graph(&bytes("maxtime 99999999999999999999999999\n")),
        Err(ParseError::BadNumber(1))
    );
    assert_eq!(
        parse_graph(&bytes("node A reacher\nmaxtime 1\nedge A A x\n")),
        Err(ParseError::BadNumber(3))
    );
}

#[test]
fn parse_duplicate_node() {
    assert_eq!(
        parse_graph(&bytes("node A reacher\nnode A opponent\n")),
        Err(ParseError::DuplicateNode(2))
    );
}

#[test]
fn parse_node_after_maxtime() {
    assert_eq!(
        parse_graph(&bytes("maxtime 1\nnode A reacher\n")),
        Err(ParseError::NodeAfterMaxTime(2))
    );
}

#[test]
fn parse_duplicate_maxtime() {
    assert_eq!(
        parse_graph(&bytes("maxtime 1\nmaxtime 2\n")),
        Err(ParseError::DuplicateMaxTime(2))
    );
}

#[test]
fn parse_missing_maxtime() {
    assert_eq!(
        parse_graph(&bytes("node A reacher\n")),
        Err(ParseError::MissingMaxTime)
    );
    assert_eq!(parse_graph(&bytes("")), Err(ParseError::MissingMaxTime));
}

#[test]
fn parse_edge_before_maxtime() {
    assert_eq!(
        parse_graph(&bytes("node A reacher\nedge A A 0\nmaxtime 1\n")),
        Err(ParseError::EdgeBeforeMaxTime(2))
    );
}

#[test]
fn parse_undeclared_node() {
    assert_eq!(
        parse_graph(&bytes("node A reacher\nmaxtime 1\nedge A B 0\n")),
        Err(ParseError::UndeclaredNode(3))
    );
}

#[test]
fn parse_time_too_large() {
    assert_eq!(
        parse_graph(&bytes("node A reacher\nmaxtime 1\nedge A A 2\n")),
        Err(ParseError::TimeTooLarge(3))
    );
}

#[test]
fn parse_targets_separators_and_duplicates() {
    assert_eq!(parse_targets(&bytes("A,B C")).unwrap(), ids(&["A", "B", "C"]));
    assert_eq!(parse_targets(&bytes("A, A ,A\nB")).unwrap(), ids(&["A", "B"]));
    assert_eq!(parse_targets(&bytes("")).unwrap(), ids(&[]));
    assert_eq!(parse_targets(&bytes(" , ,, ")).unwrap(), ids(&[]));
}

#[test]
fn parse_targets_bad_byte() {
    assert_eq!(parse_targets(&bytes("A;B")), Err(ParseError::BadByte(1)));
}

#[test]
fn resolution_round_trip() {
    let g = parse_graph(&bytes(SMALL)).unwrap();
    let list = parse_targets(&bytes("B, A, B")).unwrap();
    let sel = g.resolve_ids(&list).unwrap();
    assert_eq!(sel, vec![true, true]);
    let mut back = g.identifiers_for(&sel);
    let mut want = ids(&["A", "B"]);
    back.sort();
    want.sort();
    assert_eq!(back, want);

    let single = g.resolve_ids(&ids(&["B"])).unwrap();
    assert_eq!(single, vec![false, true]);
    assert_eq!(g.identifiers_for(&single), ids(&["B"]));
}

#[test]
fn resolution_unknown_identifier() {
    let g = parse_graph(&bytes(SMALL)).unwrap();
    assert_eq!(
        g.resolve_ids(&ids(&["A", "Z"])),
        Err(GraphError::UnknownIdentifier(bytes("Z")))
    );
}

#[test]
fn find_id_lookup() {
    let g = parse_graph(&bytes(SMALL)).unwrap();
    assert_eq!(g.find_id(&bytes("A")), Some(0));
    assert_eq!(g.find_id(&bytes("B")), Some(1));
    assert_eq!(g.find_id(&bytes("Z")), None);
}
