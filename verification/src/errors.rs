//! Error types of the library.
//!
//! Every failure is terminal for the run that raised it: parsing and solving
//! are one-shot batch computations, so no error is retried or recovered from.

use vstd::prelude::*;

verus! {

/// A failure of one of the two textual parsers.
///
/// Line numbers are 1-based source lines, byte positions are 0-based offsets
/// into the input buffer.
#[derive(Clone, Copy, Debug, PartialEq, Eq, Structural)]
pub enum ParseError {
    /// The byte at this offset may not appear anywhere in the input.
    BadByte(usize),
    /// The line does not match any rule of the grammar.
    BadLine(usize),
    /// A token of the line should be a decimal number fitting `usize`, and is not.
    BadNumber(usize),
    /// The line declares a node identifier that was already declared.
    DuplicateNode(usize),
    /// A node declaration stands after the `maxtime` line.
    NodeAfterMaxTime(usize),
    /// A second `maxtime` line.
    DuplicateMaxTime(usize),
    /// The input ended without a `maxtime` line.
    MissingMaxTime,
    /// An edge line stands before the `maxtime` line.
    EdgeBeforeMaxTime(usize),
    /// An edge line names a node identifier that was never declared.
    UndeclaredNode(usize),
    /// An edge is declared active at a time beyond the declared maximum.
    TimeTooLarge(usize),
}

/// A failure of a whole run: either parser, or a graph query.
#[derive(Clone, Debug, PartialEq, Eq)]
pub enum RunError {
    /// One of the two textual inputs is malformed.
    Parse(ParseError),
    /// Resolution or solving failed against the parsed graph.
    Graph(GraphError),
}

/// A failure of a query against a [`crate::graph::TemporalGraph`].
#[derive(Clone, Debug, PartialEq, Eq)]
pub enum GraphError {
    /// The queried node index is not below the node count.
    OutOfRange(usize),
    /// The queried time step exceeds the graph's maximum defined time step.
    TimeOutOfRange(usize),
    /// A target identifier does not exist in the graph's identifier table.
    UnknownIdentifier(Vec<u8>),
}

} // verus!
