//! Bounded-horizon two-player reachability games on temporal graphs.
//!
//! A temporal graph is a finite graph whose edge set changes with a discrete
//! time step.  Two players move a token along active edges: the Reacher tries
//! to drive it into a target set of nodes before a horizon `k` runs out, the
//! Opponent tries to prevent that.  The library holds the graph model, the
//! textual parsers that build it, and the backward-induction solver that
//! computes the winning set of the Reacher at every time step.

pub mod bytes;
pub mod errors;
pub mod graph;
pub mod laws;
pub mod parse;
pub mod pipeline;
pub mod solver;
pub mod targets;
