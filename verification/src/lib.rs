//! Core of a partitioned minimum-weight perfect-matching decoder for quantum
//! error-correcting codes.
//!
//! The library is organised around two cooperating halves: a *dual* side that
//! maintains dual variables on an arena of dual nodes (syndrome vertices and
//! blossoms) and reports why uniform growth must stop, and a *primal* side
//! that interprets those conflicts to build and expand blossoms and produce a
//! matching.  A partition layer splits the decoding graph into vertex ranges,
//! solves each range on its own unit, and fuses adjacent units pairwise along
//! a binary dependency tree.

pub mod util;
pub mod dual_module;
pub mod dual_module_graph;
pub mod primal_module_serial;
pub mod primal_module_parallel;
