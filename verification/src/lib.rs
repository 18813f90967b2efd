//! Core logic of a broadcast playout engine.
//!
//! The crate holds the decision logic of the engine: the filter-graph
//! splitter, the source-selection rules, the process-lifecycle guard's
//! state, and the state machine of the playout loop.  The surrounding
//! binary performs the actual process spawning and byte I/O and feeds
//! the outcomes back into these functions.

pub mod filter;
pub mod guard;
pub mod playout;
pub mod source;
pub mod text;
