//! One execution step of a node in an incremental dataflow graph: draining a
//! node's handoff queue, maintaining its materialized rows, and fanning the
//! results out to its children.
pub mod record;
pub mod store;
pub mod broadcast;
pub mod node;
