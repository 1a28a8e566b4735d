//! A fixed-capacity first-in-first-out queue over a circular buffer.
//!
//! The queue keeps its elements in an inline array and never allocates. Two
//! indices walk the array modulo its length, so a slot freed by `dequeue` is
//! used again by a later `enqueue`.

pub mod laws;
pub mod queue;
