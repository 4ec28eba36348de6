//! A generic singly linked list with O(1) append-to-tail and pop-from-head.
//!
//! The list keeps its cells in an arena and tracks head, tail and length;
//! its abstract value is the sequence of stored elements from head to tail.

pub mod laws;
pub mod list;
