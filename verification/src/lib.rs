//! A lock-free ordered graph, modelled step by step.
//!
//! Vertices form one ordered singly-linked list; every vertex owns an
//! ordered list of its outgoing edges. A node is deleted in two phases, the
//! mark and the unlinking, and its storage is released by a
//! generation-counted collector once no open session can still reach it.
//! Every shared access is one atomic step of an operation, so the steps of
//! several operations can be interleaved in any order.
//!
//! - `marking`, `shared`, `atomic`, `key`: the values that nodes are made of.
//! - `collector`: generations and sessions.
//! - `list`: the cells of one list, its shape, and its atomic steps.
//! - `protocol`: the accesses that operations ask for, and their events.
//! - `find`, `insert`, `remove`: the operations, step by step and run to
//!   their end.
//! - `history`: what a search among the steps of others has seen.
//! - `graph`: the graph made of lists; `model`: the graph it stands for.

pub mod atomic;
pub mod collector;
pub mod error;
pub mod find;
pub mod graph;
pub mod history;
pub mod insert;
pub mod key;
pub mod list;
pub mod marking;
pub mod model;
pub mod protocol;
pub mod remove;
pub mod shared;
