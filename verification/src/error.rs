//! What an operation reports when it does not apply.

use vstd::prelude::*;

verus! {

/// An insert found a live node with the same key.
#[derive(Clone, Copy, PartialEq, Eq, Structural, Debug)]
pub struct AlreadyExists;

/// A removal found no live node with the key.
#[derive(Clone, Copy, PartialEq, Eq, Structural, Debug)]
pub struct NotFound;

/// An edge operation named a vertex that is not live.
#[derive(Clone, Copy, PartialEq, Eq, Structural, Debug)]
pub struct VertexNotFound;

} // verus!
