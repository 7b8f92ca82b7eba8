//! References to nodes.

use vstd::prelude::*;

verus! {

/// The address that stands for "no node".
pub const NULL_ADDR: usize = usize::MAX;

/// A reference to a node of one list: the address of its cell, or null.
/// A reference does not own the node it names.
#[derive(Clone, Copy, PartialEq, Eq, Structural, Debug)]
pub struct Shared {
    pub addr: usize,
}

impl Shared {
    /// Whether this is the null reference.
    pub open spec fn is_null_spec(&self) -> bool {
        self.addr == NULL_ADDR
    }

    /// The null reference.
    pub fn null() -> (r: Shared)
        ensures
            r == (Shared { addr: NULL_ADDR }),
    {
        Shared { addr: NULL_ADDR }
    }

    /// The reference to the cell at `addr`.
    pub fn from(addr: usize) -> (r: Shared)
        ensures
            r == (Shared { addr }),
    {
        Shared { addr }
    }

    /// Reports whether this is the null reference.
    #[verifier::when_used_as_spec(is_null_spec)]
    pub fn is_null(&self) -> (r: bool)
        ensures
            r == self.is_null_spec(),
    {
        self.addr == NULL_ADDR
    }

    /// The address of the cell, null included.
    pub fn as_ptr(&self) -> (r: usize)
        ensures
            r == self.addr,
    {
        self.addr
    }
}

} // verus!
