//! Node keys: the sentinel's key and the finite keys of real nodes.

use vstd::prelude::*;
use magnitude::Magnitude;

verus! {

/// The key of a node. The head of every list is a sentinel whose key,
/// `NegInfinite`, lies below every key a caller can supply.
#[derive(Clone, Copy, PartialEq, Eq, Structural, Debug)]
pub enum NodeKey {
    NegInfinite,
    Finite(usize),
}

/// `magnitude`'s `<` between a node key and a finite key: negative infinity is
/// below every finite value, and two finite values compare as their numbers do.
/// Neither operand is positive infinity and the right one is finite, so the
/// comparison of two equal infinities, on which `magnitude` panics, cannot occur.
#[verifier::external_body]
fn magnitude_less(node: NodeKey, key: usize) -> (r: bool)
    ensures
        r == (node.rank() < key),
{
    let lhs = match node {
        NodeKey::NegInfinite => Magnitude::NegInfinite,
        NodeKey::Finite(value) => Magnitude::Finite(value),
    };
    lhs < Magnitude::Finite(key)
}

/// `magnitude`'s `==` between a node key and a finite key: an infinity equals
/// no finite value, and two finite values are equal when their numbers are.
#[verifier::external_body]
fn magnitude_equal(node: NodeKey, key: usize) -> (r: bool)
    ensures
        r == (node == NodeKey::Finite(key)),
{
    let lhs = match node {
        NodeKey::NegInfinite => Magnitude::NegInfinite,
        NodeKey::Finite(value) => Magnitude::Finite(value),
    };
    lhs == Magnitude::Finite(key)
}

/// `magnitude`'s `unwrap`: the number inside a finite value. It panics on an
/// infinity, which the precondition leaves out.
#[verifier::external_body]
fn magnitude_unwrap(node: NodeKey) -> (r: usize)
    requires
        node is Finite,
    ensures
        node == NodeKey::Finite(r),
{
    let value = match node {
        NodeKey::NegInfinite => Magnitude::NegInfinite,
        NodeKey::Finite(value) => Magnitude::Finite(value),
    };
    value.unwrap()
}

impl NodeKey {
    /// The place of the key in the total order: the sentinel's key is -1,
    /// a finite key is its own number.
    pub open spec fn rank(self) -> int {
        match self {
            NodeKey::NegInfinite => -1,
            NodeKey::Finite(value) => value as int,
        }
    }

    /// Whether this key lies strictly below the finite key `key`.
    pub fn below(&self, key: usize) -> (r: bool)
        ensures
            r == (self.rank() < key),
    {
        magnitude_less(*self, key)
    }

    /// Whether this key is the finite key `key`.
    pub fn is(&self, key: usize) -> (r: bool)
        ensures
            r == (*self == NodeKey::Finite(key)),
    {
        magnitude_equal(*self, key)
    }

    /// The number of a finite key; `None` for the sentinel's key.
    pub fn finite(&self) -> (r: Option<usize>)
        ensures
            r == (match *self {
                NodeKey::NegInfinite => None::<usize>,
                NodeKey::Finite(value) => Some(value),
            }),
    {
        match self {
            NodeKey::NegInfinite => None,
            NodeKey::Finite(_) => Some(magnitude_unwrap(*self)),
        }
    }
}

} // verus!
