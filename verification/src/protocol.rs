//! The atomic accesses that the operations ask for, and what comes back.

use vstd::prelude::*;
use crate::key::NodeKey;
use crate::marking::Marking;
use crate::shared::Shared;

verus! {

/// One atomic access to a list. An operation names the access it needs
/// next; whoever holds the memory performs it and hands back the event.
#[derive(Clone, Copy, PartialEq, Eq, Structural, Debug)]
pub enum Action {
    /// Read the link cell of `node`, and its key.
    Load { node: Shared },
    /// Compare-and-swap the link cell of `pred` from unmarked `curr` to a
    /// new node with `key` and `payload`, whose own link leads to `curr`.
    Link { pred: Shared, curr: Shared, key: usize, payload: Shared },
    /// Compare-and-swap the link cell of `curr` from unmarked `next` to
    /// marked `next`. The node has the key `key`.
    Mark { curr: Shared, next: Shared, key: usize },
    /// Compare-and-swap the link cell of `pred` from unmarked `curr` to
    /// unmarked `succ`, and retire `curr` if that succeeds.
    Unlink { pred: Shared, curr: Shared, succ: Shared },
}

/// What an atomic access has found or done.
#[derive(Clone, Copy, PartialEq, Eq, Structural, Debug)]
pub enum Event {
    /// What the link cell held, and the key of the node.
    Loaded { link: Marking<Shared>, key: NodeKey },
    /// The new node, or `None` where the compare-and-swap failed.
    Linked { fresh: Option<Shared> },
    /// Whether the compare-and-swap succeeded.
    Marked { done: bool },
    /// Whether the compare-and-swap succeeded.
    Unlinked { done: bool },
}

impl Action {
    /// Whether `event` is of the kind that this access produces.
    pub open spec fn answers(self, event: Event) -> bool {
        match self {
            Action::Load { .. } => event is Loaded,
            Action::Link { .. } => event is Linked,
            Action::Mark { .. } => event is Marked,
            Action::Unlink { .. } => event is Unlinked,
        }
    }
}

} // verus!
