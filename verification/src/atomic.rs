//! The atomically replaceable link cell of a node.

use vstd::prelude::*;
use crate::marking::Marking;
use crate::shared::Shared;

verus! {

/// What a failed `compare_exchange` reports: the value that the cell held
/// and the value that was not stored.
#[derive(Clone, Copy, Debug)]
pub struct CompareExchangeError {
    pub current: Marking<Shared>,
    pub new: Marking<Shared>,
}

/// A cell that holds a reference and the mark of the node owning the cell.
/// Every method is one atomic access: reference and mark never change apart.
#[derive(Clone, Copy, Debug)]
pub struct Atomic {
    value: Marking<Shared>,
}

impl View for Atomic {
    type V = Marking<Shared>;

    closed spec fn view(&self) -> Marking<Shared> {
        self.value
    }
}

impl Atomic {
    /// A cell holding the unmarked null reference.
    pub fn null() -> (r: Atomic)
        ensures
            r@ == Marking::Unmarked(Shared { addr: crate::shared::NULL_ADDR }),
    {
        Atomic { value: Marking::Unmarked(Shared::null()) }
    }

    /// A cell holding `shared`, unmarked.
    pub fn from(shared: Shared) -> (r: Atomic)
        ensures
            r@ == Marking::Unmarked(shared),
    {
        Atomic { value: Marking::Unmarked(shared) }
    }

    /// Reads the cell.
    pub fn load(&self) -> (r: Marking<Shared>)
        ensures
            r == self@,
    {
        self.value
    }

    /// Overwrites the cell.
    pub fn store(&mut self, new: Marking<Shared>)
        ensures
            final(self)@ == new,
    {
        self.value = new;
    }

    /// Overwrites the cell and returns what it held.
    pub fn swap(&mut self, new: Marking<Shared>) -> (r: Marking<Shared>)
        ensures
            r == old(self)@,
            final(self)@ == new,
    {
        let previous = self.value;
        self.value = new;
        previous
    }

    /// Stores `new` if the cell holds exactly `current`, reference and mark.
    /// On success returns the replaced value; otherwise leaves the cell as it
    /// is and reports what it holds. Never retries.
    pub fn compare_exchange(&mut self, current: Marking<Shared>, new: Marking<Shared>) -> (r:
        Result<Marking<Shared>, CompareExchangeError>)
        ensures
            old(self)@ == current ==> r == Ok::<Marking<Shared>, CompareExchangeError>(current)
                && final(self)@ == new,
            old(self)@ != current ==> r == Err::<Marking<Shared>, CompareExchangeError>(
                CompareExchangeError { current: old(self)@, new },
            ) && final(self)@ == old(self)@,
    {
        let held = self.value;
        if held == current {
            self.value = new;
            Ok(held)
        } else {
            Err(CompareExchangeError { current: held, new })
        }
    }
}

} // verus!
