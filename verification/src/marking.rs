//! A value tagged with a logical-deletion flag.

use vstd::prelude::*;

verus! {

/// A value together with its mark. `Marked` means logically deleted,
/// `Unmarked` means live. Value and mark are read and replaced as one unit.
#[derive(PartialEq, Eq, Structural, Debug)]
pub enum Marking<T> {
    Marked(T),
    Unmarked(T),
}

impl<T: Copy> Clone for Marking<T> {
    fn clone(&self) -> (r: Self)
        ensures
            r == *self,
    {
        *self
    }
}

impl<T: Copy> Copy for Marking<T> {

}

impl<T> Marking<T> {
    /// The tagged value, whatever the mark.
    pub open spec fn inner(self) -> T {
        match self {
            Marking::Marked(value) => value,
            Marking::Unmarked(value) => value,
        }
    }

    /// Whether the mark is set.
    pub open spec fn marked(self) -> bool {
        self is Marked
    }

    /// Reports whether the mark is set.
    pub fn is_marked(&self) -> (r: bool)
        ensures
            r == self.marked(),
    {
        match self {
            Marking::Marked(_) => true,
            Marking::Unmarked(_) => false,
        }
    }

    /// The same value with the mark set.
    pub fn mark(self) -> (r: Self)
        ensures
            r == Marking::Marked(self.inner()),
    {
        match self {
            Marking::Marked(value) => Marking::Marked(value),
            Marking::Unmarked(value) => Marking::Marked(value),
        }
    }

    /// The same value with the mark cleared.
    pub fn unmark(self) -> (r: Self)
        ensures
            r == Marking::Unmarked(self.inner()),
    {
        match self {
            Marking::Marked(value) => Marking::Unmarked(value),
            Marking::Unmarked(value) => Marking::Unmarked(value),
        }
    }

    /// Borrows the tagged value.
    pub fn deref(&self) -> (r: &T)
        ensures
            *r == self.inner(),
    {
        match self {
            Marking::Marked(value) => value,
            Marking::Unmarked(value) => value,
        }
    }
}

} // verus!
