//! Cells that a strip hands out one after the other, against the number of
//! cells that room was made for.

use vstd::prelude::*;

verus! {

/// The direction in which the cells of a strip follow each other.
#[derive(Clone, Copy, Debug, PartialEq, Eq, Structural)]
pub enum CellDirection {
    /// Cells go from left to right.
    Horizontal,
    /// Cells go from top to bottom.
    Vertical,
}

/// Which of the sizes that a strip was given the next cell takes.
///
/// A strip is given one size per cell before the cells are added. Each cell
/// takes the next size; a cell beyond the last size gets none.
#[derive(Clone, Copy, Debug, PartialEq, Eq, Structural)]
pub struct CellCursor {
    count: usize,
    taken: usize,
}

impl CellCursor {
    /// The number of sizes that the strip was given.
    pub closed spec fn count(self) -> nat {
        self.count as nat
    }

    /// The number of sizes that cells have taken.
    pub closed spec fn taken(self) -> nat {
        self.taken as nat
    }

    #[verifier::type_invariant]
    spec fn within_count(self) -> bool {
        self.taken <= self.count
    }

    /// A cursor before the first of `count` sizes.
    pub fn new(count: usize) -> (cursor: Self)
        ensures
            cursor.count() == count,
            cursor.taken() == 0,
    {
        CellCursor { count, taken: 0 }
    }

    /// The index of the size that the next cell takes, counted from zero;
    /// `None` once every size is taken, which leaves the cursor as it is.
    pub fn take(&mut self) -> (index: Option<usize>)
        ensures
            final(self).count() == old(self).count(),
            final(self).taken() <= final(self).count(),
            old(self).taken() < old(self).count() ==> index == Some(old(self).taken() as usize)
                && final(self).taken() == old(self).taken() + 1,
            old(self).taken() >= old(self).count() ==> index is None && *final(self) == *old(
                self,
            ),
    {
        proof {
            use_type_invariant(&*self);
        }
        if self.taken < self.count {
            let index = self.taken;
            self.taken = self.taken + 1;
            Some(index)
        } else {
            None
        }
    }

    /// The number of sizes that cells have taken so far.
    pub fn position(&self) -> (taken: usize)
        ensures
            taken == self.taken(),
            taken <= self.count(),
    {
        proof {
            use_type_invariant(self);
        }
        self.taken
    }

    /// The number of sizes that no cell has taken yet: so many empty cells
    /// fill the strip up.
    pub fn remaining(&self) -> (left: usize)
        ensures
            left == self.count() - self.taken(),
    {
        proof {
            use_type_invariant(self);
        }
        self.count - self.taken
    }
}

} // verus!
