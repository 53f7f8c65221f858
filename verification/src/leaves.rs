//! Values without parts: numbers, booleans and text. A changed value is replaced
//! as a whole.

use vstd::prelude::*;
use crate::diffs::{AtomicDiff, Id};
use crate::laws::{clones_same, lawful};
use crate::traits::{Diffable, Replace};

verus! {

impl<'a> Diffable<'a> for i8 {
    type Diff = AtomicDiff<'a, Self>;

    open spec fn diffs(&self, other: &Self, d: Self::Diff) -> bool {
        d == if *self == *other {
            AtomicDiff::Unchanged
        } else {
            AtomicDiff::Replaced(other)
        }
    }

    fn diff(&self, other: &'a Self) -> (d: Self::Diff) {
        if *self == *other {
            AtomicDiff::Unchanged
        } else {
            AtomicDiff::Replaced(other)
        }
    }
}

impl<'a> Diffable<'a> for i16 {
    type Diff = AtomicDiff<'a, Self>;

    open spec fn diffs(&self, other: &Self, d: Self::Diff) -> bool {
        d == if *self == *other {
            AtomicDiff::Unchanged
        } else {
            AtomicDiff::Replaced(other)
        }
    }

    fn diff(&self, other: &'a Self) -> (d: Self::Diff) {
        if *self == *other {
            AtomicDiff::Unchanged
        } else {
            AtomicDiff::Replaced(other)
        }
    }
}

impl<'a> Diffable<'a> for i32 {
    type Diff = AtomicDiff<'a, Self>;

    open spec fn diffs(&self, other: &Self, d: Self::Diff) -> bool {
        d == if *self == *other {
            AtomicDiff::Unchanged
        } else {
            AtomicDiff::Replaced(other)
        }
    }

    fn diff(&self, other: &'a Self) -> (d: Self::Diff) {
        if *self == *other {
            AtomicDiff::Unchanged
        } else {
            AtomicDiff::Replaced(other)
        }
    }
}

impl<'a> Diffable<'a> for i64 {
    type Diff = AtomicDiff<'a, Self>;

    open spec fn diffs(&self, other: &Self, d: Self::Diff) -> bool {
        d == if *self == *other {
            AtomicDiff::Unchanged
        } else {
            AtomicDiff::Replaced(other)
        }
    }

    fn diff(&self, other: &'a Self) -> (d: Self::Diff) {
        if *self == *other {
            AtomicDiff::Unchanged
        } else {
            AtomicDiff::Replaced(other)
        }
    }
}

impl<'a> Diffable<'a> for u8 {
    type Diff = AtomicDiff<'a, Self>;

    open spec fn diffs(&self, other: &Self, d: Self::Diff) -> bool {
        d == if *self == *other {
            AtomicDiff::Unchanged
        } else {
            AtomicDiff::Replaced(other)
        }
    }

    fn diff(&self, other: &'a Self) -> (d: Self::Diff) {
        if *self == *other {
            AtomicDiff::Unchanged
        } else {
            AtomicDiff::Replaced(other)
        }
    }
}

impl<'a> Diffable<'a> for u16 {
    type Diff = AtomicDiff<'a, Self>;

    open spec fn diffs(&self, other: &Self, d: Self::Diff) -> bool {
        d == if *self == *other {
            AtomicDiff::Unchanged
        } else {
            AtomicDiff::Replaced(other)
        }
    }

    fn diff(&self, other: &'a Self) -> (d: Self::Diff) {
        if *self == *other {
            AtomicDiff::Unchanged
        } else {
            AtomicDiff::Replaced(other)
        }
    }
}

impl<'a> Diffable<'a> for u32 {
    type Diff = AtomicDiff<'a, Self>;

    open spec fn diffs(&self, other: &Self, d: Self::Diff) -> bool {
        d == if *self == *other {
            AtomicDiff::Unchanged
        } else {
            AtomicDiff::Replaced(other)
        }
    }

    fn diff(&self, other: &'a Self) -> (d: Self::Diff) {
        if *self == *other {
            AtomicDiff::Unchanged
        } else {
            AtomicDiff::Replaced(other)
        }
    }
}

impl<'a> Diffable<'a> for u64 {
    type Diff = AtomicDiff<'a, Self>;

    open spec fn diffs(&self, other: &Self, d: Self::Diff) -> bool {
        d == if *self == *other {
            AtomicDiff::Unchanged
        } else {
            AtomicDiff::Replaced(other)
        }
    }

    fn diff(&self, other: &'a Self) -> (d: Self::Diff) {
        if *self == *other {
            AtomicDiff::Unchanged
        } else {
            AtomicDiff::Replaced(other)
        }
    }
}

impl<'a> Diffable<'a> for bool {
    type Diff = AtomicDiff<'a, Self>;

    open spec fn diffs(&self, other: &Self, d: Self::Diff) -> bool {
        d == if *self == *other {
            AtomicDiff::Unchanged
        } else {
            AtomicDiff::Replaced(other)
        }
    }

    fn diff(&self, other: &'a Self) -> (d: Self::Diff) {
        if *self == *other {
            AtomicDiff::Unchanged
        } else {
            AtomicDiff::Replaced(other)
        }
    }
}

/// `str`'s `==`: two string slices are equal where they hold the same characters.
#[verifier::external_body]
fn str_eq(a: &str, b: &str) -> (r: bool)
    ensures
        r == (a@ == b@),
{
    a == b
}

impl<'a> Diffable<'a> for &'static str {
    type Diff = AtomicDiff<'a, Self>;

    /// The same characters.
    open spec fn same(&self, other: &Self) -> bool {
        self@ == other@
    }

    open spec fn diffs(&self, other: &Self, d: Self::Diff) -> bool {
        d == if self@ == other@ {
            AtomicDiff::Unchanged
        } else {
            AtomicDiff::Replaced(other)
        }
    }

    fn diff(&self, other: &'a Self) -> (d: Self::Diff) {
        if str_eq(*self, *other) {
            AtomicDiff::Unchanged
        } else {
            AtomicDiff::Replaced(other)
        }
    }
}

impl<'a> Diffable<'a> for String {
    type Diff = AtomicDiff<'a, Self>;

    /// The same characters.
    open spec fn same(&self, other: &Self) -> bool {
        self@ == other@
    }

    open spec fn diffs(&self, other: &Self, d: Self::Diff) -> bool {
        d == if self@ == other@ {
            AtomicDiff::Unchanged
        } else {
            AtomicDiff::Replaced(other)
        }
    }

    fn diff(&self, other: &'a Self) -> (d: Self::Diff) {
        if *self == *other {
            AtomicDiff::Unchanged
        } else {
            AtomicDiff::Replaced(other)
        }
    }
}

impl<'a> Diffable<'a> for () {
    type Diff = Id<Self>;

    fn diff(&self, _other: &Self) -> (d: Self::Diff)
        ensures
            d.unchanged(),
    {
        Id::new()
    }
}

/// Numbers, booleans, text and the unit type follow the laws, and a clone of any of
/// them is the same as it.
pub proof fn law_leaves_lawful<'a>()
    ensures
        lawful::<i8>() && clones_same::<i8>(),
        lawful::<i16>() && clones_same::<i16>(),
        lawful::<i32>() && clones_same::<i32>(),
        lawful::<i64>() && clones_same::<i64>(),
        lawful::<u8>() && clones_same::<u8>(),
        lawful::<u16>() && clones_same::<u16>(),
        lawful::<u32>() && clones_same::<u32>(),
        lawful::<u64>() && clones_same::<u64>(),
        lawful::<bool>() && clones_same::<bool>(),
        lawful::<&'static str>() && clones_same::<&'static str>(),
        lawful::<String>() && clones_same::<String>(),
        lawful::<()>(),
{
}

} // verus!
