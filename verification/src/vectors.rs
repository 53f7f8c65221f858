//! Ordered sequences: compared as a whole, element by element.

use vstd::prelude::*;
use vstd::std_specs::cmp::PartialEqSpec;
use crate::diffs::AtomicDiff;
use crate::error::ApplyError;
use crate::laws::{clones_same, lawful};
use crate::traits::{Apply, Diffable};

verus! {

impl<'a, T: Clone + PartialEq + 'a> Diffable<'a> for Vec<T> {
    type Diff = AtomicDiff<'a, Vec<T>>;

    /// The same length, and equal elements at every index.
    open spec fn same(&self, other: &Self) -> bool {
        &&& self.len() == other.len()
        &&& forall|i: int| 0 <= i < self.len() ==> (#[trigger] self[i]).eq_spec(&other[i])
    }

    /// Replaced by the target where the lengths differ. Where they agree: unchanged
    /// where the elements are equal at every index, else replaced by the target, as far
    /// as `==` on the elements follows its specification.
    open spec fn diffs(&self, other: &Self, d: Self::Diff) -> bool {
        &&& d matches AtomicDiff::Replaced(t) ==> t == other
        &&& self.len() != other.len() ==> d is Replaced
        &&& T::obeys_eq_spec() ==> (d is Unchanged <==> self.same(other))
    }

    fn diff(&self, other: &'a Self) -> (d: Self::Diff) {
        if self.len() != other.len() {
            return AtomicDiff::Replaced(other);
        }
        let mut i: usize = 0;
        while i < self.len()
            invariant
                i <= self.len(),
                self.len() == other.len(),
                T::obeys_eq_spec() ==> forall|j: int|
                    0 <= j < i ==> (#[trigger] self[j]).eq_spec(&other[j]),
            decreases self.len() - i,
        {
            if self[i] != other[i] {
                return AtomicDiff::Replaced(other);
            }
            i = i + 1;
        }
        AtomicDiff::Unchanged
    }
}

/// Vectors follow the laws where `==` on the elements follows its specification and
/// holds of every element with itself, and a clone of an element is equal to it.
pub proof fn law_vec_lawful<'a, T: Clone + PartialEq + 'a>()
    requires
        T::obeys_eq_spec(),
        forall|x: T| #[trigger] x.eq_spec(&x),
        forall|x: T, y: T| #[trigger] cloned::<T>(x, y) ==> y.eq_spec(&x),
    ensures
        lawful::<Vec<T>>(),
        clones_same::<Vec<T>>(),
{
    assert forall|a: Vec<T>, b: Vec<T>| #[trigger] cloned::<Vec<T>>(a, b) implies b.same(&a) by {
        assert forall|i: int| 0 <= i < b.len() implies (#[trigger] b[i]).eq_spec(&a[i]) by {
            assert(cloned::<T>(a[i], b[i]));
        }
    }
    assert forall|a: Vec<T>, b: Vec<T>, d: <Vec<T> as Diffable<'a>>::Diff, c: Vec<T>, e: Seq<ApplyError>|
        #[trigger] a.diffs(&b, d) && #[trigger] d.applies(a, c, e) implies c.same(&b) && e.len() == 0 by {
        if d is Replaced {
            assert(cloned::<Vec<T>>(b, c));
        }
    }
}

} // verus!
