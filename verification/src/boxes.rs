//! Boxed values: the box is transparent, its diff is the boxed diff of the contents.

use vstd::prelude::*;
use crate::error::ApplyError;
use crate::laws::{clones_same, lawful};
use crate::traits::{Apply, Diffable, Replace};

verus! {

impl<'a, T> Diffable<'a> for Box<T> where T: Diffable<'a> {
    type Diff = Box<T::Diff>;

    open spec fn same(&self, other: &Self) -> bool {
        (**self).same(&**other)
    }

    open spec fn diffs(&self, other: &Self, d: Self::Diff) -> bool {
        (**self).diffs(&**other, *d)
    }

    fn diff(&self, other: &'a Self) -> (d: Self::Diff) {
        Box::new((**self).diff(&**other))
    }
}

impl<T> Replace for Box<T> where T: Replace {
    type Replaces = Box<T::Replaces>;

    open spec fn unchanged(&self) -> bool {
        (**self).unchanged()
    }

    open spec fn replaced(&self) -> bool {
        (**self).replaced()
    }

    fn is_unchanged(&self) -> (b: bool) {
        (**self).is_unchanged()
    }

    fn is_replaced(&self) -> (b: bool) {
        (**self).is_replaced()
    }
}

impl<T> Apply for Box<T> where T: Apply {
    type Parent = Box<T::Parent>;

    open spec fn applies(
        &self,
        pre: Box<T::Parent>,
        post: Box<T::Parent>,
        errs: Seq<ApplyError>,
    ) -> bool {
        (**self).applies(*pre, *post, errs)
    }

    fn apply_to_base(&self, source: &mut Box<T::Parent>, errs: &mut Vec<ApplyError>) {
        (**self).apply_to_base(&mut **source, errs)
    }
}

/// A box follows the laws where what it holds does.
pub proof fn law_box_lawful<'a, T: Diffable<'a>>()
    requires
        lawful::<T>(),
    ensures
        lawful::<Box<T>>(),
{
    assert forall|a: Box<T>, d: <Box<T> as Diffable<'a>>::Diff| #[trigger]
        a.diffs(&a, d) implies d.unchanged() by {
        assert((*a).diffs(&*a, *d));
    }
    assert forall|a: Box<T>, b: Box<T>, d: <Box<T> as Diffable<'a>>::Diff| #[trigger]
        a.diffs(&b, d) && d.unchanged() implies a.same(&b) by {
        assert((*a).diffs(&*b, *d));
    }
    assert forall|
        a: Box<T>,
        b: Box<T>,
        d: <Box<T> as Diffable<'a>>::Diff,
        c: Box<T>,
        e: Seq<ApplyError>,
    | #[trigger] a.diffs(&b, d) && #[trigger] d.applies(a, c, e) implies c.same(&b) && e.len()
        == 0 by {
        assert((*a).diffs(&*b, *d) && (*d).applies(*a, *c, e));
    }
}

/// A clone of a box is the same where a clone of what it holds is.
pub proof fn law_box_clones_same<'a, T: Diffable<'a> + Clone>()
    requires
        clones_same::<T>(),
    ensures
        clones_same::<Box<T>>(),
{
    assert forall|a: Box<T>, b: Box<T>| #[trigger] cloned::<Box<T>>(a, b) implies b.same(&a) by {
        assert(cloned::<T>(*a, *b));
    }
}

} // verus!
