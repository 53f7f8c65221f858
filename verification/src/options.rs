//! Optional values: absent on one side means replaced; present on both sides means
//! the diff of the two values.

use vstd::prelude::*;
use crate::diffs::DeepDiff;
use crate::error::ApplyError;
use crate::laws::{clones_same, lawful};
use crate::traits::{Apply, Diffable, Replace};

verus! {

impl<'a, T> Diffable<'a> for Option<T> where T: Diffable<'a> + Clone + 'a {
    type Diff = DeepDiff<'a, Self, Option<T::Diff>>;

    /// Both absent, or both present and the same.
    open spec fn same(&self, other: &Self) -> bool {
        match (*self, *other) {
            (None, None) => true,
            (Some(l), Some(r)) => l.same(&r),
            _ => false,
        }
    }

    /// Where both are present, the state of the diff of the two values decides: the
    /// option is unchanged or replaced with it, and else patched by it.
    open spec fn diffs(&self, other: &Self, d: Self::Diff) -> bool {
        match (*self, *other) {
            (None, None) => d is Unchanged,
            (Some(l), Some(r)) => exists|c: T::Diff| #[trigger]
                l.diffs(&r, c) && d == DeepDiff::<Self, Option<T::Diff>>::folded(
                    c.unchanged(),
                    c.replaced(),
                    Some(c),
                    other,
                ),
            _ => d == DeepDiff::<Self, Option<T::Diff>>::Replaced(other),
        }
    }

    fn diff(&self, other: &'a Self) -> (d: Self::Diff) {
        match (self, other) {
            (None, None) => DeepDiff::Unchanged,
            (Some(l), Some(r)) => {
                let diff = l.diff(r);
                let unchanged = diff.is_unchanged();
                let replaced = diff.is_replaced();
                DeepDiff::from_children(unchanged, replaced, Some(diff), other)
            },
            _ => DeepDiff::Replaced(other),
        }
    }
}

impl<T> Apply for Option<T> where T: Apply {
    type Parent = Option<T::Parent>;

    /// A patch for a present value applies to a present value, and an empty patch
    /// leaves an absent value as it is. A patch for the other variant is a mismatch,
    /// which is reported and changes nothing.
    open spec fn applies(
        &self,
        pre: Option<T::Parent>,
        post: Option<T::Parent>,
        errs: Seq<ApplyError>,
    ) -> bool {
        match (*self, pre) {
            (Some(d), Some(src)) => post is Some && d.applies(src, post->0, errs),
            (None, None) => post == pre && errs.len() == 0,
            _ => post == pre && errs == seq![ApplyError::MismatchingEnum],
        }
    }

    fn apply_to_base(&self, source: &mut Option<T::Parent>, errs: &mut Vec<ApplyError>) {
        match (self, source) {
            (Some(diff), Some(src)) => diff.apply_to_base(src, errs),
            (None, None) => {},
            _ => {
                errs.push(ApplyError::MismatchingEnum);
                assert(errs@.skip(old(errs)@.len() as int) =~= seq![ApplyError::MismatchingEnum]);
            },
        }
    }
}

/// An option follows the laws where what it holds does.
pub proof fn law_option_lawful<'a, T: Diffable<'a> + Clone + 'a>()
    requires
        lawful::<T>(),
        clones_same::<T>(),
    ensures
        lawful::<Option<T>>(),
        clones_same::<Option<T>>(),
{
    assert forall|a: Option<T>, b: Option<T>| #[trigger] cloned::<Option<T>>(a, b) implies b.same(
        &a,
    ) by {
        if a is Some {
            assert(cloned::<T>(a->0, b->0));
        }
    }
    assert forall|
        a: Option<T>,
        b: Option<T>,
        d: <Option<T> as Diffable<'a>>::Diff,
        c: Option<T>,
        e: Seq<ApplyError>,
    | #[trigger] a.diffs(&b, d) && #[trigger] d.applies(a, c, e) implies c.same(&b) && e.len()
        == 0 by {
        if d is Replaced {
            assert(cloned::<Option<T>>(b, c));
        }
    }
}

/// Two options of which one holds a value and the other none differ as a whole.
pub proof fn law_option_variants_differ<'a, T: Diffable<'a> + Clone + 'a>(
    a: Option<T>,
    b: Option<T>,
    d: <Option<T> as Diffable<'a>>::Diff,
)
    requires
        a.diffs(&b, d),
        a is Some != b is Some,
    ensures
        d == DeepDiff::<Option<T>, Option<T::Diff>>::Replaced(&b),
{
}

/// A patch for one variant, applied to a value of the other, reports one mismatch and
/// changes nothing.
pub proof fn law_option_patch_mismatch<T: Apply>(
    patch: Option<T>,
    pre: Option<T::Parent>,
    post: Option<T::Parent>,
    errs: Seq<ApplyError>,
)
    requires
        patch.applies(pre, post, errs),
        patch is Some != pre is Some,
    ensures
        post == pre,
        errs == seq![ApplyError::MismatchingEnum],
{
}

} // verus!
