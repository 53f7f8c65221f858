//! What holds of every lawful diffable type.
//!
//! The laws cannot be proved of a type that the library does not know. They are
//! stated as a predicate on the type, and proved where the type is defined: of
//! numbers and text directly, of a container from the laws of what it holds.

use vstd::prelude::*;
use crate::error::ApplyError;
use crate::traits::{applied, Apply, Diffable, Replace};

verus! {

/// The laws of a diffable type: every value is the same as itself; the diff of a
/// value against itself is unchanged and not replaced; where a diff is unchanged, base
/// and target are the same; and applying a diff to its base yields the same as its
/// target, without an error.
pub open spec fn lawful<'a, T: Diffable<'a>>() -> bool {
    &&& forall|a: T| #[trigger] a.same(&a)
    &&& forall|a: T, d: T::Diff| #[trigger] a.diffs(&a, d) ==> d.unchanged() && !d.replaced()
    &&& forall|a: T, b: T, d: T::Diff| #[trigger] a.diffs(&b, d) && d.unchanged() ==> a.same(&b)
    &&& forall|a: T, b: T, d: T::Diff, c: T, e: Seq<ApplyError>|
        #[trigger] a.diffs(&b, d) && #[trigger] d.applies(a, c, e) ==> c.same(&b) && e.len() == 0
}

/// A clone of a value is the value itself.
pub open spec fn clones_exactly<T: Clone>() -> bool {
    forall|a: T, b: T| #[trigger] cloned::<T>(a, b) ==> a == b
}

/// A clone of a value is the same as the value.
pub open spec fn clones_same<'a, T: Diffable<'a> + Clone>() -> bool {
    forall|a: T, b: T| #[trigger] cloned::<T>(a, b) ==> b.same(&a)
}

/// Diffing a value against itself reports no change: the diff is unchanged, and it is
/// not a replacement.
pub proof fn law_diff_of_self<'a, T: Diffable<'a>>(v: T, d: T::Diff)
    requires
        lawful::<T>(),
        v.diffs(&v, d),
    ensures
        d.unchanged(),
        !d.replaced(),
{
}

/// Applying the diff from `a` to `b` to `a` leaves a value that is the same as `b`,
/// and reports no error.
pub proof fn law_round_trip<'a, T: Diffable<'a>>(
    a: T,
    b: T,
    d: T::Diff,
    after: T,
    errs: Seq<ApplyError>,
)
    requires
        lawful::<T>(),
        a.diffs(&b, d),
        d.applies(a, after, errs),
    ensures
        after.same(&b),
        errs.len() == 0,
{
}

/// `apply` of the diff from `a` to `b` on `a` ends with `Ok` and leaves a value that
/// is the same as `b`.
pub proof fn law_apply_succeeds<'a, T: Diffable<'a>>(
    a: T,
    b: T,
    d: T::Diff,
    after: T,
    r: Result<(), Vec<ApplyError>>,
)
    requires
        lawful::<T>(),
        a.diffs(&b, d),
        applied(d, a, after, r),
    ensures
        r is Ok,
        after.same(&b),
{
}

} // verus!
