//! The three traits that every diffable type and every diff meets.

use vstd::prelude::*;
use crate::error::ApplyError;

verus! {

/// A diff that can tell whether it stands for "nothing changed" or for
/// "take the whole target".
pub trait Replace {
    type Replaces;

    /// The diff says that base and target are equal.
    spec fn unchanged(&self) -> bool;

    /// The diff says that the base is to be replaced by the target as a whole.
    spec fn replaced(&self) -> bool;

    fn is_unchanged(&self) -> (b: bool)
        ensures
            b == self.unchanged(),
    ;

    fn is_replaced(&self) -> (b: bool)
        ensures
            b == self.replaced(),
    ;
}

/// A diff or patch that can be applied to a value of type `Parent`.
pub trait Apply {
    type Parent;

    /// Applying `self` to `pre` may leave `post` and report `errs`, in this order.
    ///
    /// A type that does not define the relation promises nothing about its patches.
    open spec fn applies(&self, pre: Self::Parent, post: Self::Parent, errs: Seq<ApplyError>) -> bool {
        true
    }

    /// Applies `self` to `source` in place. Every mismatch is pushed to
    /// `errs`, and the traversal goes on after it.
    fn apply_to_base(&self, source: &mut Self::Parent, errs: &mut Vec<ApplyError>)
        ensures
            old(errs)@.is_prefix_of(final(errs)@),
            self.applies(*old(source), *final(source), final(errs)@.skip(old(errs)@.len() as int)),
    ;
}

/// Applying `diff` to `pre` left `post` and ended with `r`: `Ok` where the traversal
/// reported no error, else all the errors that it reported, in their order.
pub open spec fn applied<D: Apply>(
    diff: D,
    pre: D::Parent,
    post: D::Parent,
    r: Result<(), Vec<ApplyError>>,
) -> bool {
    match r {
        Ok(_) => diff.applies(pre, post, Seq::empty()),
        Err(e) => e@.len() > 0 && diff.applies(pre, post, e@),
    }
}

/// A type whose values can be compared structurally and patched in place.
pub trait Diffable<'a>: Sized {
    type Diff: Replace<Replaces = Self> + Apply<Parent = Self>;

    /// The two values are equal as far as diffing can tell.
    open spec fn same(&self, other: &Self) -> bool {
        self == other
    }

    /// `d` is a correct diff from `self` to `other`.
    ///
    /// A type that does not define the relation promises nothing about its diffs.
    open spec fn diffs(&self, other: &Self, d: Self::Diff) -> bool {
        true
    }

    /// Compares `self`, the base, with `other`, the target.
    fn diff(&self, other: &'a Self) -> (d: Self::Diff)
        ensures
            self.diffs(other, d),
    ;

    /// Applies `diff` to `self` and returns every error that the traversal met:
    /// `Ok` where it met none.
    fn apply(&mut self, diff: Self::Diff) -> (r: Result<(), Vec<ApplyError>>)
        ensures
            applied(diff, *old(self), *final(self), r),
    {
        let mut errs = Vec::new();
        diff.apply_to_base(self, &mut errs);
        assert(errs@.skip(0) =~= errs@);
        if errs.is_empty() {
            assert(errs@ =~= Seq::empty());
            Ok(())
        } else {
            Err(errs)
        }
    }
}

} // verus!
