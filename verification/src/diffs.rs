//! The shapes a diff can take.

use vstd::prelude::*;
use crate::error::ApplyError;
use crate::traits::{Apply, Diffable, Replace};

verus! {

/// The diff of a type without parts, which never changes.
#[derive(Debug, Copy, PartialEq, Eq)]
pub struct Id<T>(std::marker::PhantomData<T>);

impl<T> Id<T> {
    /// The diff that says "unchanged" and applies to every value as it is.
    pub fn new() -> (id: Id<T>)
        ensures
            id.unchanged(),
            !id.replaced(),
            forall|v: T| #[trigger] id.applies(v, v, Seq::empty()),
    {
        Id(std::marker::PhantomData)
    }
}

/// There is one `Id` for a type: any two are equal.
pub proof fn law_id_is_unique<T>(a: Id<T>, b: Id<T>)
    ensures
        a == b,
{
}

impl<T: Clone> Clone for Id<T> {
    fn clone(&self) -> (id: Self)
        ensures
            id == *self,
    {
        Id(std::marker::PhantomData)
    }
}

impl<T> Replace for Id<T> {
    type Replaces = T;

    open spec fn unchanged(&self) -> bool {
        true
    }

    open spec fn replaced(&self) -> bool {
        false
    }

    fn is_unchanged(&self) -> (b: bool) {
        true
    }

    fn is_replaced(&self) -> (b: bool) {
        false
    }
}

impl<T> Apply for Id<T> {
    type Parent = T;

    open spec fn applies(&self, pre: T, post: T, errs: Seq<ApplyError>) -> bool {
        post == pre && errs.len() == 0
    }

    fn apply_to_base(&self, source: &mut T, errs: &mut Vec<ApplyError>) {
    }
}

/// The diff of a value that is compared as a whole.
#[derive(Debug, PartialEq)]
pub enum AtomicDiff<'a, T> {
    Unchanged,
    Replaced(&'a T),
}

impl<'a, T: Clone> Clone for AtomicDiff<'a, T> {
    /// A clone of a diff refers to the same target.
    fn clone(&self) -> (d: Self)
        ensures
            d == *self,
    {
        match self {
            AtomicDiff::Unchanged => AtomicDiff::Unchanged,
            AtomicDiff::Replaced(target) => AtomicDiff::Replaced(*target),
        }
    }
}

impl<'a, T> Replace for AtomicDiff<'a, T> {
    type Replaces = T;

    open spec fn unchanged(&self) -> bool {
        self is Unchanged
    }

    open spec fn replaced(&self) -> bool {
        self is Replaced
    }

    fn is_unchanged(&self) -> (b: bool) {
        matches!(self, AtomicDiff::Unchanged)
    }

    fn is_replaced(&self) -> (b: bool) {
        matches!(self, AtomicDiff::Replaced(_))
    }
}

impl<'a, T> Apply for AtomicDiff<'a, T> where T: Clone {
    type Parent = T;

    open spec fn applies(&self, pre: T, post: T, errs: Seq<ApplyError>) -> bool {
        &&& errs.len() == 0
        &&& match self {
            AtomicDiff::Unchanged => post == pre,
            AtomicDiff::Replaced(r) => cloned::<T>(**r, post),
        }
    }

    fn apply_to_base(&self, source: &mut T, errs: &mut Vec<ApplyError>) {
        match self {
            AtomicDiff::Unchanged => {},
            AtomicDiff::Replaced(r) => {
                *source = (*r).clone();
            },
        }
    }
}

/// The diff of a value with parts: unchanged, changed in some parts, or
/// replaced as a whole.
#[derive(Debug, PartialEq)]
pub enum DeepDiff<'a, Full, Patch> {
    Unchanged,
    Patched(Patch),
    Replaced(&'a Full),
}

impl<'a, Full: Clone, Patch: Clone> Clone for DeepDiff<'a, Full, Patch> {
    /// A clone of a diff is in the same state: it refers to the same target, or holds
    /// a clone of the patch.
    fn clone(&self) -> (d: Self)
        ensures
            match *self {
                DeepDiff::Unchanged => d is Unchanged,
                DeepDiff::Patched(patch) => d is Patched && cloned::<Patch>(patch, d->Patched_0),
                DeepDiff::Replaced(target) => d == DeepDiff::<Full, Patch>::Replaced(target),
            },
    {
        match self {
            DeepDiff::Unchanged => DeepDiff::Unchanged,
            DeepDiff::Patched(patch) => DeepDiff::Patched(patch.clone()),
            DeepDiff::Replaced(target) => DeepDiff::Replaced(*target),
        }
    }
}

impl<'a, Full, Patch> DeepDiff<'a, Full, Patch> {
    /// The state of an aggregate, given the states of its children as a
    /// whole: unchanged if every child is unchanged; else replaced by
    /// `target` if every child is replaced; else patched by `patch`, which
    /// holds one entry for each child.
    pub open spec fn folded(
        all_unchanged: bool,
        all_replaced: bool,
        patch: Patch,
        target: &'a Full,
    ) -> Self {
        if all_unchanged {
            DeepDiff::Unchanged
        } else if all_replaced {
            DeepDiff::Replaced(target)
        } else {
            DeepDiff::Patched(patch)
        }
    }

    /// Folds the states of the children of an aggregate into the state of
    /// the aggregate. An aggregate without children is unchanged.
    pub fn from_children(
        all_unchanged: bool,
        all_replaced: bool,
        patch: Patch,
        target: &'a Full,
    ) -> (d: Self)
        ensures
            d == Self::folded(all_unchanged, all_replaced, patch, target),
            all_unchanged ==> d is Unchanged,
            !all_unchanged && all_replaced ==> d is Replaced && d->Replaced_0 == target,
            !all_unchanged && !all_replaced ==> d is Patched && d->Patched_0 == patch,
    {
        if all_unchanged {
            DeepDiff::Unchanged
        } else if all_replaced {
            DeepDiff::Replaced(target)
        } else {
            DeepDiff::Patched(patch)
        }
    }
}

/// Replacement collapse: where every child of an aggregate is replaced, and so not
/// every child unchanged, the aggregate is replaced by its target as a whole and no
/// patch is kept. `children` stands for the diffs of the children, such as a
/// tuple of them.
pub proof fn law_replacement_collapse<'a, Full, Patch, C: Replace>(
    children: C,
    patch: Patch,
    target: &'a Full,
)
    requires
        children.replaced(),
        !children.unchanged(),
    ensures
        DeepDiff::folded(children.unchanged(), children.replaced(), patch, target)
            == DeepDiff::<Full, Patch>::Replaced(target),
{
}

impl<'a, T, U> Replace for DeepDiff<'a, T, U> {
    type Replaces = T;

    open spec fn unchanged(&self) -> bool {
        self is Unchanged
    }

    open spec fn replaced(&self) -> bool {
        self is Replaced
    }

    fn is_unchanged(&self) -> (b: bool) {
        matches!(self, DeepDiff::Unchanged)
    }

    fn is_replaced(&self) -> (b: bool) {
        matches!(self, DeepDiff::Replaced(_))
    }
}

impl<'a, T, U> Apply for DeepDiff<'a, T, U> where T: Diffable<'a> + Clone, U: Apply<Parent = T> {
    type Parent = T;

    open spec fn applies(&self, pre: T, post: T, errs: Seq<ApplyError>) -> bool {
        match self {
            DeepDiff::Unchanged => post == pre && errs.len() == 0,
            DeepDiff::Patched(patch) => patch.applies(pre, post, errs),
            DeepDiff::Replaced(r) => cloned::<T>(**r, post) && errs.len() == 0,
        }
    }

    fn apply_to_base(&self, source: &mut T, errs: &mut Vec<ApplyError>) {
        match self {
            DeepDiff::Unchanged => {},
            DeepDiff::Patched(patch) => patch.apply_to_base(source, errs),
            DeepDiff::Replaced(r) => {
                *source = (*r).clone();
            },
        }
    }
}

/// What a map patch says of one key.
#[derive(Debug, PartialEq)]
pub enum KvDiff<'a, T: Diffable<'a>> {
    /// The base holds the key, the target does not.
    Removed,
    /// The target holds the key with this value, the base does not.
    Inserted(&'a T),
    /// Both hold the key, and their values differ by this diff.
    Diff(T::Diff),
}

impl<'a, T: Diffable<'a> + Clone> Clone for KvDiff<'a, T> where T::Diff: Clone {
    /// A clone of an entry is an entry of the same kind: it refers to the same value,
    /// or holds a clone of the diff.
    fn clone(&self) -> (e: Self)
        ensures
            match *self {
                KvDiff::Removed => e is Removed,
                KvDiff::Inserted(value) => e == KvDiff::<T>::Inserted(value),
                KvDiff::Diff(diff) => e is Diff && cloned::<T::Diff>(diff, e->Diff_0),
            },
    {
        match self {
            KvDiff::Removed => KvDiff::Removed,
            KvDiff::Inserted(value) => KvDiff::Inserted(*value),
            KvDiff::Diff(diff) => KvDiff::Diff(diff.clone()),
        }
    }
}

} // verus!
