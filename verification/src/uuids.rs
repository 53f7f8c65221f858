//! Universally unique identifiers: compared as a whole.

use vstd::prelude::*;
use crate::diffs::AtomicDiff;
use crate::laws::{clones_exactly, clones_same, lawful};
use crate::traits::Diffable;

verus! {

/// `uuid::Uuid`: a value of sixteen bytes, of which nothing is read here.
#[verifier::external_type_specification]
#[verifier::external_body]
pub struct ExUuid(uuid::Uuid);

/// `Uuid`'s `==`, which `uuid` derives over the sixteen bytes that make up an
/// identifier: two identifiers are equal where they are the same value.
#[verifier::external_body]
fn uuid_eq(a: &uuid::Uuid, b: &uuid::Uuid) -> (r: bool)
    ensures
        r == (*a == *b),
{
    a == b
}

/// `Uuid`'s `clone`, which `uuid` derives beside `Copy` for its sixteen bytes: a clone
/// of an identifier is that identifier.
pub assume_specification[ <uuid::Uuid as Clone>::clone ](id: &uuid::Uuid) -> (r: uuid::Uuid)
    ensures
        r == *id,
;

impl<'a> Diffable<'a> for uuid::Uuid {
    type Diff = AtomicDiff<'a, Self>;

    open spec fn diffs(&self, other: &Self, d: Self::Diff) -> bool {
        d == if *self == *other {
            AtomicDiff::Unchanged
        } else {
            AtomicDiff::Replaced(other)
        }
    }

    fn diff(&self, other: &'a Self) -> (d: Self::Diff) {
        if uuid_eq(self, other) {
            AtomicDiff::Unchanged
        } else {
            AtomicDiff::Replaced(other)
        }
    }
}

/// Identifiers follow the laws, and a clone of an identifier is that identifier.
pub proof fn law_uuid_lawful<'a>()
    ensures
        lawful::<uuid::Uuid>(),
        clones_same::<uuid::Uuid>(),
        clones_exactly::<uuid::Uuid>(),
{
}

} // verus!
