//! The errors that applying a patch can report.

use vstd::prelude::*;

verus! {

/// A mismatch between a patch and the value it is applied to.
#[derive(Debug, Clone, Copy, PartialEq, Eq, PartialOrd, Ord, Structural)]
pub enum ApplyError {
    /// The patch is for another variant than the one the value holds.
    MismatchingEnum,
    /// The patch removes or changes a key that the map does not hold.
    MissingKey,
    /// The patch inserts a key that the map already holds.
    UnexpectedKey,
}

impl ApplyError {
    /// The text that describes the error.
    pub open spec fn text(self) -> Seq<char> {
        match self {
            ApplyError::MismatchingEnum => "enum mismatch"@,
            ApplyError::MissingKey => "missing key"@,
            ApplyError::UnexpectedKey => "unexpected key"@,
        }
    }

    /// The error as a line of text for a report.
    pub fn message(&self) -> (s: String)
        ensures
            s@ == self.text(),
    {
        match self {
            ApplyError::MismatchingEnum => "enum mismatch".to_owned(),
            ApplyError::MissingKey => "missing key".to_owned(),
            ApplyError::UnexpectedKey => "unexpected key".to_owned(),
        }
    }
}

/// The errors of several steps, in the order of the steps.
pub open spec fn joined(parts: Seq<Seq<ApplyError>>) -> Seq<ApplyError>
    decreases parts.len(),
{
    if parts.len() == 0 {
        Seq::empty()
    } else {
        joined(parts.drop_last()) + parts.last()
    }
}

/// One more step adds its errors at the end.
pub proof fn lemma_joined_push(parts: Seq<Seq<ApplyError>>, last: Seq<ApplyError>)
    ensures
        joined(parts.push(last)) == joined(parts) + last,
{
    assert(parts.push(last).drop_last() =~= parts);
}

/// Steps that report nothing report nothing together.
pub proof fn lemma_joined_silent(parts: Seq<Seq<ApplyError>>)
    requires
        forall|i: int| 0 <= i < parts.len() ==> (#[trigger] parts[i]).len() == 0,
    ensures
        joined(parts).len() == 0,
    decreases parts.len(),
{
    if parts.len() > 0 {
        lemma_joined_silent(parts.drop_last());
    }
}

/// A log that held the errors of some steps holds, after one more step, the errors of
/// that step too.
pub proof fn lemma_log_step(
    start: Seq<ApplyError>,
    parts: Seq<Seq<ApplyError>>,
    log: Seq<ApplyError>,
    now: Seq<ApplyError>,
)
    requires
        log == start + joined(parts),
        log.is_prefix_of(now),
    ensures
        now == start + joined(parts.push(now.skip(log.len() as int))),
        start.is_prefix_of(now),
        now.skip(start.len() as int) == joined(parts.push(now.skip(log.len() as int))),
{
    let e = now.skip(log.len() as int);
    lemma_joined_push(parts, e);
    assert(now =~= log + e);
    assert(now =~= start + joined(parts.push(e)));
    assert(now.skip(start.len() as int) =~= joined(parts.push(e)));
}

/// Every error of every step is among the errors of all steps.
pub proof fn lemma_joined_holds(parts: Seq<Seq<ApplyError>>, i: int, j: int)
    requires
        0 <= i < parts.len(),
        0 <= j < parts[i].len(),
    ensures
        joined(parts).contains(parts[i][j]),
    decreases parts.len(),
{
    let front = joined(parts.drop_last());
    if i == parts.len() - 1 {
        assert(joined(parts)[front.len() + j] == parts[i][j]);
    } else {
        lemma_joined_holds(parts.drop_last(), i, j);
        let x = choose|x: int| 0 <= x < front.len() && front[x] == parts[i][j];
        assert(joined(parts)[x] == parts[i][j]);
    }
}

} // verus!
