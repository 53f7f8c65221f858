//! Tuples: one diff for each position, applied in the order of the positions.

use vstd::prelude::*;
use crate::error::{joined, lemma_joined_silent, lemma_log_step, ApplyError};
use crate::laws::lawful;
use crate::traits::{Apply, Diffable, Replace};

verus! {

impl<'a, A, B, C, D, E, F, G, H, I> Diffable<'a> for (A, B, C, D, E, F, G, H, I) where A: Diffable<'a>, B: Diffable<'a>, C: Diffable<'a>, D: Diffable<'a>, E: Diffable<'a>, F: Diffable<'a>, G: Diffable<'a>, H: Diffable<'a>, I: Diffable<'a> {
    type Diff = (A::Diff, B::Diff, C::Diff, D::Diff, E::Diff, F::Diff, G::Diff, H::Diff, I::Diff);

    /// The same at every position.
    open spec fn same(&self, other: &Self) -> bool {
        &&& self.0.same(&other.0)
        &&& self.1.same(&other.1)
        &&& self.2.same(&other.2)
        &&& self.3.same(&other.3)
        &&& self.4.same(&other.4)
        &&& self.5.same(&other.5)
        &&& self.6.same(&other.6)
        &&& self.7.same(&other.7)
        &&& self.8.same(&other.8)
    }

    /// A correct diff at every position.
    open spec fn diffs(&self, other: &Self, d: Self::Diff) -> bool {
        &&& self.0.diffs(&other.0, d.0)
        &&& self.1.diffs(&other.1, d.1)
        &&& self.2.diffs(&other.2, d.2)
        &&& self.3.diffs(&other.3, d.3)
        &&& self.4.diffs(&other.4, d.4)
        &&& self.5.diffs(&other.5, d.5)
        &&& self.6.diffs(&other.6, d.6)
        &&& self.7.diffs(&other.7, d.7)
        &&& self.8.diffs(&other.8, d.8)
    }

    fn diff(&self, other: &'a Self) -> (d: Self::Diff) {
        (
            self.0.diff(&other.0),
            self.1.diff(&other.1),
            self.2.diff(&other.2),
            self.3.diff(&other.3),
            self.4.diff(&other.4),
            self.5.diff(&other.5),
            self.6.diff(&other.6),
            self.7.diff(&other.7),
            self.8.diff(&other.8),
        )
    }
}

impl<A, B, C, D, E, F, G, H, I> Replace for (A, B, C, D, E, F, G, H, I) where A: Replace, B: Replace, C: Replace, D: Replace, E: Replace, F: Replace, G: Replace, H: Replace, I: Replace {
    type Replaces = (A::Replaces, B::Replaces, C::Replaces, D::Replaces, E::Replaces, F::Replaces, G::Replaces, H::Replaces, I::Replaces);

    /// Unchanged at every position.
    open spec fn unchanged(&self) -> bool {
        &&& self.0.unchanged()
        &&& self.1.unchanged()
        &&& self.2.unchanged()
        &&& self.3.unchanged()
        &&& self.4.unchanged()
        &&& self.5.unchanged()
        &&& self.6.unchanged()
        &&& self.7.unchanged()
        &&& self.8.unchanged()
    }

    /// Replaced at every position.
    open spec fn replaced(&self) -> bool {
        &&& self.0.replaced()
        &&& self.1.replaced()
        &&& self.2.replaced()
        &&& self.3.replaced()
        &&& self.4.replaced()
        &&& self.5.replaced()
        &&& self.6.replaced()
        &&& self.7.replaced()
        &&& self.8.replaced()
    }

    fn is_unchanged(&self) -> (b: bool) {
        self.0.is_unchanged() && self.1.is_unchanged() && self.2.is_unchanged() && self.3.is_unchanged() && self.4.is_unchanged() && self.5.is_unchanged() && self.6.is_unchanged() && self.7.is_unchanged() && self.8.is_unchanged()
    }

    fn is_replaced(&self) -> (b: bool) {
        self.0.is_replaced() && self.1.is_replaced() && self.2.is_replaced() && self.3.is_replaced() && self.4.is_replaced() && self.5.is_replaced() && self.6.is_replaced() && self.7.is_replaced() && self.8.is_replaced()
    }
}

impl<A, B, C, D, E, F, G, H, I> Apply for (A, B, C, D, E, F, G, H, I) where A: Apply, B: Apply, C: Apply, D: Apply, E: Apply, F: Apply, G: Apply, H: Apply, I: Apply {
    type Parent = (A::Parent, B::Parent, C::Parent, D::Parent, E::Parent, F::Parent, G::Parent, H::Parent, I::Parent);

    /// Each position is patched by its own diff, and the errors come position by
    /// position.
    open spec fn applies(&self, pre: Self::Parent, post: Self::Parent, errs: Seq<ApplyError>) -> bool {
        exists|parts: Seq<Seq<ApplyError>>|
            {
                &&& #[trigger] joined(parts) == errs
                &&& parts.len() == 9
                &&& self.0.applies(pre.0, post.0, parts[0])
                &&& self.1.applies(pre.1, post.1, parts[1])
                &&& self.2.applies(pre.2, post.2, parts[2])
                &&& self.3.applies(pre.3, post.3, parts[3])
                &&& self.4.applies(pre.4, post.4, parts[4])
                &&& self.5.applies(pre.5, post.5, parts[5])
                &&& self.6.applies(pre.6, post.6, parts[6])
                &&& self.7.applies(pre.7, post.7, parts[7])
                &&& self.8.applies(pre.8, post.8, parts[8])
            }
    }

    fn apply_to_base(&self, source: &mut Self::Parent, errs: &mut Vec<ApplyError>) {
        let ghost parts0 = Seq::<Seq<ApplyError>>::empty();
        assert(errs@ == old(errs)@ + joined(parts0)) by {
            assert(errs@ =~= old(errs)@ + joined(parts0));
        }
        let ghost log = errs@;
        self.0.apply_to_base(&mut source.0, errs);
        let ghost e0 = errs@.skip(log.len() as int);
        let ghost parts1 = parts0.push(e0);
        proof {
            lemma_log_step(old(errs)@, parts0, log, errs@);
        }
        let ghost log = errs@;
        self.1.apply_to_base(&mut source.1, errs);
        let ghost e1 = errs@.skip(log.len() as int);
        let ghost parts2 = parts1.push(e1);
        proof {
            lemma_log_step(old(errs)@, parts1, log, errs@);
        }
        let ghost log = errs@;
        self.2.apply_to_base(&mut source.2, errs);
        let ghost e2 = errs@.skip(log.len() as int);
        let ghost parts3 = parts2.push(e2);
        proof {
            lemma_log_step(old(errs)@, parts2, log, errs@);
        }
        let ghost log = errs@;
        self.3.apply_to_base(&mut source.3, errs);
        let ghost e3 = errs@.skip(log.len() as int);
        let ghost parts4 = parts3.push(e3);
        proof {
            lemma_log_step(old(errs)@, parts3, log, errs@);
        }
        let ghost log = errs@;
        self.4.apply_to_base(&mut source.4, errs);
        let ghost e4 = errs@.skip(log.len() as int);
        let ghost parts5 = parts4.push(e4);
        proof {
            lemma_log_step(old(errs)@, parts4, log, errs@);
        }
        let ghost log = errs@;
        self.5.apply_to_base(&mut source.5, errs);
        let ghost e5 = errs@.skip(log.len() as int);
        let ghost parts6 = parts5.push(e5);
        proof {
            lemma_log_step(old(errs)@, parts5, log, errs@);
        }
        let ghost log = errs@;
        self.6.apply_to_base(&mut source.6, errs);
        let ghost e6 = errs@.skip(log.len() as int);
        let ghost parts7 = parts6.push(e6);
        proof {
            lemma_log_step(old(errs)@, parts6, log, errs@);
        }
        let ghost log = errs@;
        self.7.apply_to_base(&mut source.7, errs);
        let ghost e7 = errs@.skip(log.len() as int);
        let ghost parts8 = parts7.push(e7);
        proof {
            lemma_log_step(old(errs)@, parts7, log, errs@);
        }
        let ghost log = errs@;
        self.8.apply_to_base(&mut source.8, errs);
        let ghost e8 = errs@.skip(log.len() as int);
        let ghost parts9 = parts8.push(e8);
        proof {
            lemma_log_step(old(errs)@, parts8, log, errs@);
        }
        proof {
            assert(parts9.len() == 9);
            assert(parts9[0] == e0);
            assert(parts9[1] == e1);
            assert(parts9[2] == e2);
            assert(parts9[3] == e3);
            assert(parts9[4] == e4);
            assert(parts9[5] == e5);
            assert(parts9[6] == e6);
            assert(parts9[7] == e7);
            assert(parts9[8] == e8);
        }
    }
}

impl<'a, A, B, C, D, E, F, G, H> Diffable<'a> for (A, B, C, D, E, F, G, H) where A: Diffable<'a>, B: Diffable<'a>, C: Diffable<'a>, D: Diffable<'a>, E: Diffable<'a>, F: Diffable<'a>, G: Diffable<'a>, H: Diffable<'a> {
    type Diff = (A::Diff, B::Diff, C::Diff, D::Diff, E::Diff, F::Diff, G::Diff, H::Diff);

    /// The same at every position.
    open spec fn same(&self, other: &Self) -> bool {
        &&& self.0.same(&other.0)
        &&& self.1.same(&other.1)
        &&& self.2.same(&other.2)
        &&& self.3.same(&other.3)
        &&& self.4.same(&other.4)
        &&& self.5.same(&other.5)
        &&& self.6.same(&other.6)
        &&& self.7.same(&other.7)
    }

    /// A correct diff at every position.
    open spec fn diffs(&self, other: &Self, d: Self::Diff) -> bool {
        &&& self.0.diffs(&other.0, d.0)
        &&& self.1.diffs(&other.1, d.1)
        &&& self.2.diffs(&other.2, d.2)
        &&& self.3.diffs(&other.3, d.3)
        &&& self.4.diffs(&other.4, d.4)
        &&& self.5.diffs(&other.5, d.5)
        &&& self.6.diffs(&other.6, d.6)
        &&& self.7.diffs(&other.7, d.7)
    }

    fn diff(&self, other: &'a Self) -> (d: Self::Diff) {
        (
            self.0.diff(&other.0),
            self.1.diff(&other.1),
            self.2.diff(&other.2),
            self.3.diff(&other.3),
            self.4.diff(&other.4),
            self.5.diff(&other.5),
            self.6.diff(&other.6),
            self.7.diff(&other.7),
        )
    }
}

impl<A, B, C, D, E, F, G, H> Replace for (A, B, C, D, E, F, G, H) where A: Replace, B: Replace, C: Replace, D: Replace, E: Replace, F: Replace, G: Replace, H: Replace {
    type Replaces = (A::Replaces, B::Replaces, C::Replaces, D::Replaces, E::Replaces, F::Replaces, G::Replaces, H::Replaces);

    /// Unchanged at every position.
    open spec fn unchanged(&self) -> bool {
        &&& self.0.unchanged()
        &&& self.1.unchanged()
        &&& self.2.unchanged()
        &&& self.3.unchanged()
        &&& self.4.unchanged()
        &&& self.5.unchanged()
        &&& self.6.unchanged()
        &&& self.7.unchanged()
    }

    /// Replaced at every position.
    open spec fn replaced(&self) -> bool {
        &&& self.0.replaced()
        &&& self.1.replaced()
        &&& self.2.replaced()
        &&& self.3.replaced()
        &&& self.4.replaced()
        &&& self.5.replaced()
        &&& self.6.replaced()
        &&& self.7.replaced()
    }

    fn is_unchanged(&self) -> (b: bool) {
        self.0.is_unchanged() && self.1.is_unchanged() && self.2.is_unchanged() && self.3.is_unchanged() && self.4.is_unchanged() && self.5.is_unchanged() && self.6.is_unchanged() && self.7.is_unchanged()
    }

    fn is_replaced(&self) -> (b: bool) {
        self.0.is_replaced() && self.1.is_replaced() && self.2.is_replaced() && self.3.is_replaced() && self.4.is_replaced() && self.5.is_replaced() && self.6.is_replaced() && self.7.is_replaced()
    }
}

impl<A, B, C, D, E, F, G, H> Apply for (A, B, C, D, E, F, G, H) where A: Apply, B: Apply, C: Apply, D: Apply, E: Apply, F: Apply, G: Apply, H: Apply {
    type Parent = (A::Parent, B::Parent, C::Parent, D::Parent, E::Parent, F::Parent, G::Parent, H::Parent);

    /// Each position is patched by its own diff, and the errors come position by
    /// position.
    open spec fn applies(&self, pre: Self::Parent, post: Self::Parent, errs: Seq<ApplyError>) -> bool {
        exists|parts: Seq<Seq<ApplyError>>|
            {
                &&& #[trigger] joined(parts) == errs
                &&& parts.len() == 8
                &&& self.0.applies(pre.0, post.0, parts[0])
                &&& self.1.applies(pre.1, post.1, parts[1])
                &&& self.2.applies(pre.2, post.2, parts[2])
                &&& self.3.applies(pre.3, post.3, parts[3])
                &&& self.4.applies(pre.4, post.4, parts[4])
                &&& self.5.applies(pre.5, post.5, parts[5])
                &&& self.6.applies(pre.6, post.6, parts[6])
                &&& self.7.applies(pre.7, post.7, parts[7])
            }
    }

    fn apply_to_base(&self, source: &mut Self::Parent, errs: &mut Vec<ApplyError>) {
        let ghost parts0 = Seq::<Seq<ApplyError>>::empty();
        assert(errs@ == old(errs)@ + joined(parts0)) by {
            assert(errs@ =~= old(errs)@ + joined(parts0));
        }
        let ghost log = errs@;
        self.0.apply_to_base(&mut source.0, errs);
        let ghost e0 = errs@.skip(log.len() as int);
        let ghost parts1 = parts0.push(e0);
        proof {
            lemma_log_step(old(errs)@, parts0, log, errs@);
        }
        let ghost log = errs@;
        self.1.apply_to_base(&mut source.1, errs);
        let ghost e1 = errs@.skip(log.len() as int);
        let ghost parts2 = parts1.push(e1);
        proof {
            lemma_log_step(old(errs)@, parts1, log, errs@);
        }
        let ghost log = errs@;
        self.2.apply_to_base(&mut source.2, errs);
        let ghost e2 = errs@.skip(log.len() as int);
        let ghost parts3 = parts2.push(e2);
        proof {
            lemma_log_step(old(errs)@, parts2, log, errs@);
        }
        let ghost log = errs@;
        self.3.apply_to_base(&mut source.3, errs);
        let ghost e3 = errs@.skip(log.len() as int);
        let ghost parts4 = parts3.push(e3);
        proof {
            lemma_log_step(old(errs)@, parts3, log, errs@);
        }
        let ghost log = errs@;
        self.4.apply_to_base(&mut source.4, errs);
        let ghost e4 = errs@.skip(log.len() as int);
        let ghost parts5 = parts4.push(e4);
        proof {
            lemma_log_step(old(errs)@, parts4, log, errs@);
        }
        let ghost log = errs@;
        self.5.apply_to_base(&mut source.5, errs);
        let ghost e5 = errs@.skip(log.len() as int);
        let ghost parts6 = parts5.push(e5);
        proof {
            lemma_log_step(old(errs)@, parts5, log, errs@);
        }
        let ghost log = errs@;
        self.6.apply_to_base(&mut source.6, errs);
        let ghost e6 = errs@.skip(log.len() as int);
        let ghost parts7 = parts6.push(e6);
        proof {
            lemma_log_step(old(errs)@, parts6, log, errs@);
        }
        let ghost log = errs@;
        self.7.apply_to_base(&mut source.7, errs);
        let ghost e7 = errs@.skip(log.len() as int);
        let ghost parts8 = parts7.push(e7);
        proof {
            lemma_log_step(old(errs)@, parts7, log, errs@);
        }
        proof {
            assert(parts8.len() == 8);
            assert(parts8[0] == e0);
            assert(parts8[1] == e1);
            assert(parts8[2] == e2);
            assert(parts8[3] == e3);
            assert(parts8[4] == e4);
            assert(parts8[5] == e5);
            assert(parts8[6] == e6);
            assert(parts8[7] == e7);
        }
    }
}

impl<'a, A, B, C, D, E, F, G> Diffable<'a> for (A, B, C, D, E, F, G) where A: Diffable<'a>, B: Diffable<'a>, C: Diffable<'a>, D: Diffable<'a>, E: Diffable<'a>, F: Diffable<'a>, G: Diffable<'a> {
    type Diff = (A::Diff, B::Diff, C::Diff, D::Diff, E::Diff, F::Diff, G::Diff);

    /// The same at every position.
    open spec fn same(&self, other: &Self) -> bool {
        &&& self.0.same(&other.0)
        &&& self.1.same(&other.1)
        &&& self.2.same(&other.2)
        &&& self.3.same(&other.3)
        &&& self.4.same(&other.4)
        &&& self.5.same(&other.5)
        &&& self.6.same(&other.6)
    }

    /// A correct diff at every position.
    open spec fn diffs(&self, other: &Self, d: Self::Diff) -> bool {
        &&& self.0.diffs(&other.0, d.0)
        &&& self.1.diffs(&other.1, d.1)
        &&& self.2.diffs(&other.2, d.2)
        &&& self.3.diffs(&other.3, d.3)
        &&& self.4.diffs(&other.4, d.4)
        &&& self.5.diffs(&other.5, d.5)
        &&& self.6.diffs(&other.6, d.6)
    }

    fn diff(&self, other: &'a Self) -> (d: Self::Diff) {
        (
            self.0.diff(&other.0),
            self.1.diff(&other.1),
            self.2.diff(&other.2),
            self.3.diff(&other.3),
            self.4.diff(&other.4),
            self.5.diff(&other.5),
            self.6.diff(&other.6),
        )
    }
}

impl<A, B, C, D, E, F, G> Replace for (A, B, C, D, E, F, G) where A: Replace, B: Replace, C: Replace, D: Replace, E: Replace, F: Replace, G: Replace {
    type Replaces = (A::Replaces, B::Replaces, C::Replaces, D::Replaces, E::Replaces, F::Replaces, G::Replaces);

    /// Unchanged at every position.
    open spec fn unchanged(&self) -> bool {
        &&& self.0.unchanged()
        &&& self.1.unchanged()
        &&& self.2.unchanged()
        &&& self.3.unchanged()
        &&& self.4.unchanged()
        &&& self.5.unchanged()
        &&& self.6.unchanged()
    }

    /// Replaced at every position.
    open spec fn replaced(&self) -> bool {
        &&& self.0.replaced()
        &&& self.1.replaced()
        &&& self.2.replaced()
        &&& self.3.replaced()
        &&& self.4.replaced()
        &&& self.5.replaced()
        &&& self.6.replaced()
    }

    fn is_unchanged(&self) -> (b: bool) {
        self.0.is_unchanged() && self.1.is_unchanged() && self.2.is_unchanged() && self.3.is_unchanged() && self.4.is_unchanged() && self.5.is_unchanged() && self.6.is_unchanged()
    }

    fn is_replaced(&self) -> (b: bool) {
        self.0.is_replaced() && self.1.is_replaced() && self.2.is_replaced() && self.3.is_replaced() && self.4.is_replaced() && self.5.is_replaced() && self.6.is_replaced()
    }
}

impl<A, B, C, D, E, F, G> Apply for (A, B, C, D, E, F, G) where A: Apply, B: Apply, C: Apply, D: Apply, E: Apply, F: Apply, G: Apply {
    type Parent = (A::Parent, B::Parent, C::Parent, D::Parent, E::Parent, F::Parent, G::Parent);

    /// Each position is patched by its own diff, and the errors come position by
    /// position.
    open spec fn applies(&self, pre: Self::Parent, post: Self::Parent, errs: Seq<ApplyError>) -> bool {
        exists|parts: Seq<Seq<ApplyError>>|
            {
                &&& #[trigger] joined(parts) == errs
                &&& parts.len() == 7
                &&& self.0.applies(pre.0, post.0, parts[0])
                &&& self.1.applies(pre.1, post.1, parts[1])
                &&& self.2.applies(pre.2, post.2, parts[2])
                &&& self.3.applies(pre.3, post.3, parts[3])
                &&& self.4.applies(pre.4, post.4, parts[4])
                &&& self.5.applies(pre.5, post.5, parts[5])
                &&& self.6.applies(pre.6, post.6, parts[6])
            }
    }

    fn apply_to_base(&self, source: &mut Self::Parent, errs: &mut Vec<ApplyError>) {
        let ghost parts0 = Seq::<Seq<ApplyError>>::empty();
        assert(errs@ == old(errs)@ + joined(parts0)) by {
            assert(errs@ =~= old(errs)@ + joined(parts0));
        }
        let ghost log = errs@;
        self.0.apply_to_base(&mut source.0, errs);
        let ghost e0 = errs@.skip(log.len() as int);
        let ghost parts1 = parts0.push(e0);
        proof {
            lemma_log_step(old(errs)@, parts0, log, errs@);
        }
        let ghost log = errs@;
        self.1.apply_to_base(&mut source.1, errs);
        let ghost e1 = errs@.skip(log.len() as int);
        let ghost parts2 = parts1.push(e1);
        proof {
            lemma_log_step(old(errs)@, parts1, log, errs@);
        }
        let ghost log = errs@;
        self.2.apply_to_base(&mut source.2, errs);
        let ghost e2 = errs@.skip(log.len() as int);
        let ghost parts3 = parts2.push(e2);
        proof {
            lemma_log_step(old(errs)@, parts2, log, errs@);
        }
        let ghost log = errs@;
        self.3.apply_to_base(&mut source.3, errs);
        let ghost e3 = errs@.skip(log.len() as int);
        let ghost parts4 = parts3.push(e3);
        proof {
            lemma_log_step(old(errs)@, parts3, log, errs@);
        }
        let ghost log = errs@;
        self.4.apply_to_base(&mut source.4, errs);
        let ghost e4 = errs@.skip(log.len() as int);
        let ghost parts5 = parts4.push(e4);
        proof {
            lemma_log_step(old(errs)@, parts4, log, errs@);
        }
        let ghost log = errs@;
        self.5.apply_to_base(&mut source.5, errs);
        let ghost e5 = errs@.skip(log.len() as int);
        let ghost parts6 = parts5.push(e5);
        proof {
            lemma_log_step(old(errs)@, parts5, log, errs@);
        }
        let ghost log = errs@;
        self.6.apply_to_base(&mut source.6, errs);
        let ghost e6 = errs@.skip(log.len() as int);
        let ghost parts7 = parts6.push(e6);
        proof {
            lemma_log_step(old(errs)@, parts6, log, errs@);
        }
        proof {
            assert(parts7.len() == 7);
            assert(parts7[0] == e0);
            assert(parts7[1] == e1);
            assert(parts7[2] == e2);
            assert(parts7[3] == e3);
            assert(parts7[4] == e4);
            assert(parts7[5] == e5);
            assert(parts7[6] == e6);
        }
    }
}

impl<'a, A, B, C, D, E, F> Diffable<'a> for (A, B, C, D, E, F) where A: Diffable<'a>, B: Diffable<'a>, C: Diffable<'a>, D: Diffable<'a>, E: Diffable<'a>, F: Diffable<'a> {
    type Diff = (A::Diff, B::Diff, C::Diff, D::Diff, E::Diff, F::Diff);

    /// The same at every position.
    open spec fn same(&self, other: &Self) -> bool {
        &&& self.0.same(&other.0)
        &&& self.1.same(&other.1)
        &&& self.2.same(&other.2)
        &&& self.3.same(&other.3)
        &&& self.4.same(&other.4)
        &&& self.5.same(&other.5)
    }

    /// A correct diff at every position.
    open spec fn diffs(&self, other: &Self, d: Self::Diff) -> bool {
        &&& self.0.diffs(&other.0, d.0)
        &&& self.1.diffs(&other.1, d.1)
        &&& self.2.diffs(&other.2, d.2)
        &&& self.3.diffs(&other.3, d.3)
        &&& self.4.diffs(&other.4, d.4)
        &&& self.5.diffs(&other.5, d.5)
    }

    fn diff(&self, other: &'a Self) -> (d: Self::Diff) {
        (
            self.0.diff(&other.0),
            self.1.diff(&other.1),
            self.2.diff(&other.2),
            self.3.diff(&other.3),
            self.4.diff(&other.4),
            self.5.diff(&other.5),
        )
    }
}

impl<A, B, C, D, E, F> Replace for (A, B, C, D, E, F) where A: Replace, B: Replace, C: Replace, D: Replace, E: Replace, F: Replace {
    type Replaces = (A::Replaces, B::Replaces, C::Replaces, D::Replaces, E::Replaces, F::Replaces);

    /// Unchanged at every position.
    open spec fn unchanged(&self) -> bool {
        &&& self.0.unchanged()
        &&& self.1.unchanged()
        &&& self.2.unchanged()
        &&& self.3.unchanged()
        &&& self.4.unchanged()
        &&& self.5.unchanged()
    }

    /// Replaced at every position.
    open spec fn replaced(&self) -> bool {
        &&& self.0.replaced()
        &&& self.1.replaced()
        &&& self.2.replaced()
        &&& self.3.replaced()
        &&& self.4.replaced()
        &&& self.5.replaced()
    }

    fn is_unchanged(&self) -> (b: bool) {
        self.0.is_unchanged() && self.1.is_unchanged() && self.2.is_unchanged() && self.3.is_unchanged() && self.4.is_unchanged() && self.5.is_unchanged()
    }

    fn is_replaced(&self) -> (b: bool) {
        self.0.is_replaced() && self.1.is_replaced() && self.2.is_replaced() && self.3.is_replaced() && self.4.is_replaced() && self.5.is_replaced()
    }
}

impl<A, B, C, D, E, F> Apply for (A, B, C, D, E, F) where A: Apply, B: Apply, C: Apply, D: Apply, E: Apply, F: Apply {
    type Parent = (A::Parent, B::Parent, C::Parent, D::Parent, E::Parent, F::Parent);

    /// Each position is patched by its own diff, and the errors come position by
    /// position.
    open spec fn applies(&self, pre: Self::Parent, post: Self::Parent, errs: Seq<ApplyError>) -> bool {
        exists|parts: Seq<Seq<ApplyError>>|
            {
                &&& #[trigger] joined(parts) == errs
                &&& parts.len() == 6
                &&& self.0.applies(pre.0, post.0, parts[0])
                &&& self.1.applies(pre.1, post.1, parts[1])
                &&& self.2.applies(pre.2, post.2, parts[2])
                &&& self.3.applies(pre.3, post.3, parts[3])
                &&& self.4.applies(pre.4, post.4, parts[4])
                &&& self.5.applies(pre.5, post.5, parts[5])
            }
    }

    fn apply_to_base(&self, source: &mut Self::Parent, errs: &mut Vec<ApplyError>) {
        let ghost parts0 = Seq::<Seq<ApplyError>>::empty();
        assert(errs@ == old(errs)@ + joined(parts0)) by {
            assert(errs@ =~= old(errs)@ + joined(parts0));
        }
        let ghost log = errs@;
        self.0.apply_to_base(&mut source.0, errs);
        let ghost e0 = errs@.skip(log.len() as int);
        let ghost parts1 = parts0.push(e0);
        proof {
            lemma_log_step(old(errs)@, parts0, log, errs@);
        }
        let ghost log = errs@;
        self.1.apply_to_base(&mut source.1, errs);
        let ghost e1 = errs@.skip(log.len() as int);
        let ghost parts2 = parts1.push(e1);
        proof {
            lemma_log_step(old(errs)@, parts1, log, errs@);
        }
        let ghost log = errs@;
        self.2.apply_to_base(&mut source.2, errs);
        let ghost e2 = errs@.skip(log.len() as int);
        let ghost parts3 = parts2.push(e2);
        proof {
            lemma_log_step(old(errs)@, parts2, log, errs@);
        }
        let ghost log = errs@;
        self.3.apply_to_base(&mut source.3, errs);
        let ghost e3 = errs@.skip(log.len() as int);
        let ghost parts4 = parts3.push(e3);
        proof {
            lemma_log_step(old(errs)@, parts3, log, errs@);
        }
        let ghost log = errs@;
        self.4.apply_to_base(&mut source.4, errs);
        let ghost e4 = errs@.skip(log.len() as int);
        let ghost parts5 = parts4.push(e4);
        proof {
            lemma_log_step(old(errs)@, parts4, log, errs@);
        }
        let ghost log = errs@;
        self.5.apply_to_base(&mut source.5, errs);
        let ghost e5 = errs@.skip(log.len() as int);
        let ghost parts6 = parts5.push(e5);
        proof {
            lemma_log_step(old(errs)@, parts5, log, errs@);
        }
        proof {
            assert(parts6.len() == 6);
            assert(parts6[0] == e0);
            assert(parts6[1] == e1);
            assert(parts6[2] == e2);
            assert(parts6[3] == e3);
            assert(parts6[4] == e4);
            assert(parts6[5] == e5);
        }
    }
}

impl<'a, A, B, C, D, E> Diffable<'a> for (A, B, C, D, E) where A: Diffable<'a>, B: Diffable<'a>, C: Diffable<'a>, D: Diffable<'a>, E: Diffable<'a> {
    type Diff = (A::Diff, B::Diff, C::Diff, D::Diff, E::Diff);

    /// The same at every position.
    open spec fn same(&self, other: &Self) -> bool {
        &&& self.0.same(&other.0)
        &&& self.1.same(&other.1)
        &&& self.2.same(&other.2)
        &&& self.3.same(&other.3)
        &&& self.4.same(&other.4)
    }

    /// A correct diff at every position.
    open spec fn diffs(&self, other: &Self, d: Self::Diff) -> bool {
        &&& self.0.diffs(&other.0, d.0)
        &&& self.1.diffs(&other.1, d.1)
        &&& self.2.diffs(&other.2, d.2)
        &&& self.3.diffs(&other.3, d.3)
        &&& self.4.diffs(&other.4, d.4)
    }

    fn diff(&self, other: &'a Self) -> (d: Self::Diff) {
        (
            self.0.diff(&other.0),
            self.1.diff(&other.1),
            self.2.diff(&other.2),
            self.3.diff(&other.3),
            self.4.diff(&other.4),
        )
    }
}

impl<A, B, C, D, E> Replace for (A, B, C, D, E) where A: Replace, B: Replace, C: Replace, D: Replace, E: Replace {
    type Replaces = (A::Replaces, B::Replaces, C::Replaces, D::Replaces, E::Replaces);

    /// Unchanged at every position.
    open spec fn unchanged(&self) -> bool {
        &&& self.0.unchanged()
        &&& self.1.unchanged()
        &&& self.2.unchanged()
        &&& self.3.unchanged()
        &&& self.4.unchanged()
    }

    /// Replaced at every position.
    open spec fn replaced(&self) -> bool {
        &&& self.0.replaced()
        &&& self.1.replaced()
        &&& self.2.replaced()
        &&& self.3.replaced()
        &&& self.4.replaced()
    }

    fn is_unchanged(&self) -> (b: bool) {
        self.0.is_unchanged() && self.1.is_unchanged() && self.2.is_unchanged() && self.3.is_unchanged() && self.4.is_unchanged()
    }

    fn is_replaced(&self) -> (b: bool) {
        self.0.is_replaced() && self.1.is_replaced() && self.2.is_replaced() && self.3.is_replaced() && self.4.is_replaced()
    }
}

impl<A, B, C, D, E> Apply for (A, B, C, D, E) where A: Apply, B: Apply, C: Apply, D: Apply, E: Apply {
    type Parent = (A::Parent, B::Parent, C::Parent, D::Parent, E::Parent);

    /// Each position is patched by its own diff, and the errors come position by
    /// position.
    open spec fn applies(&self, pre: Self::Parent, post: Self::Parent, errs: Seq<ApplyError>) -> bool {
        exists|parts: Seq<Seq<ApplyError>>|
            {
                &&& #[trigger] joined(parts) == errs
                &&& parts.len() == 5
                &&& self.0.applies(pre.0, post.0, parts[0])
                &&& self.1.applies(pre.1, post.1, parts[1])
                &&& self.2.applies(pre.2, post.2, parts[2])
                &&& self.3.applies(pre.3, post.3, parts[3])
                &&& self.4.applies(pre.4, post.4, parts[4])
            }
    }

    fn apply_to_base(&self, source: &mut Self::Parent, errs: &mut Vec<ApplyError>) {
        let ghost parts0 = Seq::<Seq<ApplyError>>::empty();
        assert(errs@ == old(errs)@ + joined(parts0)) by {
            assert(errs@ =~= old(errs)@ + joined(parts0));
        }
        let ghost log = errs@;
        self.0.apply_to_base(&mut source.0, errs);
        let ghost e0 = errs@.skip(log.len() as int);
        let ghost parts1 = parts0.push(e0);
        proof {
            lemma_log_step(old(errs)@, parts0, log, errs@);
        }
        let ghost log = errs@;
        self.1.apply_to_base(&mut source.1, errs);
        let ghost e1 = errs@.skip(log.len() as int);
        let ghost parts2 = parts1.push(e1);
        proof {
            lemma_log_step(old(errs)@, parts1, log, errs@);
        }
        let ghost log = errs@;
        self.2.apply_to_base(&mut source.2, errs);
        let ghost e2 = errs@.skip(log.len() as int);
        let ghost parts3 = parts2.push(e2);
        proof {
            lemma_log_step(old(errs)@, parts2, log, errs@);
        }
        let ghost log = errs@;
        self.3.apply_to_base(&mut source.3, errs);
        let ghost e3 = errs@.skip(log.len() as int);
        let ghost parts4 = parts3.push(e3);
        proof {
            lemma_log_step(old(errs)@, parts3, log, errs@);
        }
        let ghost log = errs@;
        self.4.apply_to_base(&mut source.4, errs);
        let ghost e4 = errs@.skip(log.len() as int);
        let ghost parts5 = parts4.push(e4);
        proof {
            lemma_log_step(old(errs)@, parts4, log, errs@);
        }
        proof {
            assert(parts5.len() == 5);
            assert(parts5[0] == e0);
            assert(parts5[1] == e1);
            assert(parts5[2] == e2);
            assert(parts5[3] == e3);
            assert(parts5[4] == e4);
        }
    }
}

impl<'a, A, B, C, D> Diffable<'a> for (A, B, C, D) where A: Diffable<'a>, B: Diffable<'a>, C: Diffable<'a>, D: Diffable<'a> {
    type Diff = (A::Diff, B::Diff, C::Diff, D::Diff);

    /// The same at every position.
    open spec fn same(&self, other: &Self) -> bool {
        &&& self.0.same(&other.0)
        &&& self.1.same(&other.1)
        &&& self.2.same(&other.2)
        &&& self.3.same(&other.3)
    }

    /// A correct diff at every position.
    open spec fn diffs(&self, other: &Self, d: Self::Diff) -> bool {
        &&& self.0.diffs(&other.0, d.0)
        &&& self.1.diffs(&other.1, d.1)
        &&& self.2.diffs(&other.2, d.2)
        &&& self.3.diffs(&other.3, d.3)
    }

    fn diff(&self, other: &'a Self) -> (d: Self::Diff) {
        (
            self.0.diff(&other.0),
            self.1.diff(&other.1),
            self.2.diff(&other.2),
            self.3.diff(&other.3),
        )
    }
}

impl<A, B, C, D> Replace for (A, B, C, D) where A: Replace, B: Replace, C: Replace, D: Replace {
    type Replaces = (A::Replaces, B::Replaces, C::Replaces, D::Replaces);

    /// Unchanged at every position.
    open spec fn unchanged(&self) -> bool {
        &&& self.0.unchanged()
        &&& self.1.unchanged()
        &&& self.2.unchanged()
        &&& self.3.unchanged()
    }

    /// Replaced at every position.
    open spec fn replaced(&self) -> bool {
        &&& self.0.replaced()
        &&& self.1.replaced()
        &&& self.2.replaced()
        &&& self.3.replaced()
    }

    fn is_unchanged(&self) -> (b: bool) {
        self.0.is_unchanged() && self.1.is_unchanged() && self.2.is_unchanged() && self.3.is_unchanged()
    }

    fn is_replaced(&self) -> (b: bool) {
        self.0.is_replaced() && self.1.is_replaced() && self.2.is_replaced() && self.3.is_replaced()
    }
}

impl<A, B, C, D> Apply for (A, B, C, D) where A: Apply, B: Apply, C: Apply, D: Apply {
    type Parent = (A::Parent, B::Parent, C::Parent, D::Parent);

    /// Each position is patched by its own diff, and the errors come position by
    /// position.
    open spec fn applies(&self, pre: Self::Parent, post: Self::Parent, errs: Seq<ApplyError>) -> bool {
        exists|parts: Seq<Seq<ApplyError>>|
            {
                &&& #[trigger] joined(parts) == errs
                &&& parts.len() == 4
                &&& self.0.applies(pre.0, post.0, parts[0])
                &&& self.1.applies(pre.1, post.1, parts[1])
                &&& self.2.applies(pre.2, post.2, parts[2])
                &&& self.3.applies(pre.3, post.3, parts[3])
            }
    }

    fn apply_to_base(&self, source: &mut Self::Parent, errs: &mut Vec<ApplyError>) {
        let ghost parts0 = Seq::<Seq<ApplyError>>::empty();
        assert(errs@ == old(errs)@ + joined(parts0)) by {
            assert(errs@ =~= old(errs)@ + joined(parts0));
        }
        let ghost log = errs@;
        self.0.apply_to_base(&mut source.0, errs);
        let ghost e0 = errs@.skip(log.len() as int);
        let ghost parts1 = parts0.push(e0);
        proof {
            lemma_log_step(old(errs)@, parts0, log, errs@);
        }
        let ghost log = errs@;
        self.1.apply_to_base(&mut source.1, errs);
        let ghost e1 = errs@.skip(log.len() as int);
        let ghost parts2 = parts1.push(e1);
        proof {
            lemma_log_step(old(errs)@, parts1, log, errs@);
        }
        let ghost log = errs@;
        self.2.apply_to_base(&mut source.2, errs);
        let ghost e2 = errs@.skip(log.len() as int);
        let ghost parts3 = parts2.push(e2);
        proof {
            lemma_log_step(old(errs)@, parts2, log, errs@);
        }
        let ghost log = errs@;
        self.3.apply_to_base(&mut source.3, errs);
        let ghost e3 = errs@.skip(log.len() as int);
        let ghost parts4 = parts3.push(e3);
        proof {
            lemma_log_step(old(errs)@, parts3, log, errs@);
        }
        proof {
            assert(parts4.len() == 4);
            assert(parts4[0] == e0);
            assert(parts4[1] == e1);
            assert(parts4[2] == e2);
            assert(parts4[3] == e3);
        }
    }
}

impl<'a, A, B, C> Diffable<'a> for (A, B, C) where A: Diffable<'a>, B: Diffable<'a>, C: Diffable<'a> {
    type Diff = (A::Diff, B::Diff, C::Diff);

    /// The same at every position.
    open spec fn same(&self, other: &Self) -> bool {
        &&& self.0.same(&other.0)
        &&& self.1.same(&other.1)
        &&& self.2.same(&other.2)
    }

    /// A correct diff at every position.
    open spec fn diffs(&self, other: &Self, d: Self::Diff) -> bool {
        &&& self.0.diffs(&other.0, d.0)
        &&& self.1.diffs(&other.1, d.1)
        &&& self.2.diffs(&other.2, d.2)
    }

    fn diff(&self, other: &'a Self) -> (d: Self::Diff) {
        (
            self.0.diff(&other.0),
            self.1.diff(&other.1),
            self.2.diff(&other.2),
        )
    }
}

impl<A, B, C> Replace for (A, B, C) where A: Replace, B: Replace, C: Replace {
    type Replaces = (A::Replaces, B::Replaces, C::Replaces);

    /// Unchanged at every position.
    open spec fn unchanged(&self) -> bool {
        &&& self.0.unchanged()
        &&& self.1.unchanged()
        &&& self.2.unchanged()
    }

    /// Replaced at every position.
    open spec fn replaced(&self) -> bool {
        &&& self.0.replaced()
        &&& self.1.replaced()
        &&& self.2.replaced()
    }

    fn is_unchanged(&self) -> (b: bool) {
        self.0.is_unchanged() && self.1.is_unchanged() && self.2.is_unchanged()
    }

    fn is_replaced(&self) -> (b: bool) {
        self.0.is_replaced() && self.1.is_replaced() && self.2.is_replaced()
    }
}

impl<A, B, C> Apply for (A, B, C) where A: Apply, B: Apply, C: Apply {
    type Parent = (A::Parent, B::Parent, C::Parent);

    /// Each position is patched by its own diff, and the errors come position by
    /// position.
    open spec fn applies(&self, pre: Self::Parent, post: Self::Parent, errs: Seq<ApplyError>) -> bool {
        exists|parts: Seq<Seq<ApplyError>>|
            {
                &&& #[trigger] joined(parts) == errs
                &&& parts.len() == 3
                &&& self.0.applies(pre.0, post.0, parts[0])
                &&& self.1.applies(pre.1, post.1, parts[1])
                &&& self.2.applies(pre.2, post.2, parts[2])
            }
    }

    fn apply_to_base(&self, source: &mut Self::Parent, errs: &mut Vec<ApplyError>) {
        let ghost parts0 = Seq::<Seq<ApplyError>>::empty();
        assert(errs@ == old(errs)@ + joined(parts0)) by {
            assert(errs@ =~= old(errs)@ + joined(parts0));
        }
        let ghost log = errs@;
        self.0.apply_to_base(&mut source.0, errs);
        let ghost e0 = errs@.skip(log.len() as int);
        let ghost parts1 = parts0.push(e0);
        proof {
            lemma_log_step(old(errs)@, parts0, log, errs@);
        }
        let ghost log = errs@;
        self.1.apply_to_base(&mut source.1, errs);
        let ghost e1 = errs@.skip(log.len() as int);
        let ghost parts2 = parts1.push(e1);
        proof {
            lemma_log_step(old(errs)@, parts1, log, errs@);
        }
        let ghost log = errs@;
        self.2.apply_to_base(&mut source.2, errs);
        let ghost e2 = errs@.skip(log.len() as int);
        let ghost parts3 = parts2.push(e2);
        proof {
            lemma_log_step(old(errs)@, parts2, log, errs@);
        }
        proof {
            assert(parts3.len() == 3);
            assert(parts3[0] == e0);
            assert(parts3[1] == e1);
            assert(parts3[2] == e2);
        }
    }
}

impl<'a, A, B> Diffable<'a> for (A, B) where A: Diffable<'a>, B: Diffable<'a> {
    type Diff = (A::Diff, B::Diff);

    /// The same at every position.
    open spec fn same(&self, other: &Self) -> bool {
        &&& self.0.same(&other.0)
        &&& self.1.same(&other.1)
    }

    /// A correct diff at every position.
    open spec fn diffs(&self, other: &Self, d: Self::Diff) -> bool {
        &&& self.0.diffs(&other.0, d.0)
        &&& self.1.diffs(&other.1, d.1)
    }

    fn diff(&self, other: &'a Self) -> (d: Self::Diff) {
        (
            self.0.diff(&other.0),
            self.1.diff(&other.1),
        )
    }
}

impl<A, B> Replace for (A, B) where A: Replace, B: Replace {
    type Replaces = (A::Replaces, B::Replaces);

    /// Unchanged at every position.
    open spec fn unchanged(&self) -> bool {
        &&& self.0.unchanged()
        &&& self.1.unchanged()
    }

    /// Replaced at every position.
    open spec fn replaced(&self) -> bool {
        &&& self.0.replaced()
        &&& self.1.replaced()
    }

    fn is_unchanged(&self) -> (b: bool) {
        self.0.is_unchanged() && self.1.is_unchanged()
    }

    fn is_replaced(&self) -> (b: bool) {
        self.0.is_replaced() && self.1.is_replaced()
    }
}

impl<A, B> Apply for (A, B) where A: Apply, B: Apply {
    type Parent = (A::Parent, B::Parent);

    /// Each position is patched by its own diff, and the errors come position by
    /// position.
    open spec fn applies(&self, pre: Self::Parent, post: Self::Parent, errs: Seq<ApplyError>) -> bool {
        exists|parts: Seq<Seq<ApplyError>>|
            {
                &&& #[trigger] joined(parts) == errs
                &&& parts.len() == 2
                &&& self.0.applies(pre.0, post.0, parts[0])
                &&& self.1.applies(pre.1, post.1, parts[1])
            }
    }

    fn apply_to_base(&self, source: &mut Self::Parent, errs: &mut Vec<ApplyError>) {
        let ghost parts0 = Seq::<Seq<ApplyError>>::empty();
        assert(errs@ == old(errs)@ + joined(parts0)) by {
            assert(errs@ =~= old(errs)@ + joined(parts0));
        }
        let ghost log = errs@;
        self.0.apply_to_base(&mut source.0, errs);
        let ghost e0 = errs@.skip(log.len() as int);
        let ghost parts1 = parts0.push(e0);
        proof {
            lemma_log_step(old(errs)@, parts0, log, errs@);
        }
        let ghost log = errs@;
        self.1.apply_to_base(&mut source.1, errs);
        let ghost e1 = errs@.skip(log.len() as int);
        let ghost parts2 = parts1.push(e1);
        proof {
            lemma_log_step(old(errs)@, parts1, log, errs@);
        }
        proof {
            assert(parts2.len() == 2);
            assert(parts2[0] == e0);
            assert(parts2[1] == e1);
        }
    }
}

impl<'a, A> Diffable<'a> for (A,) where A: Diffable<'a> {
    type Diff = (A::Diff,);

    /// The same at every position.
    open spec fn same(&self, other: &Self) -> bool {
        &&& self.0.same(&other.0)
    }

    /// A correct diff at every position.
    open spec fn diffs(&self, other: &Self, d: Self::Diff) -> bool {
        &&& self.0.diffs(&other.0, d.0)
    }

    fn diff(&self, other: &'a Self) -> (d: Self::Diff) {
        (
            self.0.diff(&other.0),
        )
    }
}

impl<A> Replace for (A,) where A: Replace {
    type Replaces = (A::Replaces,);

    /// Unchanged at every position.
    open spec fn unchanged(&self) -> bool {
        &&& self.0.unchanged()
    }

    /// Replaced at every position.
    open spec fn replaced(&self) -> bool {
        &&& self.0.replaced()
    }

    fn is_unchanged(&self) -> (b: bool) {
        self.0.is_unchanged()
    }

    fn is_replaced(&self) -> (b: bool) {
        self.0.is_replaced()
    }
}

impl<A> Apply for (A,) where A: Apply {
    type Parent = (A::Parent,);

    /// Each position is patched by its own diff, and the errors come position by
    /// position.
    open spec fn applies(&self, pre: Self::Parent, post: Self::Parent, errs: Seq<ApplyError>) -> bool {
        exists|parts: Seq<Seq<ApplyError>>|
            {
                &&& #[trigger] joined(parts) == errs
                &&& parts.len() == 1
                &&& self.0.applies(pre.0, post.0, parts[0])
            }
    }

    fn apply_to_base(&self, source: &mut Self::Parent, errs: &mut Vec<ApplyError>) {
        let ghost parts0 = Seq::<Seq<ApplyError>>::empty();
        assert(errs@ == old(errs)@ + joined(parts0)) by {
            assert(errs@ =~= old(errs)@ + joined(parts0));
        }
        let ghost log = errs@;
        self.0.apply_to_base(&mut source.0, errs);
        let ghost e0 = errs@.skip(log.len() as int);
        let ghost parts1 = parts0.push(e0);
        proof {
            lemma_log_step(old(errs)@, parts0, log, errs@);
        }
        proof {
            assert(parts1.len() == 1);
            assert(parts1[0] == e0);
        }
    }
}

/// A tuple of nine follows the laws where every position does.
pub proof fn law_tuple9_lawful<'a, A, B, C, D, E, F, G, H, I>() where A: Diffable<'a>, B: Diffable<'a>, C: Diffable<'a>, D: Diffable<'a>, E: Diffable<'a>, F: Diffable<'a>, G: Diffable<'a>, H: Diffable<'a>, I: Diffable<'a>
    requires
        lawful::<A>(),
        lawful::<B>(),
        lawful::<C>(),
        lawful::<D>(),
        lawful::<E>(),
        lawful::<F>(),
        lawful::<G>(),
        lawful::<H>(),
        lawful::<I>(),
    ensures
        lawful::<(A, B, C, D, E, F, G, H, I)>(),
{
    assert forall|a: (A, B, C, D, E, F, G, H, I), d: <(A, B, C, D, E, F, G, H, I) as Diffable<'a>>::Diff| #[trigger]
        a.diffs(&a, d) implies d.unchanged() by {
        assert(a.0.diffs(&a.0, d.0));
        assert(a.1.diffs(&a.1, d.1));
        assert(a.2.diffs(&a.2, d.2));
        assert(a.3.diffs(&a.3, d.3));
        assert(a.4.diffs(&a.4, d.4));
        assert(a.5.diffs(&a.5, d.5));
        assert(a.6.diffs(&a.6, d.6));
        assert(a.7.diffs(&a.7, d.7));
        assert(a.8.diffs(&a.8, d.8));
    }
    assert forall|a: (A, B, C, D, E, F, G, H, I), b: (A, B, C, D, E, F, G, H, I), d: <(A, B, C, D, E, F, G, H, I) as Diffable<'a>>::Diff| #[trigger]
        a.diffs(&b, d) && d.unchanged() implies a.same(&b) by {
        assert(a.0.diffs(&b.0, d.0));
        assert(a.1.diffs(&b.1, d.1));
        assert(a.2.diffs(&b.2, d.2));
        assert(a.3.diffs(&b.3, d.3));
        assert(a.4.diffs(&b.4, d.4));
        assert(a.5.diffs(&b.5, d.5));
        assert(a.6.diffs(&b.6, d.6));
        assert(a.7.diffs(&b.7, d.7));
        assert(a.8.diffs(&b.8, d.8));
    }
    assert forall|
        a: (A, B, C, D, E, F, G, H, I),
        b: (A, B, C, D, E, F, G, H, I),
        d: <(A, B, C, D, E, F, G, H, I) as Diffable<'a>>::Diff,
        c: (A, B, C, D, E, F, G, H, I),
        e: Seq<ApplyError>,
    | #[trigger] a.diffs(&b, d) && #[trigger] d.applies(a, c, e) implies c.same(&b) && e.len()
        == 0 by {
        let parts = choose|parts: Seq<Seq<ApplyError>>|
            {
                &&& #[trigger] joined(parts) == e
                &&& parts.len() == 9
                &&& d.0.applies(a.0, c.0, parts[0])
                &&& d.1.applies(a.1, c.1, parts[1])
                &&& d.2.applies(a.2, c.2, parts[2])
                &&& d.3.applies(a.3, c.3, parts[3])
                &&& d.4.applies(a.4, c.4, parts[4])
                &&& d.5.applies(a.5, c.5, parts[5])
                &&& d.6.applies(a.6, c.6, parts[6])
                &&& d.7.applies(a.7, c.7, parts[7])
                &&& d.8.applies(a.8, c.8, parts[8])
            };
        assert(a.0.diffs(&b.0, d.0) && d.0.applies(a.0, c.0, parts[0]));
        assert(a.1.diffs(&b.1, d.1) && d.1.applies(a.1, c.1, parts[1]));
        assert(a.2.diffs(&b.2, d.2) && d.2.applies(a.2, c.2, parts[2]));
        assert(a.3.diffs(&b.3, d.3) && d.3.applies(a.3, c.3, parts[3]));
        assert(a.4.diffs(&b.4, d.4) && d.4.applies(a.4, c.4, parts[4]));
        assert(a.5.diffs(&b.5, d.5) && d.5.applies(a.5, c.5, parts[5]));
        assert(a.6.diffs(&b.6, d.6) && d.6.applies(a.6, c.6, parts[6]));
        assert(a.7.diffs(&b.7, d.7) && d.7.applies(a.7, c.7, parts[7]));
        assert(a.8.diffs(&b.8, d.8) && d.8.applies(a.8, c.8, parts[8]));
        lemma_joined_silent(parts);
    }
}

/// A tuple of eight follows the laws where every position does.
pub proof fn law_tuple8_lawful<'a, A, B, C, D, E, F, G, H>() where A: Diffable<'a>, B: Diffable<'a>, C: Diffable<'a>, D: Diffable<'a>, E: Diffable<'a>, F: Diffable<'a>, G: Diffable<'a>, H: Diffable<'a>
    requires
        lawful::<A>(),
        lawful::<B>(),
        lawful::<C>(),
        lawful::<D>(),
        lawful::<E>(),
        lawful::<F>(),
        lawful::<G>(),
        lawful::<H>(),
    ensures
        lawful::<(A, B, C, D, E, F, G, H)>(),
{
    assert forall|a: (A, B, C, D, E, F, G, H), d: <(A, B, C, D, E, F, G, H) as Diffable<'a>>::Diff| #[trigger]
        a.diffs(&a, d) implies d.unchanged() by {
        assert(a.0.diffs(&a.0, d.0));
        assert(a.1.diffs(&a.1, d.1));
        assert(a.2.diffs(&a.2, d.2));
        assert(a.3.diffs(&a.3, d.3));
        assert(a.4.diffs(&a.4, d.4));
        assert(a.5.diffs(&a.5, d.5));
        assert(a.6.diffs(&a.6, d.6));
        assert(a.7.diffs(&a.7, d.7));
    }
    assert forall|a: (A, B, C, D, E, F, G, H), b: (A, B, C, D, E, F, G, H), d: <(A, B, C, D, E, F, G, H) as Diffable<'a>>::Diff| #[trigger]
        a.diffs(&b, d) && d.unchanged() implies a.same(&b) by {
        assert(a.0.diffs(&b.0, d.0));
        assert(a.1.diffs(&b.1, d.1));
        assert(a.2.diffs(&b.2, d.2));
        assert(a.3.diffs(&b.3, d.3));
        assert(a.4.diffs(&b.4, d.4));
        assert(a.5.diffs(&b.5, d.5));
        assert(a.6.diffs(&b.6, d.6));
        assert(a.7.diffs(&b.7, d.7));
    }
    assert forall|
        a: (A, B, C, D, E, F, G, H),
        b: (A, B, C, D, E, F, G, H),
        d: <(A, B, C, D, E, F, G, H) as Diffable<'a>>::Diff,
        c: (A, B, C, D, E, F, G, H),
        e: Seq<ApplyError>,
    | #[trigger] a.diffs(&b, d) && #[trigger] d.applies(a, c, e) implies c.same(&b) && e.len()
        == 0 by {
        let parts = choose|parts: Seq<Seq<ApplyError>>|
            {
                &&& #[trigger] joined(parts) == e
                &&& parts.len() == 8
                &&& d.0.applies(a.0, c.0, parts[0])
                &&& d.1.applies(a.1, c.1, parts[1])
                &&& d.2.applies(a.2, c.2, parts[2])
                &&& d.3.applies(a.3, c.3, parts[3])
                &&& d.4.applies(a.4, c.4, parts[4])
                &&& d.5.applies(a.5, c.5, parts[5])
                &&& d.6.applies(a.6, c.6, parts[6])
                &&& d.7.applies(a.7, c.7, parts[7])
            };
        assert(a.0.diffs(&b.0, d.0) && d.0.applies(a.0, c.0, parts[0]));
        assert(a.1.diffs(&b.1, d.1) && d.1.applies(a.1, c.1, parts[1]));
        assert(a.2.diffs(&b.2, d.2) && d.2.applies(a.2, c.2, parts[2]));
        assert(a.3.diffs(&b.3, d.3) && d.3.applies(a.3, c.3, parts[3]));
        assert(a.4.diffs(&b.4, d.4) && d.4.applies(a.4, c.4, parts[4]));
        assert(a.5.diffs(&b.5, d.5) && d.5.applies(a.5, c.5, parts[5]));
        assert(a.6.diffs(&b.6, d.6) && d.6.applies(a.6, c.6, parts[6]));
        assert(a.7.diffs(&b.7, d.7) && d.7.applies(a.7, c.7, parts[7]));
        lemma_joined_silent(parts);
    }
}

/// A tuple of seven follows the laws where every position does.
pub proof fn law_tuple7_lawful<'a, A, B, C, D, E, F, G>() where A: Diffable<'a>, B: Diffable<'a>, C: Diffable<'a>, D: Diffable<'a>, E: Diffable<'a>, F: Diffable<'a>, G: Diffable<'a>
    requires
        lawful::<A>(),
        lawful::<B>(),
        lawful::<C>(),
        lawful::<D>(),
        lawful::<E>(),
        lawful::<F>(),
        lawful::<G>(),
    ensures
        lawful::<(A, B, C, D, E, F, G)>(),
{
    assert forall|a: (A, B, C, D, E, F, G), d: <(A, B, C, D, E, F, G) as Diffable<'a>>::Diff| #[trigger]
        a.diffs(&a, d) implies d.unchanged() by {
        assert(a.0.diffs(&a.0, d.0));
        assert(a.1.diffs(&a.1, d.1));
        assert(a.2.diffs(&a.2, d.2));
        assert(a.3.diffs(&a.3, d.3));
        assert(a.4.diffs(&a.4, d.4));
        assert(a.5.diffs(&a.5, d.5));
        assert(a.6.diffs(&a.6, d.6));
    }
    assert forall|a: (A, B, C, D, E, F, G), b: (A, B, C, D, E, F, G), d: <(A, B, C, D, E, F, G) as Diffable<'a>>::Diff| #[trigger]
        a.diffs(&b, d) && d.unchanged() implies a.same(&b) by {
        assert(a.0.diffs(&b.0, d.0));
        assert(a.1.diffs(&b.1, d.1));
        assert(a.2.diffs(&b.2, d.2));
        assert(a.3.diffs(&b.3, d.3));
        assert(a.4.diffs(&b.4, d.4));
        assert(a.5.diffs(&b.5, d.5));
        assert(a.6.diffs(&b.6, d.6));
    }
    assert forall|
        a: (A, B, C, D, E, F, G),
        b: (A, B, C, D, E, F, G),
        d: <(A, B, C, D, E, F, G) as Diffable<'a>>::Diff,
        c: (A, B, C, D, E, F, G),
        e: Seq<ApplyError>,
    | #[trigger] a.diffs(&b, d) && #[trigger] d.applies(a, c, e) implies c.same(&b) && e.len()
        == 0 by {
        let parts = choose|parts: Seq<Seq<ApplyError>>|
            {
                &&& #[trigger] joined(parts) == e
                &&& parts.len() == 7
                &&& d.0.applies(a.0, c.0, parts[0])
                &&& d.1.applies(a.1, c.1, parts[1])
                &&& d.2.applies(a.2, c.2, parts[2])
                &&& d.3.applies(a.3, c.3, parts[3])
                &&& d.4.applies(a.4, c.4, parts[4])
                &&& d.5.applies(a.5, c.5, parts[5])
                &&& d.6.applies(a.6, c.6, parts[6])
            };
        assert(a.0.diffs(&b.0, d.0) && d.0.applies(a.0, c.0, parts[0]));
        assert(a.1.diffs(&b.1, d.1) && d.1.applies(a.1, c.1, parts[1]));
        assert(a.2.diffs(&b.2, d.2) && d.2.applies(a.2, c.2, parts[2]));
        assert(a.3.diffs(&b.3, d.3) && d.3.applies(a.3, c.3, parts[3]));
        assert(a.4.diffs(&b.4, d.4) && d.4.applies(a.4, c.4, parts[4]));
        assert(a.5.diffs(&b.5, d.5) && d.5.applies(a.5, c.5, parts[5]));
        assert(a.6.diffs(&b.6, d.6) && d.6.applies(a.6, c.6, parts[6]));
        lemma_joined_silent(parts);
    }
}

/// A tuple of six follows the laws where every position does.
pub proof fn law_tuple6_lawful<'a, A, B, C, D, E, F>() where A: Diffable<'a>, B: Diffable<'a>, C: Diffable<'a>, D: Diffable<'a>, E: Diffable<'a>, F: Diffable<'a>
    requires
        lawful::<A>(),
        lawful::<B>(),
        lawful::<C>(),
        lawful::<D>(),
        lawful::<E>(),
        lawful::<F>(),
    ensures
        lawful::<(A, B, C, D, E, F)>(),
{
    assert forall|a: (A, B, C, D, E, F), d: <(A, B, C, D, E, F) as Diffable<'a>>::Diff| #[trigger]
        a.diffs(&a, d) implies d.unchanged() by {
        assert(a.0.diffs(&a.0, d.0));
        assert(a.1.diffs(&a.1, d.1));
        assert(a.2.diffs(&a.2, d.2));
        assert(a.3.diffs(&a.3, d.3));
        assert(a.4.diffs(&a.4, d.4));
        assert(a.5.diffs(&a.5, d.5));
    }
    assert forall|a: (A, B, C, D, E, F), b: (A, B, C, D, E, F), d: <(A, B, C, D, E, F) as Diffable<'a>>::Diff| #[trigger]
        a.diffs(&b, d) && d.unchanged() implies a.same(&b) by {
        assert(a.0.diffs(&b.0, d.0));
        assert(a.1.diffs(&b.1, d.1));
        assert(a.2.diffs(&b.2, d.2));
        assert(a.3.diffs(&b.3, d.3));
        assert(a.4.diffs(&b.4, d.4));
        assert(a.5.diffs(&b.5, d.5));
    }
    assert forall|
        a: (A, B, C, D, E, F),
        b: (A, B, C, D, E, F),
        d: <(A, B, C, D, E, F) as Diffable<'a>>::Diff,
        c: (A, B, C, D, E, F),
        e: Seq<ApplyError>,
    | #[trigger] a.diffs(&b, d) && #[trigger] d.applies(a, c, e) implies c.same(&b) && e.len()
        == 0 by {
        let parts = choose|parts: Seq<Seq<ApplyError>>|
            {
                &&& #[trigger] joined(parts) == e
                &&& parts.len() == 6
                &&& d.0.applies(a.0, c.0, parts[0])
                &&& d.1.applies(a.1, c.1, parts[1])
                &&& d.2.applies(a.2, c.2, parts[2])
                &&& d.3.applies(a.3, c.3, parts[3])
                &&& d.4.applies(a.4, c.4, parts[4])
                &&& d.5.applies(a.5, c.5, parts[5])
            };
        assert(a.0.diffs(&b.0, d.0) && d.0.applies(a.0, c.0, parts[0]));
        assert(a.1.diffs(&b.1, d.1) && d.1.applies(a.1, c.1, parts[1]));
        assert(a.2.diffs(&b.2, d.2) && d.2.applies(a.2, c.2, parts[2]));
        assert(a.3.diffs(&b.3, d.3) && d.3.applies(a.3, c.3, parts[3]));
        assert(a.4.diffs(&b.4, d.4) && d.4.applies(a.4, c.4, parts[4]));
        assert(a.5.diffs(&b.5, d.5) && d.5.applies(a.5, c.5, parts[5]));
        lemma_joined_silent(parts);
    }
}

/// A tuple of five follows the laws where every position does.
pub proof fn law_tuple5_lawful<'a, A, B, C, D, E>() where A: Diffable<'a>, B: Diffable<'a>, C: Diffable<'a>, D: Diffable<'a>, E: Diffable<'a>
    requires
        lawful::<A>(),
        lawful::<B>(),
        lawful::<C>(),
        lawful::<D>(),
        lawful::<E>(),
    ensures
        lawful::<(A, B, C, D, E)>(),
{
    assert forall|a: (A, B, C, D, E), d: <(A, B, C, D, E) as Diffable<'a>>::Diff| #[trigger]
        a.diffs(&a, d) implies d.unchanged() by {
        assert(a.0.diffs(&a.0, d.0));
        assert(a.1.diffs(&a.1, d.1));
        assert(a.2.diffs(&a.2, d.2));
        assert(a.3.diffs(&a.3, d.3));
        assert(a.4.diffs(&a.4, d.4));
    }
    assert forall|a: (A, B, C, D, E), b: (A, B, C, D, E), d: <(A, B, C, D, E) as Diffable<'a>>::Diff| #[trigger]
        a.diffs(&b, d) && d.unchanged() implies a.same(&b) by {
        assert(a.0.diffs(&b.0, d.0));
        assert(a.1.diffs(&b.1, d.1));
        assert(a.2.diffs(&b.2, d.2));
        assert(a.3.diffs(&b.3, d.3));
        assert(a.4.diffs(&b.4, d.4));
    }
    assert forall|
        a: (A, B, C, D, E),
        b: (A, B, C, D, E),
        d: <(A, B, C, D, E) as Diffable<'a>>::Diff,
        c: (A, B, C, D, E),
        e: Seq<ApplyError>,
    | #[trigger] a.diffs(&b, d) && #[trigger] d.applies(a, c, e) implies c.same(&b) && e.len()
        == 0 by {
        let parts = choose|parts: Seq<Seq<ApplyError>>|
            {
                &&& #[trigger] joined(parts) == e
                &&& parts.len() == 5
                &&& d.0.applies(a.0, c.0, parts[0])
                &&& d.1.applies(a.1, c.1, parts[1])
                &&& d.2.applies(a.2, c.2, parts[2])
                &&& d.3.applies(a.3, c.3, parts[3])
                &&& d.4.applies(a.4, c.4, parts[4])
            };
        assert(a.0.diffs(&b.0, d.0) && d.0.applies(a.0, c.0, parts[0]));
        assert(a.1.diffs(&b.1, d.1) && d.1.applies(a.1, c.1, parts[1]));
        assert(a.2.diffs(&b.2, d.2) && d.2.applies(a.2, c.2, parts[2]));
        assert(a.3.diffs(&b.3, d.3) && d.3.applies(a.3, c.3, parts[3]));
        assert(a.4.diffs(&b.4, d.4) && d.4.applies(a.4, c.4, parts[4]));
        lemma_joined_silent(parts);
    }
}

/// A tuple of four follows the laws where every position does.
pub proof fn law_tuple4_lawful<'a, A, B, C, D>() where A: Diffable<'a>, B: Diffable<'a>, C: Diffable<'a>, D: Diffable<'a>
    requires
        lawful::<A>(),
        lawful::<B>(),
        lawful::<C>(),
        lawful::<D>(),
    ensures
        lawful::<(A, B, C, D)>(),
{
    assert forall|a: (A, B, C, D), d: <(A, B, C, D) as Diffable<'a>>::Diff| #[trigger]
        a.diffs(&a, d) implies d.unchanged() by {
        assert(a.0.diffs(&a.0, d.0));
        assert(a.1.diffs(&a.1, d.1));
        assert(a.2.diffs(&a.2, d.2));
        assert(a.3.diffs(&a.3, d.3));
    }
    assert forall|a: (A, B, C, D), b: (A, B, C, D), d: <(A, B, C, D) as Diffable<'a>>::Diff| #[trigger]
        a.diffs(&b, d) && d.unchanged() implies a.same(&b) by {
        assert(a.0.diffs(&b.0, d.0));
        assert(a.1.diffs(&b.1, d.1));
        assert(a.2.diffs(&b.2, d.2));
        assert(a.3.diffs(&b.3, d.3));
    }
    assert forall|
        a: (A, B, C, D),
        b: (A, B, C, D),
        d: <(A, B, C, D) as Diffable<'a>>::Diff,
        c: (A, B, C, D),
        e: Seq<ApplyError>,
    | #[trigger] a.diffs(&b, d) && #[trigger] d.applies(a, c, e) implies c.same(&b) && e.len()
        == 0 by {
        let parts = choose|parts: Seq<Seq<ApplyError>>|
            {
                &&& #[trigger] joined(parts) == e
                &&& parts.len() == 4
                &&& d.0.applies(a.0, c.0, parts[0])
                &&& d.1.applies(a.1, c.1, parts[1])
                &&& d.2.applies(a.2, c.2, parts[2])
                &&& d.3.applies(a.3, c.3, parts[3])
            };
        assert(a.0.diffs(&b.0, d.0) && d.0.applies(a.0, c.0, parts[0]));
        assert(a.1.diffs(&b.1, d.1) && d.1.applies(a.1, c.1, parts[1]));
        assert(a.2.diffs(&b.2, d.2) && d.2.applies(a.2, c.2, parts[2]));
        assert(a.3.diffs(&b.3, d.3) && d.3.applies(a.3, c.3, parts[3]));
        lemma_joined_silent(parts);
    }
}

/// A tuple of three follows the laws where every position does.
pub proof fn law_tuple3_lawful<'a, A, B, C>() where A: Diffable<'a>, B: Diffable<'a>, C: Diffable<'a>
    requires
        lawful::<A>(),
        lawful::<B>(),
        lawful::<C>(),
    ensures
        lawful::<(A, B, C)>(),
{
    assert forall|a: (A, B, C), d: <(A, B, C) as Diffable<'a>>::Diff| #[trigger]
        a.diffs(&a, d) implies d.unchanged() by {
        assert(a.0.diffs(&a.0, d.0));
        assert(a.1.diffs(&a.1, d.1));
        assert(a.2.diffs(&a.2, d.2));
    }
    assert forall|a: (A, B, C), b: (A, B, C), d: <(A, B, C) as Diffable<'a>>::Diff| #[trigger]
        a.diffs(&b, d) && d.unchanged() implies a.same(&b) by {
        assert(a.0.diffs(&b.0, d.0));
        assert(a.1.diffs(&b.1, d.1));
        assert(a.2.diffs(&b.2, d.2));
    }
    assert forall|
        a: (A, B, C),
        b: (A, B, C),
        d: <(A, B, C) as Diffable<'a>>::Diff,
        c: (A, B, C),
        e: Seq<ApplyError>,
    | #[trigger] a.diffs(&b, d) && #[trigger] d.applies(a, c, e) implies c.same(&b) && e.len()
        == 0 by {
        let parts = choose|parts: Seq<Seq<ApplyError>>|
            {
                &&& #[trigger] joined(parts) == e
                &&& parts.len() == 3
                &&& d.0.applies(a.0, c.0, parts[0])
                &&& d.1.applies(a.1, c.1, parts[1])
                &&& d.2.applies(a.2, c.2, parts[2])
            };
        assert(a.0.diffs(&b.0, d.0) && d.0.applies(a.0, c.0, parts[0]));
        assert(a.1.diffs(&b.1, d.1) && d.1.applies(a.1, c.1, parts[1]));
        assert(a.2.diffs(&b.2, d.2) && d.2.applies(a.2, c.2, parts[2]));
        lemma_joined_silent(parts);
    }
}

/// A tuple of two follows the laws where every position does.
pub proof fn law_tuple2_lawful<'a, A, B>() where A: Diffable<'a>, B: Diffable<'a>
    requires
        lawful::<A>(),
        lawful::<B>(),
    ensures
        lawful::<(A, B)>(),
{
    assert forall|a: (A, B), d: <(A, B) as Diffable<'a>>::Diff| #[trigger]
        a.diffs(&a, d) implies d.unchanged() by {
        assert(a.0.diffs(&a.0, d.0));
        assert(a.1.diffs(&a.1, d.1));
    }
    assert forall|a: (A, B), b: (A, B), d: <(A, B) as Diffable<'a>>::Diff| #[trigger]
        a.diffs(&b, d) && d.unchanged() implies a.same(&b) by {
        assert(a.0.diffs(&b.0, d.0));
        assert(a.1.diffs(&b.1, d.1));
    }
    assert forall|
        a: (A, B),
        b: (A, B),
        d: <(A, B) as Diffable<'a>>::Diff,
        c: (A, B),
        e: Seq<ApplyError>,
    | #[trigger] a.diffs(&b, d) && #[trigger] d.applies(a, c, e) implies c.same(&b) && e.len()
        == 0 by {
        let parts = choose|parts: Seq<Seq<ApplyError>>|
            {
                &&& #[trigger] joined(parts) == e
                &&& parts.len() == 2
                &&& d.0.applies(a.0, c.0, parts[0])
                &&& d.1.applies(a.1, c.1, parts[1])
            };
        assert(a.0.diffs(&b.0, d.0) && d.0.applies(a.0, c.0, parts[0]));
        assert(a.1.diffs(&b.1, d.1) && d.1.applies(a.1, c.1, parts[1]));
        lemma_joined_silent(parts);
    }
}

/// A tuple of one follows the laws where every position does.
pub proof fn law_tuple1_lawful<'a, A>() where A: Diffable<'a>
    requires
        lawful::<A>(),
    ensures
        lawful::<(A,)>(),
{
    assert forall|a: (A,), d: <(A,) as Diffable<'a>>::Diff| #[trigger]
        a.diffs(&a, d) implies d.unchanged() by {
        assert(a.0.diffs(&a.0, d.0));
    }
    assert forall|a: (A,), b: (A,), d: <(A,) as Diffable<'a>>::Diff| #[trigger]
        a.diffs(&b, d) && d.unchanged() implies a.same(&b) by {
        assert(a.0.diffs(&b.0, d.0));
    }
    assert forall|
        a: (A,),
        b: (A,),
        d: <(A,) as Diffable<'a>>::Diff,
        c: (A,),
        e: Seq<ApplyError>,
    | #[trigger] a.diffs(&b, d) && #[trigger] d.applies(a, c, e) implies c.same(&b) && e.len()
        == 0 by {
        let parts = choose|parts: Seq<Seq<ApplyError>>|
            {
                &&& #[trigger] joined(parts) == e
                &&& parts.len() == 1
                &&& d.0.applies(a.0, c.0, parts[0])
            };
        assert(a.0.diffs(&b.0, d.0) && d.0.applies(a.0, c.0, parts[0]));
        lemma_joined_silent(parts);
    }
}

} // verus!
