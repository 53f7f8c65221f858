//! Ordered maps: a sparse patch with one entry for each key that changed, applied
//! by increasing key.

use vstd::prelude::*;
use vstd::laws_cmp::obeys_cmp;
use vstd::std_specs::btree::increasing_seq;
use vstd::std_specs::iter::IteratorSpec;
use std::collections::BTreeMap;
use crate::diffs::{DeepDiff, KvDiff};
use crate::error::{joined, ApplyError};
use crate::maps::{
    applied_upto, diffed_upto, entry_applies, lemma_applied_all, lemma_applied_next,
    lemma_diffed_all, lemma_diffed_both, lemma_diffed_inserted, lemma_diffed_removed,
    lemma_diffed_skipped, lemma_diffed_start, lemma_map_diff_of_self, lemma_map_round_trip,
    lemma_map_same_reflexive, lemma_map_unchanged_same, lemma_seen_all, lemma_seen_next,
    lemma_seen_none, lemma_skip_step, lemma_walks, map_applies, map_applies_by, map_diffs, map_same, next_of,
    seen, walks,
};
use crate::laws::{clones_exactly, clones_same, lawful};
use crate::traits::{Apply, Diffable, Replace};

verus! {

/// Keys of type `K` behave in an ordered map as the model of ordered maps expects:
/// their comparison is a total order that follows its specification, and a clone of a
/// key is that key.
pub open spec fn obeys_ord_key<K: Ord + Clone>() -> bool {
    obeys_cmp::<K>() && clones_exactly::<K>()
}

/// Whole numbers behave as keys of an ordered map.
pub proof fn law_ord_keys()
    ensures
        obeys_ord_key::<i8>(),
        obeys_ord_key::<i16>(),
        obeys_ord_key::<i32>(),
        obeys_ord_key::<i64>(),
        obeys_ord_key::<u8>(),
        obeys_ord_key::<u16>(),
        obeys_ord_key::<u32>(),
        obeys_ord_key::<u64>(),
{
}

impl<'a, K, V> Diffable<'a> for BTreeMap<K, V> where
    K: Ord + Eq + Clone + 'a,
    V: Diffable<'a> + Clone + 'a,
 {
    type Diff = DeepDiff<'a, Self, BTreeMap<K, KvDiff<'a, V>>>;

    /// The same keys, with the same values.
    open spec fn same(&self, other: &Self) -> bool {
        map_same(self@, other@)
    }

    open spec fn diffs(&self, other: &Self, d: Self::Diff) -> bool {
        &&& d matches DeepDiff::Replaced(t) ==> t == other
        &&& obeys_ord_key::<K>() ==> map_diffs(
            self@,
            other@,
            d is Unchanged,
            d is Replaced,
            match d {
                DeepDiff::Patched(p) => Some(p@),
                _ => None,
            },
        )
    }

    fn diff(&self, other: &'a Self) -> (d: Self::Diff) {
        let mut diffs: BTreeMap<K, KvDiff<'a, V>> = BTreeMap::new();
        let mut all_unchanged = true;
        let mut all_replaced = true;
        let ghost mut child = Map::<K, V::Diff>::empty();
        proof {
            lemma_diffed_start::<K, V>(self@, other@);
        }

        let n: usize = self.len();
        let mut i: usize = 0;
        let mut it = self.iter();
        let ghost items = it.remaining();
        proof {
            if obeys_ord_key::<K>() {
                lemma_walks(items, self@);
                lemma_seen_none(items);
            }
        }
        while i < n
            invariant
                i <= n,
                it.obeys_prophetic_iter_laws(),
                obeys_ord_key::<K>() ==> {
                    &&& items.len() == n
                    &&& it.remaining() == items.skip(i as int)
                    &&& walks(items, self@)
                    &&& diffed_upto(
                        self@,
                        other@,
                        child,
                        seen(items, i as int),
                        diffs@,
                        all_unchanged,
                        all_replaced,
                    )
                },
            decreases n - i,
        {
            proof {
                if obeys_ord_key::<K>() {
                    lemma_skip_step(items, i as int);
                    lemma_seen_next(items, self@, i as int);
                }
            }
            if let Some((k, v)) = next_of(&mut it) {
                match other.get(k) {
                    None => {
                        let ghost before = diffs@;
                        let ghost flag = all_unchanged;
                        all_unchanged = false;
                        let key = k.clone();
                        assert(cloned::<K>(*k, key));
                        diffs.insert(key, KvDiff::Removed);
                        proof {
                            if obeys_ord_key::<K>() {
                                lemma_diffed_removed(
                                    self@,
                                    other@,
                                    child,
                                    seen(items, i as int),
                                    before,
                                    flag,
                                    all_replaced,
                                    *k,
                                );
                            }
                        }
                    },
                    Some(o) => {
                        let c = v.diff(o);
                        let ghost before = diffs@;
                        let ghost flag = all_unchanged;
                        let ghost whole = all_replaced;
                        let ghost cg = c;
                        if !c.is_unchanged() {
                            all_replaced = all_replaced && c.is_replaced();
                            all_unchanged = false;
                            let key = k.clone();
                            assert(cloned::<K>(*k, key));
                            diffs.insert(key, KvDiff::Diff(c));
                        }
                        proof {
                            if obeys_ord_key::<K>() {
                                lemma_diffed_both(
                                    self@,
                                    other@,
                                    child,
                                    seen(items, i as int),
                                    before,
                                    flag,
                                    whole,
                                    *k,
                                    cg,
                                );
                            }
                            child = child.insert(*k, cg);
                        }
                    },
                }
            }
            i = i + 1;
        }
        proof {
            if obeys_ord_key::<K>() {
                lemma_seen_all(items, self@);
            }
        }

        let ghost base_keys = self@.dom();
        let m: usize = other.len();
        let mut j: usize = 0;
        let mut it = other.iter();
        let ghost items = it.remaining();
        proof {
            if obeys_ord_key::<K>() {
                lemma_walks(items, other@);
                lemma_seen_none(items);
                assert(base_keys.union(seen(items, 0)) =~= base_keys);
            }
        }
        while j < m
            invariant
                j <= m,
                it.obeys_prophetic_iter_laws(),
                base_keys == self@.dom(),
                obeys_ord_key::<K>() ==> {
                    &&& items.len() == m
                    &&& it.remaining() == items.skip(j as int)
                    &&& walks(items, other@)
                    &&& diffed_upto(
                        self@,
                        other@,
                        child,
                        base_keys.union(seen(items, j as int)),
                        diffs@,
                        all_unchanged,
                        all_replaced,
                    )
                },
            decreases m - j,
        {
            proof {
                if obeys_ord_key::<K>() {
                    lemma_skip_step(items, j as int);
                    lemma_seen_next(items, other@, j as int);
                }
            }
            if let Some((k, v)) = next_of(&mut it) {
                let ghost before = diffs@;
                let ghost flag = all_unchanged;
                let ghost done = base_keys.union(seen(items, j as int));
                proof {
                    if obeys_ord_key::<K>() {
                        assert(base_keys.union(seen(items, j + 1)) =~= done.insert(*k));
                    }
                }
                if !self.contains_key(k) {
                    all_unchanged = false;
                    let key = k.clone();
                    assert(cloned::<K>(*k, key));
                    diffs.insert(key, KvDiff::Inserted(v));
                    proof {
                        if obeys_ord_key::<K>() {
                            lemma_diffed_inserted(
                                self@,
                                other@,
                                child,
                                done,
                                before,
                                flag,
                                all_replaced,
                                *k,
                            );
                        }
                    }
                } else {
                    proof {
                        if obeys_ord_key::<K>() {
                            lemma_diffed_skipped(
                                self@,
                                other@,
                                child,
                                done,
                                before,
                                flag,
                                all_replaced,
                                *k,
                            );
                        }
                    }
                }
            }
            j = j + 1;
        }
        proof {
            if obeys_ord_key::<K>() {
                lemma_seen_all(items, other@);
                lemma_diffed_all(
                    self@,
                    other@,
                    child,
                    base_keys.union(seen(items, m as int)),
                    diffs@,
                    all_unchanged,
                    all_replaced,
                );
            }
        }
        DeepDiff::from_children(all_unchanged, all_replaced, diffs, other)
    }
}

/// `BTreeMap::get_mut`: a mutable reference to the value of `k`, where the map holds
/// the key. What is written through the reference becomes the value of `k`; nothing
/// else in the map changes.
#[verifier::external_body]
fn value_mut<'m, K: Ord, V>(m: &'m mut BTreeMap<K, V>, k: &K) -> (r: Option<&'m mut V>)
    ensures
        obeys_cmp::<K>() ==> match r {
            Some(v) => {
                &&& old(m)@.contains_key(*k)
                &&& *v == old(m)@[*k]
                &&& final(m)@ == old(m)@.insert(*k, *final(v))
            },
            None => !old(m)@.contains_key(*k) && final(m)@ == old(m)@,
        },
{
    m.get_mut(k)
}

/// Applying `patch` to the map `pre` may leave `post` and report `errs`: every entry is
/// applied once, by increasing key, and the errors come in that order.
pub open spec fn ordered_applies<'a, K, V: Diffable<'a> + Clone>(
    patch: Map<K, KvDiff<'a, V>>,
    pre: Map<K, V>,
    post: Map<K, V>,
    errs: Seq<ApplyError>,
) -> bool {
    exists|order: Seq<K>, parts: Seq<Seq<ApplyError>>| #[trigger]
        map_applies_by(patch, pre, post, errs, order, parts) && increasing_seq(order)
}

/// What is applied by increasing key is applied in some order.
pub proof fn lemma_ordered_applies<'a, K, V: Diffable<'a> + Clone>(
    patch: Map<K, KvDiff<'a, V>>,
    pre: Map<K, V>,
    post: Map<K, V>,
    errs: Seq<ApplyError>,
)
    requires
        ordered_applies(patch, pre, post, errs),
    ensures
        map_applies(patch, pre, post, errs),
{
    let (order, parts) = choose|order: Seq<K>, parts: Seq<Seq<ApplyError>>| #[trigger]
        map_applies_by(patch, pre, post, errs, order, parts) && increasing_seq(order);
    assert(map_applies_by(patch, pre, post, errs, order, parts));
}

impl<'a, K, V> Apply for BTreeMap<K, KvDiff<'a, V>> where
    K: Ord + Eq + Clone,
    V: Diffable<'a> + Clone,
 {
    type Parent = BTreeMap<K, V>;

    /// The entries are applied by increasing key.
    open spec fn applies(&self, pre: BTreeMap<K, V>, post: BTreeMap<K, V>, errs: Seq<ApplyError>) -> bool {
        obeys_ord_key::<K>() ==> ordered_applies(self@, pre@, post@, errs)
    }

    fn apply_to_base(&self, source: &mut BTreeMap<K, V>, errs: &mut Vec<ApplyError>) {
        let ghost mut order = Seq::<K>::empty();
        let ghost mut parts = Seq::<Seq<ApplyError>>::empty();
        let n: usize = self.len();
        let mut i: usize = 0;
        let mut it = self.iter();
        let ghost items = it.remaining();
        proof {
            if obeys_ord_key::<K>() {
                lemma_walks(items, self@);
            }
            assert(errs@ =~= old(errs)@ + joined(parts));
        }
        while i < n
            invariant
                i <= n,
                it.obeys_prophetic_iter_laws(),
                old(errs)@.is_prefix_of(errs@),
                obeys_ord_key::<K>() ==> {
                    &&& items.len() == n
                    &&& it.remaining() == items.skip(i as int)
                    &&& walks(items, self@)
                    &&& order.len() == i
                    &&& forall|j: int| 0 <= j < i ==> #[trigger] order[j] == *items[j].0
                    &&& increasing_seq(items.map_values(|kv: (&K, &KvDiff<'a, V>)| *kv.0))
                    &&& applied_upto(self@, old(source)@, source@, order, parts)
                    &&& errs@ == old(errs)@ + joined(parts)
                },
            decreases n - i,
        {
            proof {
                if obeys_ord_key::<K>() {
                    lemma_skip_step(items, i as int);
                }
            }
            if let Some((k, v)) = next_of(&mut it) {
                let ghost cur = source@;
                let ghost log = errs@;
                match v {
                    KvDiff::Removed => {
                        match source.remove(k) {
                            Some(_) => {},
                            None => errs.push(ApplyError::MissingKey),
                        }
                    },
                    KvDiff::Inserted(val) => {
                        if source.contains_key(k) {
                            errs.push(ApplyError::UnexpectedKey);
                        } else {
                            let key = k.clone();
                            assert(cloned::<K>(*k, key));
                            source.insert(key, (*val).clone());
                        }
                    },
                    KvDiff::Diff(diff) => {
                        match value_mut(source, k) {
                            Some(val) => diff.apply_to_base(val, errs),
                            None => errs.push(ApplyError::MissingKey),
                        }
                    },
                }
                proof {
                    let e = errs@.skip(log.len() as int);
                    if obeys_ord_key::<K>() {
                        match v {
                            KvDiff::Removed => {
                                assert(e =~= if cur.contains_key(*k) {
                                    Seq::<ApplyError>::empty()
                                } else {
                                    seq![ApplyError::MissingKey]
                                });
                            },
                            KvDiff::Inserted(_) => {
                                assert(e =~= if cur.contains_key(*k) {
                                    seq![ApplyError::UnexpectedKey]
                                } else {
                                    Seq::<ApplyError>::empty()
                                });
                            },
                            KvDiff::Diff(_) => {
                                if !cur.contains_key(*k) {
                                    assert(e =~= seq![ApplyError::MissingKey]);
                                }
                            },
                        }
                        assert(entry_applies(*v, cur.get(*k), source@.get(*k), e));
                        assert(forall|j: K| j != *k ==> #[trigger] source@.get(j) == cur.get(j));
                        lemma_applied_next(
                            self@,
                            old(source)@,
                            cur,
                            source@,
                            items,
                            i as int,
                            order,
                            parts,
                            old(errs)@,
                            log,
                            errs@,
                        );
                        order = order.push(*k);
                        parts = parts.push(e);
                    }
                }
            }
            i = i + 1;
        }
        proof {
            if obeys_ord_key::<K>() {
                lemma_applied_all(
                    self@,
                    old(source)@,
                    source@,
                    items,
                    order,
                    parts,
                    old(errs)@,
                    errs@,
                );
                assert(order =~= items.map_values(|kv: (&K, &KvDiff<'a, V>)| *kv.0));
            }
        }
    }
}

/// An ordered map follows the laws where its keys behave and its values follow them.
pub proof fn law_btree_map_lawful<'a, K, V>() where K: Ord + Eq + Clone + 'a, V: Diffable<'a> + Clone + 'a
    requires
        obeys_ord_key::<K>(),
        lawful::<V>(),
        clones_same::<V>(),
    ensures
        lawful::<BTreeMap<K, V>>(),
        clones_same::<BTreeMap<K, V>>(),
{
    assert forall|a: BTreeMap<K, V>| #[trigger] a.same(&a) by {
        lemma_map_same_reflexive(a@);
    }
    assert forall|a: BTreeMap<K, V>, b: BTreeMap<K, V>| #[trigger] cloned::<BTreeMap<K, V>>(a, b) implies b.same(
        &a,
    ) by {
        lemma_map_same_reflexive(a@);
    }
    assert forall|a: BTreeMap<K, V>, d: <BTreeMap<K, V> as Diffable<'a>>::Diff| #[trigger]
        a.diffs(&a, d) implies d.unchanged() by {
        lemma_map_diff_of_self(
            a@,
            d is Unchanged,
            d is Replaced,
            match d {
                DeepDiff::Patched(p) => Some(p@),
                _ => None,
            },
        );
    }
    assert forall|a: BTreeMap<K, V>, b: BTreeMap<K, V>, d: <BTreeMap<K, V> as Diffable<'a>>::Diff| #[trigger]
        a.diffs(&b, d) && d.unchanged() implies a.same(&b) by {
        lemma_map_unchanged_same(a@, b@);
    }
    assert forall|
        a: BTreeMap<K, V>,
        b: BTreeMap<K, V>,
        d: <BTreeMap<K, V> as Diffable<'a>>::Diff,
        c: BTreeMap<K, V>,
        e: Seq<ApplyError>,
    | #[trigger] a.diffs(&b, d) && #[trigger] d.applies(a, c, e) implies c.same(&b) && e.len()
        == 0 by {
        match d {
            DeepDiff::Unchanged => {
                lemma_map_unchanged_same(a@, b@);
            },
            DeepDiff::Replaced(t) => {
                assert(cloned::<BTreeMap<K, V>>(b, c));
                lemma_map_same_reflexive(b@);
            },
            DeepDiff::Patched(p) => {
                lemma_ordered_applies(p@, a@, c@, e);
                lemma_map_round_trip(a@, b@, p@, c@, e);
            },
        }
    }
}

} // verus!
