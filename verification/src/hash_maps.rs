//! Hash maps: a sparse patch with one entry for each key that changed.

use vstd::prelude::*;
use vstd::std_specs::hash::obeys_key_model;
use vstd::std_specs::iter::IteratorSpec;
use std::collections::HashMap;
use std::hash::Hash;
use crate::diffs::{DeepDiff, KvDiff};
use crate::error::{joined, ApplyError};
use crate::maps::{
    applied_upto, diffed_upto, entry_applies, lemma_applied_all, lemma_applied_next,
    lemma_diffed_all, lemma_diffed_both, lemma_diffed_inserted, lemma_diffed_removed,
    lemma_diffed_skipped, lemma_diffed_start, lemma_map_diff_of_self, lemma_map_round_trip,
    lemma_map_same_reflexive, lemma_map_unchanged_same, lemma_seen_all, lemma_seen_next,
    lemma_seen_none, lemma_skip_step, lemma_walks, map_applies, map_diffs, map_same, next_of,
    seen, walks,
};
use crate::laws::{clones_exactly, clones_same, lawful};
use crate::traits::{Apply, Diffable, Replace};

verus! {

/// Keys of type `K` behave in a hash map as the model of hash maps expects: they
/// hash and compare by their value, and a clone of a key is that key.
pub open spec fn obeys_hash_key<K: Clone>() -> bool {
    obeys_key_model::<K>() && clones_exactly::<K>()
}

/// Whole numbers and booleans behave as keys of a hash map.
pub proof fn law_hash_keys()
    ensures
        obeys_hash_key::<i8>(),
        obeys_hash_key::<i16>(),
        obeys_hash_key::<i32>(),
        obeys_hash_key::<i64>(),
        obeys_hash_key::<u8>(),
        obeys_hash_key::<u16>(),
        obeys_hash_key::<u32>(),
        obeys_hash_key::<u64>(),
        obeys_hash_key::<bool>(),
{
}

impl<'a, K, V> Diffable<'a> for HashMap<K, V> where
    K: Hash + Eq + Clone + 'a,
    V: Diffable<'a> + Clone + 'a,
 {
    type Diff = DeepDiff<'a, Self, HashMap<K, KvDiff<'a, V>>>;

    /// The same keys, with the same values.
    open spec fn same(&self, other: &Self) -> bool {
        map_same(self@, other@)
    }

    open spec fn diffs(&self, other: &Self, d: Self::Diff) -> bool {
        &&& d matches DeepDiff::Replaced(t) ==> t == other
        &&& obeys_hash_key::<K>() ==> map_diffs(
            self@,
            other@,
            d is Unchanged,
            d is Replaced,
            match d {
                DeepDiff::Patched(p) => Some(p@),
                _ => None,
            },
        )
    }

    fn diff(&self, other: &'a Self) -> (d: Self::Diff) {
        let mut diffs: HashMap<K, KvDiff<'a, V>> = HashMap::new();
        let mut all_unchanged = true;
        let mut all_replaced = true;
        let ghost mut child = Map::<K, V::Diff>::empty();
        proof {
            lemma_diffed_start::<K, V>(self@, other@);
        }

        let n: usize = self.len();
        let mut i: usize = 0;
        let mut it = self.iter();
        let ghost items = it.remaining();
        proof {
            if obeys_hash_key::<K>() {
                lemma_walks(items, self@);
                lemma_seen_none(items);
            }
        }
        while i < n
            invariant
                i <= n,
                it.obeys_prophetic_iter_laws(),
                obeys_hash_key::<K>() ==> {
                    &&& items.len() == n
                    &&& it.remaining() == items.skip(i as int)
                    &&& walks(items, self@)
                    &&& diffed_upto(
                        self@,
                        other@,
                        child,
                        seen(items, i as int),
                        diffs@,
                        all_unchanged,
                        all_replaced,
                    )
                },
            decreases n - i,
        {
            proof {
                if obeys_hash_key::<K>() {
                    lemma_skip_step(items, i as int);
                    lemma_seen_next(items, self@, i as int);
                }
            }
            if let Some((k, v)) = next_of(&mut it) {
                match other.get(k) {
                    None => {
                        let ghost before = diffs@;
                        let ghost flag = all_unchanged;
                        all_unchanged = false;
                        let key = k.clone();
                        assert(cloned::<K>(*k, key));
                        diffs.insert(key, KvDiff::Removed);
                        proof {
                            if obeys_hash_key::<K>() {
                                lemma_diffed_removed(
                                    self@,
                                    other@,
                                    child,
                                    seen(items, i as int),
                                    before,
                                    flag,
                                    all_replaced,
                                    *k,
                                );
                            }
                        }
                    },
                    Some(o) => {
                        let c = v.diff(o);
                        let ghost before = diffs@;
                        let ghost flag = all_unchanged;
                        let ghost whole = all_replaced;
                        let ghost cg = c;
                        if !c.is_unchanged() {
                            all_replaced = all_replaced && c.is_replaced();
                            all_unchanged = false;
                            let key = k.clone();
                            assert(cloned::<K>(*k, key));
                            diffs.insert(key, KvDiff::Diff(c));
                        }
                        proof {
                            if obeys_hash_key::<K>() {
                                lemma_diffed_both(
                                    self@,
                                    other@,
                                    child,
                                    seen(items, i as int),
                                    before,
                                    flag,
                                    whole,
                                    *k,
                                    cg,
                                );
                            }
                            child = child.insert(*k, cg);
                        }
                    },
                }
            }
            i = i + 1;
        }
        proof {
            if obeys_hash_key::<K>() {
                lemma_seen_all(items, self@);
            }
        }

        let ghost base_keys = self@.dom();
        let m: usize = other.len();
        let mut j: usize = 0;
        let mut it = other.iter();
        let ghost items = it.remaining();
        proof {
            if obeys_hash_key::<K>() {
                lemma_walks(items, other@);
                lemma_seen_none(items);
                assert(base_keys.union(seen(items, 0)) =~= base_keys);
            }
        }
        while j < m
            invariant
                j <= m,
                it.obeys_prophetic_iter_laws(),
                base_keys == self@.dom(),
                obeys_hash_key::<K>() ==> {
                    &&& items.len() == m
                    &&& it.remaining() == items.skip(j as int)
                    &&& walks(items, other@)
                    &&& diffed_upto(
                        self@,
                        other@,
                        child,
                        base_keys.union(seen(items, j as int)),
                        diffs@,
                        all_unchanged,
                        all_replaced,
                    )
                },
            decreases m - j,
        {
            proof {
                if obeys_hash_key::<K>() {
                    lemma_skip_step(items, j as int);
                    lemma_seen_next(items, other@, j as int);
                }
            }
            if let Some((k, v)) = next_of(&mut it) {
                let ghost before = diffs@;
                let ghost flag = all_unchanged;
                let ghost done = base_keys.union(seen(items, j as int));
                proof {
                    if obeys_hash_key::<K>() {
                        assert(base_keys.union(seen(items, j + 1)) =~= done.insert(*k));
                    }
                }
                if !self.contains_key(k) {
                    all_unchanged = false;
                    let key = k.clone();
                    assert(cloned::<K>(*k, key));
                    diffs.insert(key, KvDiff::Inserted(v));
                    proof {
                        if obeys_hash_key::<K>() {
                            lemma_diffed_inserted(
                                self@,
                                other@,
                                child,
                                done,
                                before,
                                flag,
                                all_replaced,
                                *k,
                            );
                        }
                    }
                } else {
                    proof {
                        if obeys_hash_key::<K>() {
                            lemma_diffed_skipped(
                                self@,
                                other@,
                                child,
                                done,
                                before,
                                flag,
                                all_replaced,
                                *k,
                            );
                        }
                    }
                }
            }
            j = j + 1;
        }
        proof {
            if obeys_hash_key::<K>() {
                lemma_seen_all(items, other@);
                lemma_diffed_all(
                    self@,
                    other@,
                    child,
                    base_keys.union(seen(items, m as int)),
                    diffs@,
                    all_unchanged,
                    all_replaced,
                );
            }
        }
        DeepDiff::from_children(all_unchanged, all_replaced, diffs, other)
    }
}

/// `HashMap::get_mut`: a mutable reference to the value of `k`, where the map holds
/// the key. What is written through the reference becomes the value of `k`; nothing
/// else in the map changes.
#[verifier::external_body]
fn value_mut<'m, K: Hash + Eq, V>(m: &'m mut HashMap<K, V>, k: &K) -> (r: Option<&'m mut V>)
    ensures
        obeys_key_model::<K>() ==> match r {
            Some(v) => {
                &&& old(m)@.contains_key(*k)
                &&& *v == old(m)@[*k]
                &&& final(m)@ == old(m)@.insert(*k, *final(v))
            },
            None => !old(m)@.contains_key(*k) && final(m)@ == old(m)@,
        },
{
    m.get_mut(k)
}

impl<'a, K, V> Apply for HashMap<K, KvDiff<'a, V>> where
    K: Hash + Eq + Clone,
    V: Diffable<'a> + Clone,
 {
    type Parent = HashMap<K, V>;

    open spec fn applies(&self, pre: HashMap<K, V>, post: HashMap<K, V>, errs: Seq<ApplyError>) -> bool {
        obeys_hash_key::<K>() ==> map_applies(self@, pre@, post@, errs)
    }

    fn apply_to_base(&self, source: &mut HashMap<K, V>, errs: &mut Vec<ApplyError>) {
        let ghost mut order = Seq::<K>::empty();
        let ghost mut parts = Seq::<Seq<ApplyError>>::empty();
        let n: usize = self.len();
        let mut i: usize = 0;
        let mut it = self.iter();
        let ghost items = it.remaining();
        proof {
            if obeys_hash_key::<K>() {
                lemma_walks(items, self@);
            }
            assert(errs@ =~= old(errs)@ + joined(parts));
        }
        while i < n
            invariant
                i <= n,
                it.obeys_prophetic_iter_laws(),
                old(errs)@.is_prefix_of(errs@),
                obeys_hash_key::<K>() ==> {
                    &&& items.len() == n
                    &&& it.remaining() == items.skip(i as int)
                    &&& walks(items, self@)
                    &&& order.len() == i
                    &&& forall|j: int| 0 <= j < i ==> #[trigger] order[j] == *items[j].0
                    &&& applied_upto(self@, old(source)@, source@, order, parts)
                    &&& errs@ == old(errs)@ + joined(parts)
                },
            decreases n - i,
        {
            proof {
                if obeys_hash_key::<K>() {
                    lemma_skip_step(items, i as int);
                }
            }
            if let Some((k, v)) = next_of(&mut it) {
                let ghost cur = source@;
                let ghost log = errs@;
                match v {
                    KvDiff::Removed => {
                        match source.remove(k) {
                            Some(_) => {},
                            None => errs.push(ApplyError::MissingKey),
                        }
                    },
                    KvDiff::Inserted(val) => {
                        if source.contains_key(k) {
                            errs.push(ApplyError::UnexpectedKey);
                        } else {
                            let key = k.clone();
                            assert(cloned::<K>(*k, key));
                            source.insert(key, (*val).clone());
                        }
                    },
                    KvDiff::Diff(diff) => {
                        match value_mut(source, k) {
                            Some(val) => diff.apply_to_base(val, errs),
                            None => errs.push(ApplyError::MissingKey),
                        }
                    },
                }
                proof {
                    let e = errs@.skip(log.len() as int);
                    if obeys_hash_key::<K>() {
                        match v {
                            KvDiff::Removed => {
                                assert(e =~= if cur.contains_key(*k) {
                                    Seq::<ApplyError>::empty()
                                } else {
                                    seq![ApplyError::MissingKey]
                                });
                            },
                            KvDiff::Inserted(_) => {
                                assert(e =~= if cur.contains_key(*k) {
                                    seq![ApplyError::UnexpectedKey]
                                } else {
                                    Seq::<ApplyError>::empty()
                                });
                            },
                            KvDiff::Diff(_) => {
                                if !cur.contains_key(*k) {
                                    assert(e =~= seq![ApplyError::MissingKey]);
                                }
                            },
                        }
                        assert(entry_applies(*v, cur.get(*k), source@.get(*k), e));
                        assert(forall|j: K| j != *k ==> #[trigger] source@.get(j) == cur.get(j));
                        lemma_applied_next(
                            self@,
                            old(source)@,
                            cur,
                            source@,
                            items,
                            i as int,
                            order,
                            parts,
                            old(errs)@,
                            log,
                            errs@,
                        );
                        order = order.push(*k);
                        parts = parts.push(e);
                    }
                }
            }
            i = i + 1;
        }
        proof {
            if obeys_hash_key::<K>() {
                lemma_applied_all(
                    self@,
                    old(source)@,
                    source@,
                    items,
                    order,
                    parts,
                    old(errs)@,
                    errs@,
                );
            }
        }
    }
}

/// A hash map follows the laws where its keys behave and its values follow them.
pub proof fn law_hash_map_lawful<'a, K, V>() where K: Hash + Eq + Clone + 'a, V: Diffable<'a> + Clone + 'a
    requires
        obeys_hash_key::<K>(),
        lawful::<V>(),
        clones_same::<V>(),
    ensures
        lawful::<HashMap<K, V>>(),
        clones_same::<HashMap<K, V>>(),
{
    assert forall|a: HashMap<K, V>| #[trigger] a.same(&a) by {
        lemma_map_same_reflexive(a@);
    }
    assert forall|a: HashMap<K, V>, b: HashMap<K, V>| #[trigger] cloned::<HashMap<K, V>>(a, b) implies b.same(
        &a,
    ) by {
        lemma_map_same_reflexive(a@);
    }
    assert forall|a: HashMap<K, V>, d: <HashMap<K, V> as Diffable<'a>>::Diff| #[trigger]
        a.diffs(&a, d) implies d.unchanged() by {
        lemma_map_diff_of_self(
            a@,
            d is Unchanged,
            d is Replaced,
            match d {
                DeepDiff::Patched(p) => Some(p@),
                _ => None,
            },
        );
    }
    assert forall|a: HashMap<K, V>, b: HashMap<K, V>, d: <HashMap<K, V> as Diffable<'a>>::Diff| #[trigger]
        a.diffs(&b, d) && d.unchanged() implies a.same(&b) by {
        lemma_map_unchanged_same(a@, b@);
    }
    assert forall|
        a: HashMap<K, V>,
        b: HashMap<K, V>,
        d: <HashMap<K, V> as Diffable<'a>>::Diff,
        c: HashMap<K, V>,
        e: Seq<ApplyError>,
    | #[trigger] a.diffs(&b, d) && #[trigger] d.applies(a, c, e) implies c.same(&b) && e.len()
        == 0 by {
        match d {
            DeepDiff::Unchanged => {
                lemma_map_unchanged_same(a@, b@);
            },
            DeepDiff::Replaced(t) => {
                assert(cloned::<HashMap<K, V>>(b, c));
                lemma_map_same_reflexive(b@);
            },
            DeepDiff::Patched(p) => {
                lemma_map_round_trip(a@, b@, p@, c@, e);
            },
        }
    }
}

} // verus!
