//! Diffs and patches of keyed collections, stated over their views.
//!
//! A map patch is sparse: it holds an entry only for the keys whose state
//! differs between base and target.

use vstd::prelude::*;
use crate::diffs::KvDiff;
use crate::error::{
    joined, lemma_joined_holds, lemma_joined_silent, lemma_log_step, ApplyError,
};
use crate::laws::{clones_same, lawful};
use crate::traits::{Apply, Diffable, Replace};
use vstd::std_specs::iter::IteratorSpec;

verus! {

/// Takes the next item from an iterator that follows the iterator laws.
pub(crate) fn next_of<I: Iterator>(it: &mut I) -> (r: Option<I::Item>)
    requires
        (*old(it)).obeys_prophetic_iter_laws(),
    ensures
        (*final(it)).obeys_prophetic_iter_laws(),
        (*old(it)).remaining().len() > 0 ==> {
            &&& r == Some((*old(it)).remaining()[0])
            &&& (*final(it)).remaining() == (*old(it)).remaining().drop_first()
        },
        (*old(it)).remaining().len() == 0 ==> {
            &&& r is None
            &&& (*final(it)).remaining() == (*old(it)).remaining()
        },
{
    it.next()
}

/// `items` walks the map `m`: every key once, with its value.
pub open spec fn walks<K, V>(items: Seq<(&K, &V)>, m: Map<K, V>) -> bool {
    &&& forall|j: int|
        0 <= j < items.len() ==> m.contains_key(*(#[trigger] items[j]).0) && m[*items[j].0]
            == *items[j].1
    &&& forall|j1: int, j2: int|
        0 <= j1 < j2 < items.len() ==> *(#[trigger] items[j1]).0 != *(#[trigger] items[j2]).0
    &&& forall|k: K|
        m.contains_key(k) ==> exists|j: int| 0 <= j < items.len() && *(#[trigger] items[j]).0 == k
}

/// The keys of the first `i` items.
pub open spec fn seen<K, V>(items: Seq<(&K, &V)>, i: int) -> Set<K> {
    Set::new(|k: K| exists|j: int| 0 <= j < i && *(#[trigger] items[j]).0 == k)
}

/// A sequence of distinct entries of `m` that holds every entry of it walks `m`.
pub proof fn lemma_walks<K, V>(items: Seq<(&K, &V)>, m: Map<K, V>)
    requires
        items.no_duplicates(),
        forall|j: int|
            0 <= j < items.len() ==> m.contains_key(*(#[trigger] items[j]).0) && m[*items[j].0]
                == *items[j].1,
        forall|k: K| #[trigger] m.contains_key(k) ==> items.contains((&k, &m[k])),
    ensures
        walks(items, m),
{
    assert forall|j1: int, j2: int| 0 <= j1 < j2 < items.len() implies *(#[trigger] items[j1]).0
        != *(#[trigger] items[j2]).0 by {
        if *items[j1].0 == *items[j2].0 {
            assert(*items[j1].1 == *items[j2].1);
            assert(items[j1] == items[j2]);
        }
    }
    assert forall|k: K| m.contains_key(k) implies exists|j: int|
        0 <= j < items.len() && *(#[trigger] items[j]).0 == k by {
        let j = choose|j: int| 0 <= j < items.len() && items[j] == (&k, &m[k]);
        assert(*items[j].0 == k);
    }
}

/// What is left of `items` after the first `i` starts with item `i`.
pub proof fn lemma_skip_step<T>(items: Seq<T>, i: int)
    requires
        0 <= i < items.len(),
    ensures
        items.skip(i).len() > 0,
        items.skip(i)[0] == items[i],
        items.skip(i).drop_first() == items.skip(i + 1),
{
    assert(items.skip(i).drop_first() =~= items.skip(i + 1));
}

/// Before the first item no key has been seen.
pub proof fn lemma_seen_none<K, V>(items: Seq<(&K, &V)>)
    ensures
        seen(items, 0) == Set::<K>::empty(),
{
    assert(seen(items, 0) =~= Set::<K>::empty());
}

/// The next item of a walk brings a key that was not seen before.
pub proof fn lemma_seen_next<K, V>(items: Seq<(&K, &V)>, m: Map<K, V>, i: int)
    requires
        walks(items, m),
        0 <= i < items.len(),
    ensures
        !seen(items, i).contains(*items[i].0),
        seen(items, i + 1) == seen(items, i).insert(*items[i].0),
{
    assert(seen(items, i + 1) =~= seen(items, i).insert(*items[i].0)) by {
        assert forall|k: K| seen(items, i).insert(*items[i].0).contains(k) implies seen(
            items,
            i + 1,
        ).contains(k) by {
            if k == *items[i].0 {
                assert(0 <= i < i + 1 && *items[i].0 == k);
            } else {
                let j = choose|j: int| 0 <= j < i && *(#[trigger] items[j]).0 == k;
                assert(0 <= j < i + 1 && *items[j].0 == k);
            }
        }
    }
}

/// A finished walk has seen every key of the map, and no other.
pub proof fn lemma_seen_all<K, V>(items: Seq<(&K, &V)>, m: Map<K, V>)
    requires
        walks(items, m),
    ensures
        seen(items, items.len() as int) == m.dom(),
{
    assert(seen(items, items.len() as int) =~= m.dom());
}

/// `child` holds a correct diff of the two values of every key that both maps hold.
pub open spec fn children_diff<'a, K, V: Diffable<'a>>(
    base: Map<K, V>,
    target: Map<K, V>,
    child: Map<K, V::Diff>,
) -> bool {
    forall|k: K|
        base.contains_key(k) && target.contains_key(k) ==> base[k].diffs(
            &target[k],
            #[trigger] child[k],
        )
}

/// What the patch from `base` to `target` records for `k`: nothing where the key is
/// in neither map or its value is unchanged.
pub open spec fn entry_for<'a, K, V: Diffable<'a>>(
    base: Map<K, V>,
    target: Map<K, V>,
    child: Map<K, V::Diff>,
    k: K,
) -> Option<KvDiff<'a, V>> {
    if base.contains_key(k) {
        if !target.contains_key(k) {
            Some(KvDiff::Removed)
        } else if child[k].unchanged() {
            None
        } else {
            Some(KvDiff::Diff(child[k]))
        }
    } else if target.contains_key(k) {
        Some(KvDiff::Inserted(&target[k]))
    } else {
        None
    }
}

/// The entry stands for a whole value: a removal, an insertion, or a replacement.
pub open spec fn whole<'a, V: Diffable<'a>>(e: KvDiff<'a, V>) -> bool {
    match e {
        KvDiff::Removed => true,
        KvDiff::Inserted(_) => true,
        KvDiff::Diff(d) => d.replaced(),
    }
}

/// The entries that the patch from `base` to `target` records for the keys in `done`.
pub open spec fn patch_upto<'a, K, V: Diffable<'a>>(
    base: Map<K, V>,
    target: Map<K, V>,
    child: Map<K, V::Diff>,
    done: Set<K>,
) -> Map<K, KvDiff<'a, V>> {
    Map::new(
        |k: K| done.contains(k) && entry_for(base, target, child, k) is Some,
        |k: K| entry_for(base, target, child, k)->0,
    )
}

/// The patch from `base` to `target`.
pub open spec fn patch_for<'a, K, V: Diffable<'a>>(
    base: Map<K, V>,
    target: Map<K, V>,
    child: Map<K, V::Diff>,
) -> Map<K, KvDiff<'a, V>> {
    Map::new(
        |k: K| entry_for(base, target, child, k) is Some,
        |k: K| entry_for(base, target, child, k)->0,
    )
}

/// Every entry of the patch stands for a whole value.
pub open spec fn all_whole<'a, K, V: Diffable<'a>>(patch: Map<K, KvDiff<'a, V>>) -> bool {
    forall|k: K| patch.contains_key(k) ==> whole(#[trigger] patch[k])
}

/// The state of a map diff, given the patch `recorded` from base to target: unchanged
/// where nothing is recorded, replaced where every entry stands for a whole value,
/// else patched by exactly what is recorded.
pub open spec fn map_state<'a, K, V: Diffable<'a>>(
    recorded: Map<K, KvDiff<'a, V>>,
    unchanged: bool,
    replaced: bool,
    patch: Option<Map<K, KvDiff<'a, V>>>,
) -> bool {
    if recorded.dom() =~= Set::empty() {
        unchanged
    } else if all_whole(recorded) {
        replaced
    } else {
        patch == Some(recorded)
    }
}

/// `child` shows that a diff in the given state is a correct diff from `base` to `target`.
pub open spec fn map_diffs_by<'a, K, V: Diffable<'a>>(
    base: Map<K, V>,
    target: Map<K, V>,
    child: Map<K, V::Diff>,
    unchanged: bool,
    replaced: bool,
    patch: Option<Map<K, KvDiff<'a, V>>>,
) -> bool {
    &&& children_diff(base, target, child)
    &&& map_state(patch_for(base, target, child), unchanged, replaced, patch)
}

/// A diff in the given state is a correct diff from `base` to `target`.
pub open spec fn map_diffs<'a, K, V: Diffable<'a>>(
    base: Map<K, V>,
    target: Map<K, V>,
    unchanged: bool,
    replaced: bool,
    patch: Option<Map<K, KvDiff<'a, V>>>,
) -> bool {
    exists|child: Map<K, V::Diff>| #[trigger]
        map_diffs_by(base, target, child, unchanged, replaced, patch)
}

/// What the loops of a map diff know after the keys in `done`: `diffs` holds what is
/// recorded for them, and the two flags say whether that is nothing and whether all of
/// it stands for whole values.
pub open spec fn diffed_upto<'a, K, V: Diffable<'a>>(
    base: Map<K, V>,
    target: Map<K, V>,
    child: Map<K, V::Diff>,
    done: Set<K>,
    diffs: Map<K, KvDiff<'a, V>>,
    all_unchanged: bool,
    all_replaced: bool,
) -> bool {
    &&& diffs =~= patch_upto(base, target, child, done)
    &&& all_unchanged <==> diffs.dom() =~= Set::empty()
    &&& all_replaced <==> all_whole(diffs)
    &&& forall|k: K|
        done.contains(k) && base.contains_key(k) && target.contains_key(k) ==> base[k].diffs(
            &target[k],
            #[trigger] child[k],
        )
}

/// Before the first key nothing is recorded.
pub proof fn lemma_diffed_start<'a, K, V: Diffable<'a>>(base: Map<K, V>, target: Map<K, V>)
    ensures
        diffed_upto(
            base,
            target,
            Map::<K, V::Diff>::empty(),
            Set::<K>::empty(),
            Map::<K, KvDiff<'a, V>>::empty(),
            true,
            true,
        ),
{
}

/// A patch with one more entry holds whole values only where it did before and the
/// new entry is whole.
pub proof fn lemma_all_whole_insert<'a, K, V: Diffable<'a>>(
    diffs: Map<K, KvDiff<'a, V>>,
    k: K,
    e: KvDiff<'a, V>,
)
    requires
        !diffs.contains_key(k),
    ensures
        all_whole(diffs.insert(k, e)) <==> all_whole(diffs) && whole(e),
{
    let next = diffs.insert(k, e);
    assert(next.contains_key(k) && next[k] == e);
    if all_whole(diffs) && whole(e) {
        assert forall|j: K| next.contains_key(j) implies whole(#[trigger] next[j]) by {
            if j != k {
                assert(diffs.contains_key(j));
            }
        }
    }
    if all_whole(next) {
        assert forall|j: K| diffs.contains_key(j) implies whole(#[trigger] diffs[j]) by {
            assert(next.contains_key(j));
            assert(next[j] == diffs[j]);
        }
    }
}

/// One more key of the base, which the target lacks: a removal is recorded.
pub proof fn lemma_diffed_removed<'a, K, V: Diffable<'a>>(
    base: Map<K, V>,
    target: Map<K, V>,
    child: Map<K, V::Diff>,
    done: Set<K>,
    diffs: Map<K, KvDiff<'a, V>>,
    all_unchanged: bool,
    all_replaced: bool,
    k: K,
)
    requires
        diffed_upto(base, target, child, done, diffs, all_unchanged, all_replaced),
        !done.contains(k),
        base.contains_key(k),
        !target.contains_key(k),
    ensures
        diffed_upto(
            base,
            target,
            child,
            done.insert(k),
            diffs.insert(k, KvDiff::Removed),
            false,
            all_replaced,
        ),
{
    lemma_all_whole_insert(diffs, k, KvDiff::<V>::Removed);
    assert(diffs.insert(k, KvDiff::<V>::Removed).contains_key(k));
}

/// One more key of the target, which the base lacks: an insertion is recorded.
pub proof fn lemma_diffed_inserted<'a, K, V: Diffable<'a>>(
    base: Map<K, V>,
    target: Map<K, V>,
    child: Map<K, V::Diff>,
    done: Set<K>,
    diffs: Map<K, KvDiff<'a, V>>,
    all_unchanged: bool,
    all_replaced: bool,
    k: K,
)
    requires
        diffed_upto(base, target, child, done, diffs, all_unchanged, all_replaced),
        !done.contains(k),
        !base.contains_key(k),
        target.contains_key(k),
    ensures
        diffed_upto(
            base,
            target,
            child,
            done.insert(k),
            diffs.insert(k, KvDiff::Inserted(&target[k])),
            false,
            all_replaced,
        ),
{
    lemma_all_whole_insert(diffs, k, KvDiff::<V>::Inserted(&target[k]));
    assert(diffs.insert(k, KvDiff::<V>::Inserted(&target[k])).contains_key(k));
}

/// One more key of the target that the base holds too: it has been dealt with.
pub proof fn lemma_diffed_skipped<'a, K, V: Diffable<'a>>(
    base: Map<K, V>,
    target: Map<K, V>,
    child: Map<K, V::Diff>,
    done: Set<K>,
    diffs: Map<K, KvDiff<'a, V>>,
    all_unchanged: bool,
    all_replaced: bool,
    k: K,
)
    requires
        diffed_upto(base, target, child, done, diffs, all_unchanged, all_replaced),
        done.contains(k),
    ensures
        diffed_upto(base, target, child, done.insert(k), diffs, all_unchanged, all_replaced),
{
    assert(done.insert(k) =~= done);
}

/// One more key that both maps hold, with the diff `c` of its two values: it is
/// recorded unless it is unchanged.
pub proof fn lemma_diffed_both<'a, K, V: Diffable<'a>>(
    base: Map<K, V>,
    target: Map<K, V>,
    child: Map<K, V::Diff>,
    done: Set<K>,
    diffs: Map<K, KvDiff<'a, V>>,
    all_unchanged: bool,
    all_replaced: bool,
    k: K,
    c: V::Diff,
)
    requires
        diffed_upto(base, target, child, done, diffs, all_unchanged, all_replaced),
        !done.contains(k),
        base.contains_key(k),
        target.contains_key(k),
        base[k].diffs(&target[k], c),
    ensures
        c.unchanged() ==> diffed_upto(
            base,
            target,
            child.insert(k, c),
            done.insert(k),
            diffs,
            all_unchanged,
            all_replaced,
        ),
        !c.unchanged() ==> diffed_upto(
            base,
            target,
            child.insert(k, c),
            done.insert(k),
            diffs.insert(k, KvDiff::Diff(c)),
            false,
            all_replaced && c.replaced(),
        ),
{
    let child2 = child.insert(k, c);
    assert forall|j: K| j != k implies entry_for(base, target, child2, j) == entry_for(
        base,
        target,
        child,
        j,
    ) by {}
    assert(child2[k] == c);
    if c.unchanged() {
        assert(diffs =~= patch_upto(base, target, child2, done.insert(k)));
    } else {
        let next = diffs.insert(k, KvDiff::<V>::Diff(c));
        assert(next =~= patch_upto(base, target, child2, done.insert(k)));
        assert(next.contains_key(k));
        lemma_all_whole_insert(diffs, k, KvDiff::<V>::Diff(c));
    }
}

/// After every key of both maps the diff is complete.
pub proof fn lemma_diffed_all<'a, K, V: Diffable<'a>>(
    base: Map<K, V>,
    target: Map<K, V>,
    child: Map<K, V::Diff>,
    done: Set<K>,
    diffs: Map<K, KvDiff<'a, V>>,
    all_unchanged: bool,
    all_replaced: bool,
)
    requires
        diffed_upto(base, target, child, done, diffs, all_unchanged, all_replaced),
        forall|k: K| base.contains_key(k) ==> done.contains(k),
        forall|k: K| target.contains_key(k) ==> done.contains(k),
    ensures
        map_diffs(
            base,
            target,
            all_unchanged,
            !all_unchanged && all_replaced,
            if !all_unchanged && !all_replaced {
                Some(diffs)
            } else {
                None
            },
        ),
{
    assert(diffs =~= patch_for(base, target, child));
    assert(map_diffs_by(
        base,
        target,
        child,
        all_unchanged,
        !all_unchanged && all_replaced,
        if !all_unchanged && !all_replaced {
            Some(diffs)
        } else {
            None
        },
    ));
}

/// What applying one entry of a map patch does to the value of its key, from `pre` to
/// `post` (`None`: the map does not hold the key), and the errors it reports.
///
/// A removal leaves the key absent, and misses a key that was absent before. An
/// insertion puts a clone of its value at an absent key, and leaves a present key as it
/// is, which it reports. A diff is applied to the value of a present key, and misses an
/// absent one.
pub open spec fn entry_applies<'a, V: Diffable<'a> + Clone>(
    e: KvDiff<'a, V>,
    pre: Option<V>,
    post: Option<V>,
    errs: Seq<ApplyError>,
) -> bool {
    match e {
        KvDiff::Removed => post is None && errs == if pre is Some {
            Seq::<ApplyError>::empty()
        } else {
            seq![ApplyError::MissingKey]
        },
        KvDiff::Inserted(v) => match pre {
            Some(_) => post == pre && errs == seq![ApplyError::UnexpectedKey],
            None => post is Some && cloned::<V>(*v, post->0) && errs == Seq::<ApplyError>::empty(),
        },
        KvDiff::Diff(d) => match pre {
            Some(x) => post is Some && d.applies(x, post->0, errs),
            None => post is None && errs == seq![ApplyError::MissingKey],
        },
    }
}

/// The entries of `patch` for the keys in `order` have been applied in that order, from
/// the map `pre` to the map `cur`; `parts` holds the errors of each. Every other key is
/// as it was.
pub open spec fn applied_upto<'a, K, V: Diffable<'a> + Clone>(
    patch: Map<K, KvDiff<'a, V>>,
    pre: Map<K, V>,
    cur: Map<K, V>,
    order: Seq<K>,
    parts: Seq<Seq<ApplyError>>,
) -> bool {
    &&& order.no_duplicates()
    &&& parts.len() == order.len()
    &&& forall|i: int|
        0 <= i < order.len() ==> patch.contains_key(#[trigger] order[i]) && entry_applies(
            patch[order[i]],
            pre.get(order[i]),
            cur.get(order[i]),
            parts[i],
        )
    &&& forall|k: K| !order.contains(k) ==> #[trigger] cur.get(k) == pre.get(k)
}

/// The entries of `patch` have been applied to the map `pre` in the order `order`,
/// each once; that left `post` and reported `parts` entry by entry, `errs` in all.
pub open spec fn map_applies_by<'a, K, V: Diffable<'a> + Clone>(
    patch: Map<K, KvDiff<'a, V>>,
    pre: Map<K, V>,
    post: Map<K, V>,
    errs: Seq<ApplyError>,
    order: Seq<K>,
    parts: Seq<Seq<ApplyError>>,
) -> bool {
    &&& applied_upto(patch, pre, post, order, parts)
    &&& forall|k: K| patch.contains_key(k) ==> order.contains(k)
    &&& errs == joined(parts)
}

/// Applying `patch` to the map `pre` may leave `post` and report `errs`: every entry is
/// applied once, in some order, and the errors come in that order.
pub open spec fn map_applies<'a, K, V: Diffable<'a> + Clone>(
    patch: Map<K, KvDiff<'a, V>>,
    pre: Map<K, V>,
    post: Map<K, V>,
    errs: Seq<ApplyError>,
) -> bool {
    exists|order: Seq<K>, parts: Seq<Seq<ApplyError>>| #[trigger]
        map_applies_by(patch, pre, post, errs, order, parts)
}

/// One more entry has been applied.
pub proof fn lemma_applied_step<'a, K, V: Diffable<'a> + Clone>(
    patch: Map<K, KvDiff<'a, V>>,
    pre: Map<K, V>,
    cur: Map<K, V>,
    next: Map<K, V>,
    order: Seq<K>,
    parts: Seq<Seq<ApplyError>>,
    k: K,
    e: Seq<ApplyError>,
)
    requires
        applied_upto(patch, pre, cur, order, parts),
        !order.contains(k),
        patch.contains_key(k),
        entry_applies(patch[k], cur.get(k), next.get(k), e),
        forall|j: K| j != k ==> #[trigger] next.get(j) == cur.get(j),
    ensures
        applied_upto(patch, pre, next, order.push(k), parts.push(e)),
{
    let order2 = order.push(k);
    let parts2 = parts.push(e);
    assert(cur.get(k) == pre.get(k));
    assert forall|i: int| 0 <= i < order2.len() implies patch.contains_key(#[trigger] order2[i])
        && entry_applies(patch[order2[i]], pre.get(order2[i]), next.get(order2[i]), parts2[i]) by {
        if i < order.len() {
            assert(order2[i] == order[i]);
            assert(order.contains(order[i]));
            assert(next.get(order[i]) == cur.get(order[i]));
        }
    }
    assert forall|j: K| !order2.contains(j) implies #[trigger] next.get(j) == pre.get(j) by {
        assert(order2[order.len() as int] == k);
        if order.contains(j) {
            let i = choose|i: int| 0 <= i < order.len() && order[i] == j;
            assert(order2[i] == j);
        }
        assert(cur.get(j) == pre.get(j));
    }
}

/// The next entry of a walk through the patch has been applied, and the log holds its
/// errors.
pub proof fn lemma_applied_next<'a, K, V: Diffable<'a> + Clone>(
    patch: Map<K, KvDiff<'a, V>>,
    pre: Map<K, V>,
    cur: Map<K, V>,
    next: Map<K, V>,
    items: Seq<(&K, &KvDiff<'a, V>)>,
    i: int,
    order: Seq<K>,
    parts: Seq<Seq<ApplyError>>,
    start: Seq<ApplyError>,
    log: Seq<ApplyError>,
    now: Seq<ApplyError>,
)
    requires
        walks(items, patch),
        0 <= i < items.len(),
        order.len() == i,
        forall|j: int| 0 <= j < i ==> #[trigger] order[j] == *items[j].0,
        applied_upto(patch, pre, cur, order, parts),
        log == start + joined(parts),
        log.is_prefix_of(now),
        entry_applies(
            *items[i].1,
            cur.get(*items[i].0),
            next.get(*items[i].0),
            now.skip(log.len() as int),
        ),
        forall|j: K| j != *items[i].0 ==> #[trigger] next.get(j) == cur.get(j),
    ensures
        forall|j: int| 0 <= j < i + 1 ==> #[trigger] order.push(*items[i].0)[j] == *items[j].0,
        applied_upto(
            patch,
            pre,
            next,
            order.push(*items[i].0),
            parts.push(now.skip(log.len() as int)),
        ),
        now == start + joined(parts.push(now.skip(log.len() as int))),
{
    let k = *items[i].0;
    let e = now.skip(log.len() as int);
    assert(!order.contains(k)) by {
        if order.contains(k) {
            let j = choose|j: int| 0 <= j < order.len() && order[j] == k;
            assert(*items[j].0 == *items[i].0);
        }
    }
    lemma_applied_step(patch, pre, cur, next, order, parts, k, e);
    lemma_log_step(start, parts, log, now);
}

/// After a whole walk through the patch, in the order of the walk, the patch is
/// applied.
pub proof fn lemma_applied_all<'a, K, V: Diffable<'a> + Clone>(
    patch: Map<K, KvDiff<'a, V>>,
    pre: Map<K, V>,
    post: Map<K, V>,
    items: Seq<(&K, &KvDiff<'a, V>)>,
    order: Seq<K>,
    parts: Seq<Seq<ApplyError>>,
    start: Seq<ApplyError>,
    now: Seq<ApplyError>,
)
    requires
        walks(items, patch),
        order.len() == items.len(),
        forall|j: int| 0 <= j < items.len() ==> #[trigger] order[j] == *items[j].0,
        applied_upto(patch, pre, post, order, parts),
        now == start + joined(parts),
    ensures
        map_applies_by(patch, pre, post, now.skip(start.len() as int), order, parts),
{
    assert(now.skip(start.len() as int) =~= joined(parts));
    assert forall|k: K| patch.contains_key(k) implies order.contains(k) by {
        let j = choose|j: int| 0 <= j < items.len() && *(#[trigger] items[j]).0 == k;
        assert(order[j] == k);
    }
}

/// Two maps are the same: the same keys, with the same values.
pub open spec fn map_same<'a, K, V: Diffable<'a>>(a: Map<K, V>, b: Map<K, V>) -> bool {
    &&& a.dom() =~= b.dom()
    &&& forall|k: K| a.contains_key(k) ==> (#[trigger] a[k]).same(&b[k])
}

/// A map is the same as itself.
pub proof fn lemma_map_same_reflexive<'a, K, V: Diffable<'a>>(a: Map<K, V>)
    requires
        lawful::<V>(),
    ensures
        map_same(a, a),
{
}

/// The diff of a map against itself is unchanged.
pub proof fn lemma_map_diff_of_self<'a, K, V: Diffable<'a>>(
    a: Map<K, V>,
    unchanged: bool,
    replaced: bool,
    patch: Option<Map<K, KvDiff<'a, V>>>,
)
    requires
        lawful::<V>(),
        map_diffs(a, a, unchanged, replaced, patch),
    ensures
        unchanged,
{
    let child = choose|child: Map<K, V::Diff>| #[trigger]
        map_diffs_by(a, a, child, unchanged, replaced, patch);
    assert forall|k: K| !patch_for(a, a, child).contains_key(k) by {
        if a.contains_key(k) {
            assert(a[k].diffs(&a[k], child[k]));
        }
    }
    assert(patch_for(a, a, child).dom() =~= Set::empty());
}

/// Where the diff of two maps is unchanged, the maps are the same.
pub proof fn lemma_map_unchanged_same<'a, K, V: Diffable<'a> + 'a>(a: Map<K, V>, b: Map<K, V>)
    requires
        lawful::<V>(),
        map_diffs(a, b, true, false, None),
    ensures
        map_same(a, b),
{
    let child = choose|child: Map<K, V::Diff>| #[trigger]
        map_diffs_by(a, b, child, true, false, None);
    let recorded = patch_for(a, b, child);
    assert(recorded.dom() =~= Set::empty());
    assert forall|k: K| a.contains_key(k) <==> b.contains_key(k) by {
        assert(!recorded.contains_key(k));
    }
    assert forall|k: K| a.contains_key(k) implies (#[trigger] a[k]).same(&b[k]) by {
        assert(!recorded.contains_key(k));
        assert(a[k].diffs(&b[k], child[k]));
    }
}

/// Applying to a map the patch that diffing recorded from it to a target leaves the
/// same as the target, and reports no error.
pub proof fn lemma_map_round_trip<'a, K, V: Diffable<'a> + Clone>(
    a: Map<K, V>,
    b: Map<K, V>,
    patch: Map<K, KvDiff<'a, V>>,
    after: Map<K, V>,
    errs: Seq<ApplyError>,
)
    requires
        lawful::<V>(),
        clones_same::<V>(),
        map_diffs(a, b, false, false, Some(patch)),
        map_applies(patch, a, after, errs),
    ensures
        map_same(after, b),
        errs.len() == 0,
{
    let child = choose|child: Map<K, V::Diff>| #[trigger]
        map_diffs_by(a, b, child, false, false, Some(patch));
    assert(patch == patch_for(a, b, child));
    let (order, parts) = choose|order: Seq<K>, parts: Seq<Seq<ApplyError>>| #[trigger]
        map_applies_by(patch, a, after, errs, order, parts);
    assert forall|i: int| 0 <= i < parts.len() implies (#[trigger] parts[i]).len() == 0 && (
    b.contains_key(order[i]) <==> after.contains_key(order[i])) && (b.contains_key(order[i])
        ==> after[order[i]].same(&b[order[i]])) by {
        let k = order[i];
        assert(patch.contains_key(k));
        assert(entry_applies(patch[k], a.get(k), after.get(k), parts[i]));
        match patch[k] {
            KvDiff::Removed => {},
            KvDiff::Inserted(v) => {
                assert(cloned::<V>(b[k], after[k]));
            },
            KvDiff::Diff(d) => {
                assert(a[k].diffs(&b[k], child[k]));
                assert(d.applies(a[k], after[k], parts[i]));
            },
        }
    }
    lemma_joined_silent(parts);
    assert forall|k: K| (b.contains_key(k) <==> after.contains_key(k)) && (after.contains_key(k)
        ==> after[k].same(&b[k])) by {
        if order.contains(k) {
            let i = choose|i: int| 0 <= i < order.len() && order[i] == k;
            assert(parts[i].len() == 0);
        } else {
            assert(!patch.contains_key(k));
            assert(after.get(k) == a.get(k));
            if a.contains_key(k) {
                assert(a[k].diffs(&b[k], child[k]));
            }
        }
    }
    assert(after.dom() =~= b.dom());
}

/// A map patch is sparse: where base and target hold the same keys and differ in the
/// value of one key only, and that value is patched, not replaced, the diff of the
/// maps is a patch with the one entry for that key.
pub proof fn law_sparse_patch<'a, K, V: Diffable<'a>>(
    base: Map<K, V>,
    target: Map<K, V>,
    child: Map<K, V::Diff>,
    unchanged: bool,
    replaced: bool,
    patch: Option<Map<K, KvDiff<'a, V>>>,
    k: K,
)
    requires
        map_diffs_by(base, target, child, unchanged, replaced, patch),
        base.dom() == target.dom(),
        base.contains_key(k),
        !child[k].unchanged(),
        !child[k].replaced(),
        forall|j: K| base.contains_key(j) && j != k ==> (#[trigger] child[j]).unchanged(),
    ensures
        patch == Some(Map::<K, KvDiff<'a, V>>::empty().insert(k, KvDiff::Diff(child[k]))),
        patch->0.dom() == set![k],
{
    let recorded = patch_for(base, target, child);
    let one = Map::<K, KvDiff<'a, V>>::empty().insert(k, KvDiff::Diff(child[k]));
    assert(recorded.contains_key(k));
    assert(!whole(recorded[k]));
    assert(recorded =~= one);
    assert(one.dom() =~= set![k]);
}

/// Errors accumulate: a patch that removes a key which the map lacks and inserts a key
/// which the map holds reports both a missing and an unexpected key, leaves both keys
/// as they were, and still applies every other entry.
pub proof fn law_errors_accumulate<'a, K, V: Diffable<'a> + Clone>(
    patch: Map<K, KvDiff<'a, V>>,
    pre: Map<K, V>,
    post: Map<K, V>,
    errs: Seq<ApplyError>,
    gone: K,
    held: K,
)
    requires
        map_applies(patch, pre, post, errs),
        patch.contains_key(gone) && patch[gone] is Removed && !pre.contains_key(gone),
        patch.contains_key(held) && patch[held] is Inserted && pre.contains_key(held),
    ensures
        errs.contains(ApplyError::MissingKey),
        errs.contains(ApplyError::UnexpectedKey),
        !post.contains_key(gone),
        post.get(held) == pre.get(held),
        forall|k: K| #[trigger]
            patch.contains_key(k) ==> exists|e: Seq<ApplyError>|
                entry_applies(patch[k], pre.get(k), post.get(k), e),
{
    let (order, parts) = choose|order: Seq<K>, parts: Seq<Seq<ApplyError>>| #[trigger]
        map_applies_by(patch, pre, post, errs, order, parts);
    assert(order.contains(gone) && order.contains(held));
    let i = choose|i: int| 0 <= i < order.len() && order[i] == gone;
    assert(entry_applies(patch[order[i]], pre.get(order[i]), post.get(order[i]), parts[i]));
    assert(parts[i][0] == ApplyError::MissingKey);
    lemma_joined_holds(parts, i, 0);
    let j = choose|j: int| 0 <= j < order.len() && order[j] == held;
    assert(entry_applies(patch[order[j]], pre.get(order[j]), post.get(order[j]), parts[j]));
    assert(parts[j][0] == ApplyError::UnexpectedKey);
    lemma_joined_holds(parts, j, 0);
    assert forall|k: K| #[trigger] patch.contains_key(k) implies exists|e: Seq<ApplyError>|
        entry_applies(patch[k], pre.get(k), post.get(k), e) by {
        assert(order.contains(k));
        let x = choose|x: int| 0 <= x < order.len() && order[x] == k;
        assert(entry_applies(patch[order[x]], pre.get(order[x]), post.get(order[x]), parts[x]));
    }
}

} // verus!
