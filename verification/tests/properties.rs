use std::collections::{BTreeMap, HashMap};

use difficient::{Apply, ApplyError, AtomicDiff, DeepDiff, Diffable, Id, KvDiff, Replace};

// A value with two fields, so that its diff can be a patch.

#[derive(PartialEq, Debug, Clone)]
struct Point {
    x: i32,
    y: i32,
}

#[derive(Debug, Clone, PartialEq)]
struct PointDiff<'a> {
    x: <i32 as Diffable<'a>>::Diff,
    y: <i32 as Diffable<'a>>::Diff,
}

impl<'a> Diffable<'a> for Point {
    type Diff = DeepDiff<'a, Self, PointDiff<'a>>;

    fn diff(&self, other: &'a Self) -> Self::Diff {
        let x = self.x.diff(&other.x);
        let y = self.y.diff(&other.y);
        DeepDiff::from_children(
            x.is_unchanged() && y.is_unchanged(),
            x.is_replaced() && y.is_replaced(),
            PointDiff { x, y },
            other,
        )
    }
}

impl<'a> Apply for PointDiff<'a> {
    type Parent = Point;

    fn apply_to_base(&self, source: &mut Self::Parent, errs: &mut Vec<ApplyError>) {
        self.x.apply_to_base(&mut source.x, errs);
        self.y.apply_to_base(&mut source.y, errs);
    }
}

fn point(x: i32, y: i32) -> Point {
    Point { x, y }
}

// Diffing a value against itself.

#[test]
fn diff_of_self_is_unchanged_for_leaves() {
    assert_eq!(5i8.diff(&5), AtomicDiff::Unchanged);
    assert_eq!(5i16.diff(&5), AtomicDiff::Unchanged);
    assert_eq!(5i32.diff(&5), AtomicDiff::Unchanged);
    assert_eq!(5i64.diff(&5), AtomicDiff::Unchanged);
    assert_eq!(5u8.diff(&5), AtomicDiff::Unchanged);
    assert_eq!(5u16.diff(&5), AtomicDiff::Unchanged);
    assert_eq!(5u32.diff(&5), AtomicDiff::Unchanged);
    assert_eq!(5u64.diff(&5), AtomicDiff::Unchanged);
    assert_eq!(true.diff(&true), AtomicDiff::Unchanged);
    assert_eq!("text".diff(&"text"), AtomicDiff::Unchanged);
    assert_eq!("text".to_string().diff(&"text".to_string()), AtomicDiff::Unchanged);
    assert!(().diff(&()).is_unchanged());
}

#[test]
fn diff_of_self_is_unchanged_for_containers() {
    let v = vec![1, 2, 3];
    assert_eq!(v.diff(&v), AtomicDiff::Unchanged);
    let o = Some(point(1, 2));
    assert_eq!(o.diff(&o), DeepDiff::Unchanged);
    let none: Option<Point> = None;
    assert_eq!(none.diff(&none), DeepDiff::Unchanged);
    let b = Box::new(7u64);
    assert_eq!(*b.diff(&b), AtomicDiff::Unchanged);
    let t = (1u8, "a".to_string(), Some(3i64));
    assert!(t.diff(&t).is_unchanged());
    let h: HashMap<u32, Point> = [(1, point(1, 1)), (2, point(2, 2))].into_iter().collect();
    assert_eq!(h.diff(&h), DeepDiff::Unchanged);
    let m: BTreeMap<u32, Point> = [(1, point(1, 1)), (2, point(2, 2))].into_iter().collect();
    assert_eq!(m.diff(&m), DeepDiff::Unchanged);
}

// Leaves are replaced as a whole.

#[test]
fn changed_leaf_is_replaced_by_the_target() {
    assert_eq!(1i32.diff(&2), AtomicDiff::Replaced(&2));
    assert_eq!(false.diff(&true), AtomicDiff::Replaced(&true));
    assert_eq!(u64::MAX.diff(&0), AtomicDiff::Replaced(&0));
    let bye = "bye".to_string();
    assert_eq!("hello".to_string().diff(&bye), AtomicDiff::Replaced(&bye));
}

#[test]
fn string_slices_are_compared_by_their_characters() {
    let left: &'static str = "ick";
    let right: &'static str = "flick";
    assert_eq!(left.diff(&right), AtomicDiff::Replaced(&right));
    let again = String::from("ick");
    let leaked: &'static str = Box::leak(again.into_boxed_str());
    assert_eq!(left.diff(&leaked), AtomicDiff::Unchanged);
    let mut target = left;
    target.apply(left.diff(&right)).unwrap();
    assert_eq!(target, "flick");
}

#[test]
fn uuids_are_compared_as_a_whole() {
    let a = uuid::Uuid::from_u128(1);
    let b = uuid::Uuid::from_u128(2);
    let a2 = uuid::Uuid::from_u128(1);
    assert_eq!(a.diff(&a2), AtomicDiff::Unchanged);
    assert_eq!(a.diff(&b), AtomicDiff::Replaced(&b));
    let mut c = a;
    c.apply(a.diff(&b)).unwrap();
    assert_eq!(c, b);
}

#[test]
fn atomic_diff_applies() {
    let mut v = 1i32;
    v.apply(AtomicDiff::Unchanged).unwrap();
    assert_eq!(v, 1);
    v.apply(AtomicDiff::Replaced(&9)).unwrap();
    assert_eq!(v, 9);
}

#[test]
fn replace_states() {
    let unchanged: AtomicDiff<i32> = AtomicDiff::Unchanged;
    assert!(unchanged.is_unchanged());
    assert!(!unchanged.is_replaced());
    let replaced = AtomicDiff::Replaced(&1);
    assert!(!replaced.is_unchanged());
    assert!(replaced.is_replaced());

    let deep: DeepDiff<Point, PointDiff> = DeepDiff::Unchanged;
    assert!(deep.is_unchanged() && !deep.is_replaced());
    let p = point(0, 0);
    let deep: DeepDiff<Point, PointDiff> = DeepDiff::Replaced(&p);
    assert!(!deep.is_unchanged() && deep.is_replaced());
    let deep: DeepDiff<Point, PointDiff> = DeepDiff::Patched(PointDiff {
        x: AtomicDiff::Unchanged,
        y: AtomicDiff::Replaced(&1),
    });
    assert!(!deep.is_unchanged() && !deep.is_replaced());

    let id: Id<()> = Id::new();
    assert!(id.is_unchanged());
    assert!(!id.is_replaced());
    assert_eq!(id, Id::new());
    assert_eq!(().diff(&()), id);
    let mut unit = ();
    id.apply_to_base(&mut unit, &mut Vec::new());
}

// The state of an aggregate from the states of its children.

#[test]
fn from_children_folds_the_states() {
    let target = point(1, 2);
    let patch = || PointDiff { x: AtomicDiff::Unchanged, y: AtomicDiff::Unchanged };
    assert_eq!(DeepDiff::from_children(true, false, patch(), &target), DeepDiff::Unchanged);
    // no children at all: unchanged comes first
    assert_eq!(DeepDiff::from_children(true, true, patch(), &target), DeepDiff::Unchanged);
    assert_eq!(DeepDiff::from_children(false, true, patch(), &target), DeepDiff::Replaced(&target));
    assert_eq!(DeepDiff::from_children(false, false, patch(), &target), DeepDiff::Patched(patch()));
}

#[test]
fn every_field_differs_collapses_to_replaced() {
    let a = point(1, 2);
    let b = point(3, 4);
    assert_eq!(a.diff(&b), DeepDiff::Replaced(&b));
    let c = point(1, 4);
    assert_eq!(
        a.diff(&c),
        DeepDiff::Patched(PointDiff { x: AtomicDiff::Unchanged, y: AtomicDiff::Replaced(&4) })
    );
    assert_eq!(a.diff(&a), DeepDiff::Unchanged);
}

// Vectors.

#[test]
fn vectors_differ_by_length_or_by_an_element() {
    let a = vec![1, 2, 3];
    let longer = vec![1, 2, 3, 4];
    let other = vec![1, 9, 3];
    let empty: Vec<i32> = vec![];
    assert_eq!(a.diff(&longer), AtomicDiff::Replaced(&longer));
    assert_eq!(a.diff(&other), AtomicDiff::Replaced(&other));
    assert_eq!(a.diff(&empty), AtomicDiff::Replaced(&empty));
    assert_eq!(empty.diff(&empty), AtomicDiff::Unchanged);
    let last = vec![1, 2, 4];
    assert_eq!(a.diff(&last), AtomicDiff::Replaced(&last));
    let mut c = a.clone();
    c.apply(a.diff(&other)).unwrap();
    assert_eq!(c, other);
}

// Options.

#[test]
fn options_diff() {
    let none: Option<Point> = None;
    let one = Some(point(1, 2));
    let half = Some(point(1, 3));
    let two = Some(point(5, 6));
    assert_eq!(none.diff(&one), DeepDiff::Replaced(&one));
    assert_eq!(one.diff(&none), DeepDiff::Replaced(&none));
    // the diff of the values is replaced: so is the option
    assert_eq!(one.diff(&two), DeepDiff::Replaced(&two));
    // the diff of the values is a patch: the option is patched by it
    assert_eq!(
        one.diff(&half),
        DeepDiff::Patched(Some(DeepDiff::Patched(PointDiff {
            x: AtomicDiff::Unchanged,
            y: AtomicDiff::Replaced(&3),
        })))
    );
}

#[test]
fn options_round_trip() {
    let values = [None, Some(point(1, 2)), Some(point(1, 3)), Some(point(5, 6))];
    for a in &values {
        for b in &values {
            let mut c = a.clone();
            c.apply(a.diff(b)).unwrap();
            assert_eq!(&c, b);
        }
    }
}

#[test]
fn option_patch_on_absent_value_is_a_mismatch() {
    let patch: DeepDiff<Option<i32>, Option<AtomicDiff<i32>>> =
        DeepDiff::Patched(Some(AtomicDiff::Replaced(&5)));
    let mut absent: Option<i32> = None;
    assert_eq!(absent.apply(patch.clone()), Err(vec![ApplyError::MismatchingEnum]));
    assert_eq!(absent, None);
    let mut present = Some(1);
    assert_eq!(present.apply(patch), Ok(()));
    assert_eq!(present, Some(5));
    // an empty patch does not fit a present value
    let empty: DeepDiff<Option<i32>, Option<AtomicDiff<i32>>> = DeepDiff::Patched(None);
    let mut present = Some(1);
    assert_eq!(present.apply(empty.clone()), Err(vec![ApplyError::MismatchingEnum]));
    assert_eq!(present, Some(1));
}

#[test]
fn empty_option_patch_fits_an_absent_value() {
    let empty: DeepDiff<Option<i32>, Option<AtomicDiff<i32>>> = DeepDiff::Patched(None);
    let mut absent: Option<i32> = None;
    assert_eq!(absent.apply(empty), Ok(()));
    assert_eq!(absent, None);

    let patch: Option<AtomicDiff<i32>> = None;
    let mut source: Option<i32> = None;
    let mut errs = vec![];
    patch.apply_to_base(&mut source, &mut errs);
    assert!(errs.is_empty());
    assert_eq!(source, None);
}

// Boxes and tuples.

#[test]
fn boxes_are_transparent() {
    let a = Box::new(point(1, 2));
    let b = Box::new(point(1, 5));
    let d = a.diff(&b);
    assert!(!d.is_unchanged());
    assert!(!d.is_replaced());
    assert_eq!(
        *d,
        DeepDiff::Patched(PointDiff { x: AtomicDiff::Unchanged, y: AtomicDiff::Replaced(&5) })
    );
    let mut c = a.clone();
    c.apply(d).unwrap();
    assert_eq!(c, b);
    let whole = Box::new(point(7, 8));
    assert!(a.diff(&whole).is_replaced());
    assert!(a.diff(&a).is_unchanged());
}

#[test]
fn tuples_diff_position_by_position() {
    let a = (1i32, "a".to_string());
    let b = (1i32, "b".to_string());
    let c = (2i32, "b".to_string());
    let text = "b".to_string();
    assert_eq!(a.diff(&b), (AtomicDiff::Unchanged, AtomicDiff::Replaced(&text)));
    assert!(!a.diff(&b).is_unchanged());
    assert!(!a.diff(&b).is_replaced());
    assert!(a.diff(&c).is_replaced());
    assert!(a.diff(&a).is_unchanged());
    let mut d = a.clone();
    d.apply(a.diff(&c)).unwrap();
    assert_eq!(d, c);
}

#[test]
fn tuples_of_every_size_round_trip() {
    let mut t1 = (1u8,);
    t1.apply((1u8,).diff(&(2,))).unwrap();
    assert_eq!(t1, (2,));
    let a = (1u8, 2u16, 3u32, 4u64, 5i8, 6i16, 7i32, 8i64, true);
    let b = (1u8, 9u16, 3u32, 9u64, 5i8, 9i16, 7i32, 9i64, false);
    let d = a.diff(&b);
    assert!(d.0.is_unchanged() && d.1.is_replaced() && d.8.is_replaced());
    assert!(!d.is_unchanged() && !d.is_replaced());
    let mut c = a;
    c.apply(d).unwrap();
    assert_eq!(c, b);
    let a8 = (1u8, 2u16, 3u32, 4u64, 5i8, 6i16, 7i32, 8i64);
    let b8 = (2u8, 3u16, 4u32, 5u64, 6i8, 7i16, 8i32, 9i64);
    assert!(a8.diff(&b8).is_replaced());
    let mut c8 = a8;
    c8.apply(a8.diff(&b8)).unwrap();
    assert_eq!(c8, b8);
}

#[test]
fn tuple_patches_report_the_errors_of_every_position_in_order() {
    let patch = (Some(AtomicDiff::Replaced(&1)), Some(AtomicDiff::Replaced(&2)), None::<AtomicDiff<i32>>);
    let mut target: (Option<i32>, Option<i32>, Option<i32>) = (None, Some(0), Some(3));
    let mut errs = vec![ApplyError::MissingKey];
    patch.apply_to_base(&mut target, &mut errs);
    assert_eq!(
        errs,
        vec![ApplyError::MissingKey, ApplyError::MismatchingEnum, ApplyError::MismatchingEnum]
    );
    assert_eq!(target, (None, Some(2), Some(3)));
}

// Maps.

fn hash(entries: &[(u32, Point)]) -> HashMap<u32, Point> {
    entries.iter().cloned().collect()
}

fn tree(entries: &[(u32, Point)]) -> BTreeMap<u32, Point> {
    entries.iter().cloned().collect()
}

#[test]
fn map_patch_holds_only_the_changed_key() {
    let base = hash(&[(1, point(1, 1)), (2, point(2, 2)), (3, point(3, 3)), (4, point(4, 4))]);
    let mut target = base.clone();
    target.insert(3, point(3, 30));
    let diff = base.diff(&target);
    let expect: HashMap<u32, KvDiff<Point>> = [(
        3,
        KvDiff::Diff(DeepDiff::Patched(PointDiff {
            x: AtomicDiff::Unchanged,
            y: AtomicDiff::Replaced(&30),
        })),
    )]
    .into_iter()
    .collect();
    assert_eq!(diff, DeepDiff::Patched(expect));
    match &diff {
        DeepDiff::Patched(p) => assert_eq!(p.len(), 1),
        _ => panic!("expected a patch"),
    }
    let mut copy = base.clone();
    copy.apply(diff).unwrap();
    assert_eq!(copy, target);
}

#[test]
fn ordered_map_patch_holds_only_the_changed_key() {
    let base = tree(&[(1, point(1, 1)), (2, point(2, 2)), (3, point(3, 3)), (4, point(4, 4))]);
    let mut target = base.clone();
    target.insert(2, point(20, 2));
    let diff = base.diff(&target);
    let expect: BTreeMap<u32, KvDiff<Point>> = [(
        2,
        KvDiff::Diff(DeepDiff::Patched(PointDiff {
            x: AtomicDiff::Replaced(&20),
            y: AtomicDiff::Unchanged,
        })),
    )]
    .into_iter()
    .collect();
    assert_eq!(diff, DeepDiff::Patched(expect));
    let mut copy = base.clone();
    copy.apply(diff).unwrap();
    assert_eq!(copy, target);
}

#[test]
fn map_diff_records_removals_insertions_and_changes() {
    let base = hash(&[(1, point(1, 1)), (2, point(2, 2)), (3, point(3, 3))]);
    let target = hash(&[(2, point(2, 20)), (3, point(3, 3)), (4, point(4, 4))]);
    let diff = base.diff(&target);
    let four = point(4, 4);
    let expect: HashMap<u32, KvDiff<Point>> = [
        (1, KvDiff::Removed),
        (
            2,
            KvDiff::Diff(DeepDiff::Patched(PointDiff {
                x: AtomicDiff::Unchanged,
                y: AtomicDiff::Replaced(&20),
            })),
        ),
        (4, KvDiff::Inserted(&four)),
    ]
    .into_iter()
    .collect();
    assert_eq!(diff, DeepDiff::Patched(expect));
    let mut copy = base.clone();
    copy.apply(diff).unwrap();
    assert_eq!(copy, target);
}

#[test]
fn ordered_map_diff_records_removals_insertions_and_changes() {
    let base = tree(&[(1, point(1, 1)), (2, point(2, 2)), (3, point(3, 3))]);
    let target = tree(&[(2, point(2, 20)), (3, point(3, 3)), (4, point(4, 4))]);
    let diff = base.diff(&target);
    let four = point(4, 4);
    let expect: BTreeMap<u32, KvDiff<Point>> = [
        (1, KvDiff::Removed),
        (
            2,
            KvDiff::Diff(DeepDiff::Patched(PointDiff {
                x: AtomicDiff::Unchanged,
                y: AtomicDiff::Replaced(&20),
            })),
        ),
        (4, KvDiff::Inserted(&four)),
    ]
    .into_iter()
    .collect();
    assert_eq!(diff, DeepDiff::Patched(expect));
    let mut copy = base.clone();
    copy.apply(diff).unwrap();
    assert_eq!(copy, target);
}

#[test]
fn map_of_whole_changes_collapses_to_replaced() {
    // every recorded entry is a removal, an insertion or a replacement
    let base = hash(&[(1, point(1, 1)), (2, point(2, 2)), (3, point(3, 3))]);
    let target = hash(&[(2, point(20, 20)), (3, point(3, 3)), (4, point(4, 4))]);
    assert_eq!(base.diff(&target), DeepDiff::Replaced(&target));
    let mut copy = base.clone();
    copy.apply(base.diff(&target)).unwrap();
    assert_eq!(copy, target);

    let leaves: HashMap<i32, i32> = [(1, 1), (2, 2)].into_iter().collect();
    let changed: HashMap<i32, i32> = [(1, 1), (2, 3)].into_iter().collect();
    assert_eq!(leaves.diff(&changed), DeepDiff::Replaced(&changed));

    let ordered: BTreeMap<i32, i32> = [(1, 1), (2, 2)].into_iter().collect();
    let grown: BTreeMap<i32, i32> = [(1, 1), (2, 2), (3, 3)].into_iter().collect();
    assert_eq!(ordered.diff(&grown), DeepDiff::Replaced(&grown));
    assert_eq!(grown.diff(&ordered), DeepDiff::Replaced(&ordered));
    let empty: BTreeMap<i32, i32> = BTreeMap::new();
    assert_eq!(empty.diff(&empty), DeepDiff::Unchanged);
    assert_eq!(empty.diff(&grown), DeepDiff::Replaced(&grown));
}

#[test]
fn maps_round_trip() {
    let maps = [
        hash(&[]),
        hash(&[(1, point(1, 1))]),
        hash(&[(1, point(1, 2)), (2, point(2, 2))]),
        hash(&[(1, point(9, 9)), (3, point(3, 3))]),
        hash(&[(2, point(2, 2)), (3, point(3, 4)), (4, point(4, 4))]),
    ];
    for a in &maps {
        for b in &maps {
            let mut c = a.clone();
            c.apply(a.diff(b)).unwrap();
            assert_eq!(&c, b);
        }
    }
    let trees = [
        tree(&[]),
        tree(&[(1, point(1, 1))]),
        tree(&[(1, point(1, 2)), (2, point(2, 2))]),
        tree(&[(1, point(9, 9)), (3, point(3, 3))]),
        tree(&[(2, point(2, 2)), (3, point(3, 4)), (4, point(4, 4))]),
    ];
    for a in &trees {
        for b in &trees {
            let mut c = a.clone();
            c.apply(a.diff(b)).unwrap();
            assert_eq!(&c, b);
        }
    }
}

#[test]
fn map_patch_errors_accumulate() {
    let extra = point(7, 7);
    let patch: HashMap<u32, KvDiff<Point>> = [
        (9, KvDiff::Removed),          // the map lacks the key
        (1, KvDiff::Inserted(&extra)), // the map holds the key
        (2, KvDiff::Removed),
        (5, KvDiff::Inserted(&extra)),
        (
            3,
            KvDiff::Diff(DeepDiff::Patched(PointDiff {
                x: AtomicDiff::Replaced(&30),
                y: AtomicDiff::Unchanged,
            })),
        ),
        (8, KvDiff::Diff(DeepDiff::Unchanged)), // the map lacks the key
    ]
    .into_iter()
    .collect();
    let mut map = hash(&[(1, point(1, 1)), (2, point(2, 2)), (3, point(3, 3))]);
    let mut errs = Vec::new();
    patch.apply_to_base(&mut map, &mut errs);
    errs.sort();
    assert_eq!(
        errs,
        vec![ApplyError::MissingKey, ApplyError::MissingKey, ApplyError::UnexpectedKey]
    );
    // the present key is not overwritten, the rest is applied
    assert_eq!(map, hash(&[(1, point(1, 1)), (3, point(30, 3)), (5, point(7, 7))]));
}

#[test]
fn ordered_map_patch_errors_accumulate() {
    let extra = point(7, 7);
    let patch: BTreeMap<u32, KvDiff<Point>> = [
        (9, KvDiff::Removed),
        (1, KvDiff::Inserted(&extra)),
        (2, KvDiff::Removed),
        (5, KvDiff::Inserted(&extra)),
        (
            3,
            KvDiff::Diff(DeepDiff::Patched(PointDiff {
                x: AtomicDiff::Replaced(&30),
                y: AtomicDiff::Unchanged,
            })),
        ),
        (8, KvDiff::Diff(DeepDiff::Unchanged)),
    ]
    .into_iter()
    .collect();
    let mut map = tree(&[(1, point(1, 1)), (2, point(2, 2)), (3, point(3, 3))]);
    let mut errs = vec![ApplyError::MismatchingEnum];
    patch.apply_to_base(&mut map, &mut errs);
    // what was in the list stays in front
    assert_eq!(errs[0], ApplyError::MismatchingEnum);
    errs.sort();
    assert_eq!(
        errs,
        vec![
            ApplyError::MismatchingEnum,
            ApplyError::MissingKey,
            ApplyError::MissingKey,
            ApplyError::UnexpectedKey
        ]
    );
    assert_eq!(map, tree(&[(1, point(1, 1)), (3, point(30, 3)), (5, point(7, 7))]));
}

#[test]
fn nested_errors_reach_the_top() {
    let patch: HashMap<u32, KvDiff<Option<i32>>> =
        [(1, KvDiff::Diff(DeepDiff::Patched(Some(AtomicDiff::Replaced(&5)))))].into_iter().collect();
    let mut map: HashMap<u32, Option<i32>> = [(1, None)].into_iter().collect();
    assert_eq!(map.apply(DeepDiff::Patched(patch)), Err(vec![ApplyError::MismatchingEnum]));
    assert_eq!(map.get(&1), Some(&None));
}

#[test]
fn apply_reports_success_without_errors() {
    let mut map = hash(&[(1, point(1, 1))]);
    assert_eq!(map.apply(DeepDiff::Unchanged), Ok(()));
    let target = hash(&[(2, point(2, 2))]);
    assert_eq!(map.apply(DeepDiff::Replaced(&target)), Ok(()));
    assert_eq!(map, target);
}

// The text of the errors.

#[test]
fn error_messages() {
    assert_eq!(ApplyError::MismatchingEnum.message(), "enum mismatch");
    assert_eq!(ApplyError::MissingKey.message(), "missing key");
    assert_eq!(ApplyError::UnexpectedKey.message(), "unexpected key");
}

#[test]
fn errors_are_ordered_as_declared() {
    assert!(ApplyError::MismatchingEnum < ApplyError::MissingKey);
    assert!(ApplyError::MissingKey < ApplyError::UnexpectedKey);
}
