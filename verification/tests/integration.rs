use difficient::{Apply, ApplyError, AtomicDiff, DeepDiff, Diffable, Id, Replace};

// A struct with named fields, and its patch.

#[derive(PartialEq, Debug, Clone)]
struct SimpleStruct {
    x: String,
    y: i32,
}

#[derive(Debug, Clone, PartialEq)]
struct SimpleStructDiff<'a> {
    x: <String as Diffable<'a>>::Diff,
    y: <i32 as Diffable<'a>>::Diff,
}

impl<'a> Diffable<'a> for SimpleStruct {
    type Diff = DeepDiff<'a, Self, SimpleStructDiff<'a>>;

    fn diff(&self, other: &'a Self) -> Self::Diff {
        let x = self.x.diff(&other.x);
        let y = self.y.diff(&other.y);
        DeepDiff::from_children(
            x.is_unchanged() && y.is_unchanged(),
            x.is_replaced() && y.is_replaced(),
            SimpleStructDiff { x, y },
            other,
        )
    }
}

impl<'a> Apply for SimpleStructDiff<'a> {
    type Parent = SimpleStruct;

    fn apply_to_base(&self, source: &mut Self::Parent, errs: &mut Vec<ApplyError>) {
        self.x.apply_to_base(&mut source.x, errs);
        self.y.apply_to_base(&mut source.y, errs);
    }
}

// A struct with one deeply nested field.

#[derive(PartialEq, Debug, Clone)]
struct StrangeStruct {
    tried: Option<Box<(u32, (&'static str, Box<u64>))>>,
}

#[derive(Debug, Clone, PartialEq)]
struct StrangeStructDiff<'a> {
    tried: <Option<Box<(u32, (&'static str, Box<u64>))>> as Diffable<'a>>::Diff,
}

impl<'a> Diffable<'a> for StrangeStruct {
    type Diff = DeepDiff<'a, Self, StrangeStructDiff<'a>>;

    fn diff(&self, other: &'a Self) -> Self::Diff {
        let tried = self.tried.diff(&other.tried);
        DeepDiff::from_children(
            tried.is_unchanged(),
            tried.is_replaced(),
            StrangeStructDiff { tried },
            other,
        )
    }
}

impl<'a> Apply for StrangeStructDiff<'a> {
    type Parent = StrangeStruct;

    fn apply_to_base(&self, source: &mut Self::Parent, errs: &mut Vec<ApplyError>) {
        self.tried.apply_to_base(&mut source.tried, errs);
    }
}

// A struct without fields.

#[derive(PartialEq, Debug, Clone)]
struct Unit;

impl<'a> Diffable<'a> for Unit {
    type Diff = Id<Self>;

    fn diff(&self, _other: &'a Self) -> Self::Diff {
        Id::new()
    }
}

// A struct with positional fields.

#[derive(PartialEq, Debug, Clone)]
struct Tuple(Vec<&'static str>, i32);

#[derive(Debug, Clone, PartialEq)]
struct TupleDiff<'a>(
    <Vec<&'static str> as Diffable<'a>>::Diff,
    <i32 as Diffable<'a>>::Diff,
);

impl<'a> Diffable<'a> for Tuple {
    type Diff = DeepDiff<'a, Self, TupleDiff<'a>>;

    fn diff(&self, other: &'a Self) -> Self::Diff {
        let f0 = self.0.diff(&other.0);
        let f1 = self.1.diff(&other.1);
        DeepDiff::from_children(
            f0.is_unchanged() && f1.is_unchanged(),
            f0.is_replaced() && f1.is_replaced(),
            TupleDiff(f0, f1),
            other,
        )
    }
}

impl<'a> Apply for TupleDiff<'a> {
    type Parent = Tuple;

    fn apply_to_base(&self, source: &mut Self::Parent, errs: &mut Vec<ApplyError>) {
        self.0.apply_to_base(&mut source.0, errs);
        self.1.apply_to_base(&mut source.1, errs);
    }
}

// An enum with a variant of each style.

#[derive(PartialEq, Debug, Clone)]
enum SimpleEnum {
    First,
    Second(i32),
    Third { x: String, y: () },
}

#[derive(Debug, Clone, PartialEq)]
#[allow(dead_code)]
enum SimpleEnumDiff<'a> {
    First,
    Second(<i32 as Diffable<'a>>::Diff),
    Third {
        x: <String as Diffable<'a>>::Diff,
        y: <() as Diffable<'a>>::Diff,
    },
}

impl<'a> Diffable<'a> for SimpleEnum {
    type Diff = DeepDiff<'a, Self, SimpleEnumDiff<'a>>;

    fn diff(&self, other: &'a Self) -> Self::Diff {
        match (self, other) {
            (Self::First, Self::First) => DeepDiff::Unchanged,
            (Self::Second(left_0), Self::Second(right_0)) => {
                let f0 = left_0.diff(right_0);
                DeepDiff::from_children(
                    f0.is_unchanged(),
                    f0.is_replaced(),
                    SimpleEnumDiff::Second(f0),
                    other,
                )
            }
            (Self::Third { x: left_x, y: left_y }, Self::Third { x: right_x, y: right_y }) => {
                let x = left_x.diff(right_x);
                let y = left_y.diff(right_y);
                DeepDiff::from_children(
                    x.is_unchanged() && y.is_unchanged(),
                    x.is_replaced() && y.is_replaced(),
                    SimpleEnumDiff::Third { x, y },
                    other,
                )
            }
            _ => DeepDiff::Replaced(other),
        }
    }
}

impl<'a> Apply for SimpleEnumDiff<'a> {
    type Parent = SimpleEnum;

    fn apply_to_base(&self, source: &mut Self::Parent, errs: &mut Vec<ApplyError>) {
        match (self, source) {
            (Self::First, SimpleEnum::First) => {}
            (Self::Second(left_0), SimpleEnum::Second(right_0)) => {
                left_0.apply_to_base(right_0, errs);
            }
            (
                Self::Third { x: left_x, y: left_y },
                SimpleEnum::Third { x: right_x, y: right_y },
            ) => {
                left_x.apply_to_base(right_x, errs);
                left_y.apply_to_base(right_y, errs);
            }
            _ => errs.push(ApplyError::MismatchingEnum),
        }
    }
}

#[test]
fn integration_test_simple_struct() {
    let mut it1 = SimpleStruct {
        x: "hello".into(),
        y: 123,
    };
    let it2 = SimpleStruct {
        x: "bye".into(),
        y: 123,
    };
    let diff = it1.diff(&it2);
    it1.apply(diff).unwrap();
    assert_eq!(it1, it2);
}

#[test]
fn test_less_simple_struct() {
    let mut it1 = StrangeStruct {
        tried: Some(Box::new((123, ("ick", Box::new(543))))),
    };
    let it2 = StrangeStruct {
        tried: Some(Box::new((123, ("flick", Box::new(543))))),
    };
    let diff = it1.diff(&it2);
    it1.apply(diff).unwrap();
    assert_eq!(it1, it2);
}

#[test]
fn test_unit_struct() {
    let mut it1 = Unit;
    let it2 = Unit;
    let diff = it1.diff(&it2);
    it1.apply(diff).unwrap();
    assert_eq!(it1, it2);
}

#[test]
fn test_tuple_struct() {
    let mut it1 = Tuple(vec!["first", "second"], 123);
    let it2 = Tuple(vec!["second", "third"], 123);
    let diff = it1.diff(&it2);
    it1.apply(diff).unwrap();
    assert_eq!(it1, it2);
}

#[test]
fn test_simple_enum() {
    let mut it1 = SimpleEnum::First;
    let mut it2 = SimpleEnum::Second(123);
    let mut it3 = SimpleEnum::Third {
        x: "work work".into(),
        y: (),
    };
    let it4 = SimpleEnum::Third {
        x: "twork".into(),
        y: (),
    };

    {
        let diff = it1.diff(&it2);
        it1.apply(diff).unwrap();
        assert_eq!(it1, it2);
    }

    {
        let diff = it2.diff(&it3);
        it2.apply(diff).unwrap();
        assert_eq!(it2, it3);
    }

    {
        let diff = it3.diff(&it4);
        it3.apply(diff).unwrap();
        assert_eq!(it3, it4);
    }
}

#[test]
fn simple_enum_patch_shapes() {
    let first = SimpleEnum::First;
    assert_eq!(first.diff(&first), DeepDiff::Unchanged);

    let second = SimpleEnum::Second(123);
    assert_eq!(first.diff(&second), DeepDiff::Replaced(&second));

    let third1 = SimpleEnum::Third { x: "hello".into(), y: () };
    let third2 = SimpleEnum::Third { x: "goodbye".into(), y: () };
    let goodbye = "goodbye".to_string();
    assert_eq!(
        third1.diff(&third2),
        DeepDiff::Patched(SimpleEnumDiff::Third {
            x: AtomicDiff::Replaced(&goodbye),
            y: Id::new(),
        })
    );
}

#[test]
fn simple_enum_patch_for_another_variant_changes_nothing() {
    let patch = DeepDiff::Patched(SimpleEnumDiff::Second(AtomicDiff::Replaced(&7)));
    let mut target = SimpleEnum::Third { x: "kept".into(), y: () };
    let errs = target.apply(patch).unwrap_err();
    assert_eq!(errs, vec![ApplyError::MismatchingEnum]);
    assert_eq!(target, SimpleEnum::Third { x: "kept".into(), y: () });
}
