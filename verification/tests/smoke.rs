use std::collections::HashMap;

use difficient::{Apply, ApplyError, AtomicDiff, DeepDiff, Diffable, KvDiff, Replace};

#[derive(Debug, Clone, PartialEq)]
struct Parent {
    c1: Child1,
    c2: Vec<Child1>,
    c3: HashMap<i32, Child2>,
    val: String,
}

#[derive(Debug, Clone, PartialEq)]
struct Child1 {
    x: i32,
    y: String,
}

#[derive(Debug, Clone, PartialEq)]
struct Child2 {
    a: String,
    b: SomeChild,
    c: (),
}

#[derive(Debug, Clone, PartialEq)]
enum SomeChild {
    C1(Child1),
    C2(Box<Child2>),
}

impl<'a> Diffable<'a> for Parent {
    type Diff = DeepDiff<'a, Self, ParentDiff<'a>>;

    fn diff(&self, other: &'a Self) -> Self::Diff {
        let c1 = self.c1.diff(&other.c1);
        let c2 = self.c2.diff(&other.c2);
        let c3 = self.c3.diff(&other.c3);
        let val = self.val.diff(&other.val);
        if c1.is_unchanged() && c2.is_unchanged() && c3.is_unchanged() && val.is_unchanged() {
            DeepDiff::Unchanged
        } else if c1.is_replaced() && c2.is_replaced() && c3.is_replaced() && val.is_replaced() {
            DeepDiff::Replaced(other)
        } else {
            DeepDiff::Patched(ParentDiff { c1, c2, c3, val })
        }
    }
}

#[derive(Debug, Clone, PartialEq)]
struct ParentDiff<'a> {
    c1: <Child1 as Diffable<'a>>::Diff,
    c2: <Vec<Child1> as Diffable<'a>>::Diff,
    c3: <HashMap<i32, Child2> as Diffable<'a>>::Diff,
    val: <String as Diffable<'a>>::Diff,
}

impl<'a> Apply for ParentDiff<'a> {
    type Parent = Parent;

    fn apply_to_base(&self, source: &mut Self::Parent, errs: &mut Vec<ApplyError>) {
        self.c1.apply_to_base(&mut source.c1, errs);
        self.c2.apply_to_base(&mut source.c2, errs);
        self.c3.apply_to_base(&mut source.c3, errs);
        self.val.apply_to_base(&mut source.val, errs);
    }
}

impl<'a> Diffable<'a> for Child1 {
    type Diff = DeepDiff<'a, Self, Child1Diff<'a>>;

    fn diff(&self, other: &'a Self) -> Self::Diff {
        let x = self.x.diff(&other.x);
        let y = self.y.diff(&other.y);
        if x.is_unchanged() && y.is_unchanged() {
            DeepDiff::Unchanged
        } else if x.is_replaced() && y.is_replaced() {
            DeepDiff::Replaced(other)
        } else {
            DeepDiff::Patched(Child1Diff { x, y })
        }
    }
}

#[derive(Debug, Clone, PartialEq)]
struct Child1Diff<'a> {
    x: <i32 as Diffable<'a>>::Diff,
    y: <String as Diffable<'a>>::Diff,
}

impl<'a> Apply for Child1Diff<'a> {
    type Parent = Child1;

    fn apply_to_base(&self, source: &mut Self::Parent, errs: &mut Vec<ApplyError>) {
        self.x.apply_to_base(&mut source.x, errs);
        self.y.apply_to_base(&mut source.y, errs);
    }
}

impl<'a> Diffable<'a> for Child2 {
    type Diff = DeepDiff<'a, Self, Child2Diff<'a>>;

    fn diff(&self, other: &'a Self) -> Self::Diff {
        let a = self.a.diff(&other.a);
        let b = self.b.diff(&other.b);
        let c = self.c.diff(&other.c);
        if a.is_unchanged() && b.is_unchanged() && c.is_unchanged() {
            DeepDiff::Unchanged
        } else if a.is_replaced() && b.is_replaced() && c.is_replaced() {
            DeepDiff::Replaced(other)
        } else {
            DeepDiff::Patched(Child2Diff { a, b, c })
        }
    }
}

#[derive(Debug, Clone, PartialEq)]
struct Child2Diff<'a> {
    a: <String as Diffable<'a>>::Diff,
    b: <SomeChild as Diffable<'a>>::Diff,
    c: <() as Diffable<'a>>::Diff,
}

impl<'a> Apply for Child2Diff<'a> {
    type Parent = Child2;

    fn apply_to_base(&self, source: &mut Self::Parent, errs: &mut Vec<ApplyError>) {
        self.a.apply_to_base(&mut source.a, errs);
        self.b.apply_to_base(&mut source.b, errs);
        self.c.apply_to_base(&mut source.c, errs);
    }
}

impl<'a> Diffable<'a> for SomeChild {
    type Diff = DeepDiff<'a, SomeChild, SomeChildDiff<'a>>;

    fn diff(&self, other: &'a Self) -> Self::Diff {
        match (self, other) {
            (Self::C1(left), Self::C1(right)) => {
                let this = left.diff(right);
                if this.is_unchanged() {
                    DeepDiff::Unchanged
                } else if this.is_replaced() {
                    DeepDiff::Replaced(other)
                } else {
                    DeepDiff::Patched(SomeChildDiff::C1(this))
                }
            }
            (Self::C2(left), Self::C2(right)) => {
                let this = left.diff(right);
                if this.is_unchanged() {
                    DeepDiff::Unchanged
                } else if this.is_replaced() {
                    DeepDiff::Replaced(other)
                } else {
                    DeepDiff::Patched(SomeChildDiff::C2(this))
                }
            }
            _ => DeepDiff::Replaced(other),
        }
    }
}

#[derive(Debug, Clone, PartialEq)]
enum SomeChildDiff<'a> {
    C1(<Child1 as Diffable<'a>>::Diff),
    C2(Box<<Child2 as Diffable<'a>>::Diff>),
}

impl<'a> Apply for SomeChildDiff<'a> {
    type Parent = SomeChild;

    fn apply_to_base(&self, source: &mut Self::Parent, errs: &mut Vec<ApplyError>) {
        match (self, source) {
            (SomeChildDiff::C1(diff), SomeChild::C1(src)) => diff.apply_to_base(src, errs),
            (SomeChildDiff::C2(diff), SomeChild::C2(src)) => diff.apply_to_base(src, errs),
            _ => errs.push(ApplyError::MismatchingEnum),
        }
    }
}

fn dummy_child2() -> Child2 {
    Child2 {
        a: "ayeaye".into(),
        b: SomeChild::C1(Child1 {
            x: 222,
            y: "uuu".into(),
        }),
        c: (),
    }
}

fn base() -> Parent {
    Parent {
        c1: Child1 {
            x: 123,
            y: "me".into(),
        },
        c2: vec![Child1 {
            x: 234,
            y: "yazoo".into(),
        }],
        c3: [(
            321,
            Child2 {
                a: "ayeaye".into(),
                b: SomeChild::C2(Box::new(dummy_child2())),
                c: (),
            },
        )]
        .into_iter()
        .collect(),
        val: "hello".into(),
    }
}

#[test]
fn smoke_test() {
    let base = base();

    {
        let mut left = base.clone();
        let right = base.clone();
        let diff = left.diff(&right);
        assert!(matches!(diff, DeepDiff::Unchanged));
        left.apply(diff).unwrap();
        assert_eq!(left, base);
    }

    let mello = "mello".to_string();

    {
        let mut before = base.clone();
        let mut after = before.clone();
        after.val = mello.clone();
        let diff = before.diff(&after);
        let expect = DeepDiff::Patched(ParentDiff {
            c1: DeepDiff::Unchanged,
            c2: AtomicDiff::Unchanged,
            c3: DeepDiff::Unchanged,
            val: AtomicDiff::Replaced(&mello),
        });
        assert_eq!(diff, expect);
        before.apply(diff).unwrap();
    }

    {
        let mut victim = base.clone();
        let dummy = dummy_child2();
        let bad_patch = DeepDiff::Patched(ParentDiff {
            c1: DeepDiff::Unchanged,
            c2: AtomicDiff::Unchanged,
            c3: DeepDiff::Patched(
                [
                    (543, KvDiff::Removed),          // key does not exist
                    (321, KvDiff::Inserted(&dummy)), // key already exists
                ]
                .into_iter()
                .collect(),
            ),
            val: AtomicDiff::Replaced(&mello),
        });
        let mut err = victim.apply(bad_patch).unwrap_err();
        err.sort();
        assert_eq!(err, [ApplyError::MissingKey, ApplyError::UnexpectedKey]);
    }
}

#[test]
fn one_changed_field_round_trips() {
    let base = base();
    let mut before = base.clone();
    let mut after = base.clone();
    after.val = "mello".to_string();
    let diff = before.diff(&after);
    before.apply(diff).unwrap();
    assert_eq!(before, after);
}

#[test]
fn bad_patch_still_applies_the_rest() {
    let base = base();
    let mello = "mello".to_string();
    let dummy = dummy_child2();
    let mut victim = base.clone();
    let bad_patch = DeepDiff::Patched(ParentDiff {
        c1: DeepDiff::Unchanged,
        c2: AtomicDiff::Unchanged,
        c3: DeepDiff::Patched(
            [
                (543, KvDiff::Removed),
                (321, KvDiff::Inserted(&dummy)),
                (7, KvDiff::Inserted(&dummy)),
            ]
            .into_iter()
            .collect(),
        ),
        val: AtomicDiff::Replaced(&mello),
    });
    let mut err = victim.apply(bad_patch).unwrap_err();
    err.sort();
    assert_eq!(err, [ApplyError::MissingKey, ApplyError::UnexpectedKey]);
    // the value is replaced and the unrelated key is inserted
    assert_eq!(victim.val, "mello");
    assert_eq!(victim.c3.get(&7), Some(&dummy));
    // the key that was there keeps its value
    assert_eq!(victim.c3.get(&321), base.c3.get(&321));
    assert_eq!(victim.c3.len(), 2);
}
