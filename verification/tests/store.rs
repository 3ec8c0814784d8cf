use snowflake::tag::{Tag, TagName, UniverseOperationOp};
use snowflake::universe::{
    Binding, BindingBuilder, Universe, UniverseBuilder, UniverseError, UniverseOperationBuilder,
};

fn primary(name: &str) -> TagName {
    TagName::Primary(String::from(name))
}

fn secondary(name: &str) -> TagName {
    TagName::Secondary(String::from(name))
}

fn insert_under(u: &mut Universe<i64>, name: &str, value: i64, tags: Vec<TagName>) -> Result<usize, UniverseError> {
    let mut b: BindingBuilder<i64> = BindingBuilder::new();
    b.set_name(String::from(name));
    b.set_value(value);
    for t in tags {
        b.add_tag(t);
    }
    u.insert(b).map(|e| e.binding)
}

#[test]
fn binding_identity_is_the_name_alone() {
    let a = Binding { name: String::from("n"), value: 1i64 };
    let b = Binding { name: String::from("n"), value: 2i64 };
    let c = Binding { name: String::from("m"), value: 1i64 };
    assert_eq!(a, b);
    assert_ne!(a, c);
}

#[test]
fn insert_duplicate_in_primary_fails_and_keeps_first() {
    let mut u: Universe<i64> = Universe::default();
    let first = insert_under(&mut u, "n", 10, vec![primary("P")]).unwrap();
    let second = insert_under(&mut u, "n", 20, vec![primary("P")]);
    assert_eq!(second, Err(UniverseError::DuplicateBindingName));
    let b = u.get(first).unwrap();
    assert_eq!(b.name, String::from("n"));
    assert_eq!(b.value, 10);
}

#[test]
fn same_name_in_secondary_tags_succeeds() {
    let mut u: Universe<i64> = Universe::default();
    insert_under(&mut u, "n", 1, vec![secondary("a")]).unwrap();
    insert_under(&mut u, "n", 2, vec![secondary("b")]).unwrap();
    insert_under(&mut u, "n", 3, vec![secondary("a")]).unwrap();
    insert_under(&mut u, "n", 4, vec![secondary("c"), primary("P")]).unwrap();
    assert_eq!(u.get(3).unwrap().value, 4);
}

#[test]
fn insert_hands_out_consecutive_identifiers() {
    let mut u: Universe<i64> = Universe::default();
    assert_eq!(insert_under(&mut u, "a", 1, vec![secondary("s")]).unwrap(), 0);
    assert_eq!(insert_under(&mut u, "b", 2, vec![secondary("s")]).unwrap(), 1);
    assert_eq!(insert_under(&mut u, "c", 3, vec![]).unwrap(), 2);
    assert!(u.get(3).is_none());
}

#[test]
fn builder_remove_tag_filters_request() {
    let mut b: BindingBuilder<i64> = BindingBuilder::new();
    b.add_tag(secondary("x"));
    b.add_tag(secondary("y"));
    b.add_tag(secondary("x"));
    let b = b.remove_tag(secondary("x"));
    assert_eq!(b.tags, vec![secondary("y")]);
}

#[test]
fn universe_builder_capacities() {
    let mut builder = UniverseBuilder::new();
    builder.with_tag_hashmap_capacity(8);
    builder.with_binding_arena_capacity(16);
    assert_eq!(builder.tag_hashmap_capacity, Some(8));
    assert_eq!(builder.binding_arena_capacity, Some(16));
    let mut u: Universe<i64> = Universe::new(&builder);
    assert_eq!(insert_under(&mut u, "a", 1, vec![]).unwrap(), 0);
}

fn algebra_universe() -> Universe<i64> {
    let mut u: Universe<i64> = Universe::default();
    // primary "pa" holds ids {0, 1}; secondary "sb" holds ids {1, 2}
    insert_under(&mut u, "one", 1, vec![primary("pa")]).unwrap();
    insert_under(&mut u, "two", 2, vec![primary("pa"), secondary("sb")]).unwrap();
    insert_under(&mut u, "three", 3, vec![secondary("sb")]).unwrap();
    u
}

fn run_op(u: &Universe<i64>, a: TagName, b: TagName, op: UniverseOperationOp) -> Result<Tag, UniverseError> {
    let mut request = UniverseOperationBuilder::new();
    request.sets((a, b));
    request.set_operation(op);
    u.execute(&request)
}

#[test]
fn execute_union_contents() {
    let u = algebra_universe();
    let t = run_op(&u, primary("pa"), secondary("sb"), UniverseOperationOp::Union).unwrap();
    assert_eq!(t.as_slice(), &vec![0usize, 1, 2]);
}

#[test]
fn execute_intersection_contents() {
    let u = algebra_universe();
    let t = run_op(&u, primary("pa"), secondary("sb"), UniverseOperationOp::Intersection)
        .unwrap();
    assert_eq!(t.as_slice(), &vec![1usize]);
}

#[test]
fn execute_difference_contents() {
    let u = algebra_universe();
    let t = run_op(&u, primary("pa"), secondary("sb"), UniverseOperationOp::Difference).unwrap();
    assert_eq!(t.as_slice(), &vec![0usize]);
    let t = run_op(&u, secondary("sb"), primary("pa"), UniverseOperationOp::Difference).unwrap();
    assert_eq!(t.as_slice(), &vec![2usize]);
}

#[test]
fn execute_symmetric_difference_contents() {
    let u = algebra_universe();
    let t = run_op(&u, primary("pa"), secondary("sb"), UniverseOperationOp::SymmetricDifference)
        .unwrap();
    assert_eq!(t.as_slice(), &vec![0usize, 2]);
}

#[test]
fn execute_same_tag_is_identity_for_intersection() {
    let u = algebra_universe();
    let t = run_op(&u, primary("pa"), primary("pa"), UniverseOperationOp::Intersection).unwrap();
    assert!(matches!(t, Tag::Primary(_)));
    assert_eq!(t.as_slice(), &vec![0usize, 1]);
}

#[test]
fn execute_same_tag_difference_is_empty() {
    let u = algebra_universe();
    let t = run_op(&u, primary("pa"), primary("pa"), UniverseOperationOp::Difference).unwrap();
    assert!(matches!(t, Tag::Primary(_)));
    assert_eq!(t.as_slice(), &Vec::<usize>::new());
}

#[test]
fn execute_same_tag_union_keeps_members_reclassified() {
    let u = algebra_universe();
    let t = run_op(&u, primary("pa"), primary("pa"), UniverseOperationOp::Union).unwrap();
    assert!(matches!(t, Tag::Secondary(_)));
    assert_eq!(t.as_slice(), &vec![0usize, 1]);
}

#[test]
fn execute_result_kind_table() {
    let u = algebra_universe();
    let p = || primary("pa");
    let s = || secondary("sb");
    let cases: Vec<(TagName, TagName, UniverseOperationOp, bool)> = vec![
        (p(), p(), UniverseOperationOp::Union, false),
        (p(), s(), UniverseOperationOp::Union, false),
        (s(), p(), UniverseOperationOp::Union, false),
        (s(), s(), UniverseOperationOp::Union, false),
        (p(), p(), UniverseOperationOp::Intersection, true),
        (p(), s(), UniverseOperationOp::Intersection, true),
        (s(), p(), UniverseOperationOp::Intersection, true),
        (s(), s(), UniverseOperationOp::Intersection, false),
        (p(), p(), UniverseOperationOp::Difference, true),
        (p(), s(), UniverseOperationOp::Difference, true),
        (s(), p(), UniverseOperationOp::Difference, false),
        (s(), s(), UniverseOperationOp::Difference, false),
        (p(), p(), UniverseOperationOp::SymmetricDifference, true),
        (p(), s(), UniverseOperationOp::SymmetricDifference, false),
        (s(), p(), UniverseOperationOp::SymmetricDifference, false),
        (s(), s(), UniverseOperationOp::SymmetricDifference, false),
    ];
    for (a, b, op, expect_primary) in cases {
        let t = run_op(&u, a, b, op).unwrap();
        assert_eq!(t.is_primary(), expect_primary);
    }
}

#[test]
fn execute_incomplete_request() {
    let u = algebra_universe();
    let request = UniverseOperationBuilder::new();
    assert_eq!(u.execute(&request), Err(UniverseError::IncompleteAlgebraRequest));
    let mut request = UniverseOperationBuilder::new();
    request.sets((primary("pa"), secondary("sb")));
    assert_eq!(u.execute(&request), Err(UniverseError::IncompleteAlgebraRequest));
    let mut request = UniverseOperationBuilder::new();
    request.set_operation(UniverseOperationOp::Union);
    assert_eq!(u.execute(&request), Err(UniverseError::IncompleteAlgebraRequest));
}

#[test]
fn execute_unknown_tag() {
    let u = algebra_universe();
    assert_eq!(
        run_op(&u, primary("missing"), secondary("sb"), UniverseOperationOp::Union),
        Err(UniverseError::UnknownTagReference)
    );
    assert_eq!(
        run_op(&u, primary("pa"), secondary("missing"), UniverseOperationOp::Union),
        Err(UniverseError::UnknownTagReference)
    );
    // a secondary name does not resolve against a primary tag of the same text
    assert_eq!(
        run_op(&u, secondary("pa"), secondary("sb"), UniverseOperationOp::Union),
        Err(UniverseError::UnknownTagReference)
    );
}
