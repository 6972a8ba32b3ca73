use tilemap::color::blockstate::BlockState;
use tilemap::color::blockstate::Expression;

fn bs(s: &str) -> Vec<u8> {
    s.as_bytes().to_vec()
}

#[test]
fn ground_state_serves_every_query() {
    // with an empty key table and strict off, any predicate list earns the
    // mask-0 value
    let mut e = Expression::default();
    e.insert_value_unchecked(0, 42);
    assert_eq!(e.get(&vec![], false), Some(42));
    assert_eq!(e.get(&vec![bs("a=1")], false), Some(42));
    assert_eq!(e.get(&vec![bs("a=1"), bs("weird=thing")], false), Some(42));
}

#[test]
fn fresh_bits_are_assigned_in_order() {
    let mut e = Expression::default();
    let m1 = e.insert(&vec![bs("a=1"), bs("b=2")], 10);
    assert_eq!(m1, Some(3));
    let m2 = e.insert(&vec![bs("a=1")], 20);
    assert_eq!(m2, Some(1));
    let m3 = e.insert(&vec![bs("c=3")], 30);
    assert_eq!(m3, Some(4));
    assert_eq!(e.size(), (3, 3));
}

#[test]
fn variants_strict_matching() {
    // {a=1,b=2} -> 10 and {a=1} -> 20; strict lookups match exactly, and a
    // foreign predicate aborts the lookup
    let mut e = Expression::default();
    e.insert(&vec![bs("a=1"), bs("b=2")], 10);
    e.insert(&vec![bs("a=1")], 20);
    assert_eq!(e.get(&vec![bs("a=1"), bs("b=2")], true), Some(10));
    assert_eq!(e.get(&vec![bs("a=1")], true), Some(20));
    assert_eq!(e.get(&vec![bs("a=1"), bs("c=3")], true), None);
    // the non-strict lookup ignores the unknown predicate instead
    assert_eq!(e.get(&vec![bs("a=1"), bs("c=3")], false), Some(20));
}

#[test]
fn variants_blockstate_serves_one_match() {
    let keys = vec![(bs("a=1"), 1usize), (bs("b=2"), 2usize)];
    let values = vec![(1usize, 20usize), (3usize, 10usize)];
    let state = BlockState::build_variants(keys, values);
    assert_eq!(state.get(&vec![bs("a=1"), bs("b=2")]), vec![10]);
    assert_eq!(state.get(&vec![bs("a=1")]), vec![20]);
    assert_eq!(state.get(&vec![bs("b=2")]), Vec::<usize>::new());
}

#[test]
fn multipart_groups_stack() {
    // two independent groups {a=1} -> 100 and {b=2} -> 200: a query enabling
    // both collects both, in group registration order
    let keys = vec![(bs("a=1"), 1usize), (bs("b=2"), 2usize)];
    let values = vec![(vec![1usize], 100usize), (vec![2usize], 200usize)];
    let state = BlockState::build_multipart(keys, values);
    assert_eq!(state.get(&vec![bs("a=1"), bs("b=2")]), vec![100, 200]);
    assert_eq!(state.get(&vec![bs("a=1")]), vec![100]);
    assert_eq!(state.get(&vec![bs("b=2")]), vec![200]);
    assert_eq!(state.get(&vec![bs("c=9")]), Vec::<usize>::new());
}

#[test]
fn single_blockstate_always_serves() {
    let state = BlockState::build_single(7);
    assert_eq!(state.get(&vec![]), vec![7]);
    assert_eq!(state.get(&vec![bs("whatever=1")]), vec![7]);
}

#[test]
fn groups_can_be_grown_incrementally() {
    let keys: Vec<(Vec<u8>, usize)> = Vec::new();
    let values: Vec<(Vec<usize>, usize)> = Vec::new();
    let mut state = BlockState::build_multipart(keys, values);
    state.start_group();
    assert_eq!(state.insert_group(&vec![bs("a=1")], 5), Some(1));
    state.start_group();
    assert_eq!(state.insert_group(&vec![bs("b=2")], 6), Some(2));
    assert_eq!(state.get(&vec![bs("a=1"), bs("b=2")]), vec![5, 6]);
}

#[test]
fn simplify_collapses_singleton_ground_variant() {
    let keys: Vec<(Vec<u8>, usize)> = Vec::new();
    let values = vec![(0usize, 9usize)];
    let state = BlockState::build_variants(keys, values);
    match state.try_simplify_variant() {
        BlockState::Single(v) => assert_eq!(v, 9),
        _ => panic!("expected the single shape"),
    }
}
