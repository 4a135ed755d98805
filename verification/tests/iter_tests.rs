use filter_advance::Iter;

#[test]
fn empty_backing_yields_none_immediately() {
    let vec: Vec<u8> = vec![];
    let mut iter = Iter::new(&vec, |x: u8| x % 3 == 0);
    assert_eq!(iter.advance(), None);
}

#[test]
fn single_element_backing_yields_none_immediately() {
    let vec: Vec<u8> = vec![9];
    let mut iter = Iter::new(&vec, |x: u8| x % 3 == 0);
    assert_eq!(iter.advance(), None);
}

#[test]
fn divisible_by_three_example() {
    let vec = vec![4u8, 5, 6, 7, 1, 9, 0, 3];
    let mut iter = Iter::new(&vec, |x: u8| x % 3 == 0);
    assert_eq!(iter.advance(), Some(7));
    assert_eq!(iter.advance(), Some(0));
    assert_eq!(iter.advance(), Some(3));
    assert_eq!(iter.advance(), None);
}

#[test]
fn divisible_by_three_example_collected() {
    let vec = vec![4u8, 5, 6, 7, 1, 9, 0, 3];
    let mut iter = Iter::new(&vec, |x: u8| x % 3 == 0);
    assert_eq!(iter.collect_remaining(), vec![7u8, 0, 3]);
}

#[test]
fn rejecting_predicate_produces_nothing() {
    let vec = vec![10u32, 20, 30, 40, 50];
    let mut iter = Iter::new(&vec, |_x: u32| false);
    assert_eq!(iter.advance(), None);
    let mut iter2 = Iter::new(&vec, |_x: u32| false);
    assert_eq!(iter2.collect_remaining(), Vec::<u32>::new());
}

#[test]
fn accepting_predicate_produces_every_successor() {
    let vec = vec![11i64, 22, 33, 44, 55];
    let mut iter = Iter::new(&vec, |_x: i64| true);
    let out = iter.collect_remaining();
    assert_eq!(out.len(), vec.len() - 1);
    for (i, v) in out.iter().enumerate() {
        assert_eq!(*v, vec[i + 1]);
    }
    assert_eq!(out, vec![22i64, 33, 44, 55]);
}

#[test]
fn production_count_is_bounded_by_len_minus_one() {
    let vec = vec![3u8, 3, 3, 3, 3, 3];
    let mut iter = Iter::new(&vec, |x: u8| x % 3 == 0);
    let mut count: usize = 0;
    while iter.advance().is_some() {
        count += 1;
    }
    assert!(count <= vec.len() - 1);
    assert_eq!(count, vec.len() - 1);
}

#[test]
fn none_is_permanent() {
    let vec = vec![4u8, 6, 8];
    let mut iter = Iter::new(&vec, |x: u8| x % 2 == 0);
    assert_eq!(iter.advance(), Some(6));
    assert_eq!(iter.advance(), Some(8));
    assert_eq!(iter.advance(), None);
    assert_eq!(iter.advance(), None);
    assert_eq!(iter.advance(), None);
    assert_eq!(iter.collect_remaining(), Vec::<u8>::new());
}

#[test]
fn consecutive_matches_emit_each_successor() {
    let vec = vec![3u8, 6, 9, 1];
    let mut iter = Iter::new(&vec, |x: u8| x % 3 == 0);
    assert_eq!(iter.collect_remaining(), vec![6u8, 9, 1]);
}

#[test]
fn last_element_is_never_tested() {
    // 3 matches the predicate, but as the final element it is never
    // visited, so nothing is produced.
    let vec = vec![1u8, 3];
    let mut iter = Iter::new(&vec, |x: u8| x % 3 == 0);
    assert_eq!(iter.advance(), None);
}

#[test]
fn collect_after_partial_advance_takes_the_rest() {
    let vec = vec![4u8, 5, 6, 7, 1, 9, 0, 3];
    let mut iter = Iter::new(&vec, |x: u8| x % 3 == 0);
    assert_eq!(iter.advance(), Some(7));
    assert_eq!(iter.collect_remaining(), vec![0u8, 3]);
}
