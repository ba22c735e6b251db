use std::rc::Rc;

use minmax_tree::cached_iter::CachedIterator;
use minmax_tree::children_iterator::ChildrenIterator;

#[test]
fn simple_iterator() {
    let integers = vec![1, 2, 3, 4];

    let mut integers_cached_iter = CachedIterator::new(integers.clone());

    for i in 0..integers.len() {
        assert_eq!(Some(Rc::new(integers[i])), integers_cached_iter.next());
    }

    assert_eq!(None, integers_cached_iter.next());
    assert_eq!(None, integers_cached_iter.next());

    integers_cached_iter.reset();

    for i in 0..integers.len() {
        assert_eq!(Some(Rc::new(integers[i])), integers_cached_iter.next());
    }
}

#[test]
fn cached_iterator_empty_source() {
    let mut it: CachedIterator<u8> = CachedIterator::new(Vec::new());
    assert_eq!(None, it.next());
    it.reset();
    assert_eq!(None, it.next());
}

#[test]
fn cached_iterator_reset_midway_replays_from_start() {
    let mut it = CachedIterator::new(vec![10, 20, 30]);
    assert_eq!(Some(Rc::new(10)), it.next());
    assert_eq!(Some(Rc::new(20)), it.next());
    it.reset();
    assert_eq!(Some(Rc::new(10)), it.next());
    assert_eq!(Some(Rc::new(20)), it.next());
    assert_eq!(Some(Rc::new(30)), it.next());
    assert_eq!(None, it.next());
}

#[test]
fn cached_iterator_replay_shares_items() {
    let mut it = CachedIterator::new(vec![String::from("a")]);
    let first = it.next().unwrap();
    it.reset();
    let again = it.next().unwrap();
    assert!(Rc::ptr_eq(&first, &again));
}

#[test]
fn children_iterator_replays_after_reset() {
    let mut it = ChildrenIterator::new(vec![7u8, 8, 9]);
    assert_eq!(Some(Rc::new(7)), it.next());
    assert_eq!(Some(Rc::new(8)), it.next());
    assert_eq!(Some(Rc::new(9)), it.next());
    assert_eq!(None, it.next());
    it.reset();
    assert_eq!(Some(Rc::new(7)), it.next());
    assert_eq!(Some(Rc::new(8)), it.next());
}
