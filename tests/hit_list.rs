use raytracer::hit::HitList;
use std::cmp::Ordering;
use std::sync::Arc;

#[test]
fn new_list_is_empty() {
    let list: HitList<u32> = HitList::new();
    assert!(list.is_empty());
    assert_eq!(list.len(), 0);
    assert!(list.get(0).is_none());
    let d: HitList<u32> = HitList::default();
    assert!(d.is_empty());
}

#[test]
fn add_appends_in_order() {
    let mut list = HitList::new();
    list.add(Arc::new(10u32));
    list.add(Arc::new(20u32));
    list.add(Arc::new(30u32));
    assert!(!list.is_empty());
    assert_eq!(list.len(), 3);
    assert_eq!(**list.get(0).unwrap(), 10);
    assert_eq!(**list.get(2).unwrap(), 30);
    assert!(list.get(3).is_none());
    let seen: Vec<u32> = list.iter().map(|a| **a).collect();
    assert_eq!(seen, vec![10, 20, 30]);
}

#[test]
fn clear_empties_the_list() {
    let mut list = HitList::new();
    list.add(Arc::new(1u8));
    list.clear();
    assert!(list.is_empty());
    assert_eq!(list.iter().count(), 0);
}

#[test]
fn sort_by_reorders_shared_references() {
    let shared = Arc::new(5i32);
    let mut list = HitList::new();
    list.add(Arc::new(9i32));
    list.add(shared.clone());
    list.add(Arc::new(-1i32));
    list.sort_by(|a: &Arc<i32>, b: &Arc<i32>| a.cmp(b));
    let seen: Vec<i32> = list.iter().map(|a| **a).collect();
    assert_eq!(seen, vec![-1, 5, 9]);
    assert!(Arc::ptr_eq(list.get(1).unwrap(), &shared));
    list.sort_by(|a: &Arc<i32>, b: &Arc<i32>| -> Ordering { b.cmp(a) });
    let seen: Vec<i32> = list.iter().map(|a| **a).collect();
    assert_eq!(seen, vec![9, 5, -1]);
}

#[test]
fn sort_range_by_touches_only_the_range() {
    let mut list = HitList::new();
    for v in [7i32, 6, 5, 4, 3, 2, 1] {
        list.add(Arc::new(v));
    }
    list.sort_range_by(2, 5, |a: &Arc<i32>, b: &Arc<i32>| a.cmp(b));
    let seen: Vec<i32> = list.iter().map(|a| **a).collect();
    assert_eq!(seen, vec![7, 6, 3, 4, 5, 2, 1]);
    list.sort_range_by(3, 3, |a: &Arc<i32>, b: &Arc<i32>| a.cmp(b));
    let again: Vec<i32> = list.iter().map(|a| **a).collect();
    assert_eq!(again, seen);
}

#[test]
fn sort_by_is_stable() {
    let first_two = Arc::new((2i32, 'a'));
    let second_two = Arc::new((2i32, 'b'));
    let mut list = HitList::new();
    list.add(Arc::new((3i32, 'c')));
    list.add(first_two.clone());
    list.add(Arc::new((1i32, 'd')));
    list.add(second_two.clone());
    list.sort_by(|a: &Arc<(i32, char)>, b: &Arc<(i32, char)>| a.0.cmp(&b.0));
    let seen: Vec<(i32, char)> = list.iter().map(|a| **a).collect();
    assert_eq!(seen, vec![(1, 'd'), (2, 'a'), (2, 'b'), (3, 'c')]);
    assert!(Arc::ptr_eq(list.get(1).unwrap(), &first_two));
    assert!(Arc::ptr_eq(list.get(2).unwrap(), &second_two));
}

#[test]
fn sort_range_by_is_stable_within_the_range() {
    let mut list = HitList::new();
    for v in [(9i32, 'x'), (5, 'a'), (4, 'b'), (5, 'c'), (0, 'y')] {
        list.add(Arc::new(v));
    }
    list.sort_range_by(1, 4, |a: &Arc<(i32, char)>, b: &Arc<(i32, char)>| a.0.cmp(&b.0));
    let seen: Vec<(i32, char)> = list.iter().map(|a| **a).collect();
    assert_eq!(seen, vec![(9, 'x'), (4, 'b'), (5, 'a'), (5, 'c'), (0, 'y')]);
}
