use raytracer::bvh::{build, split_span, BvhTree, Span};
use raytracer::hit::HitList;
use std::sync::Arc;

fn collect_leaves(start: usize, end: usize, out: &mut Vec<usize>) {
    match split_span(start, end) {
        Span::Single(i) => out.push(i),
        Span::Pair(i, j) => {
            out.push(i);
            out.push(j);
        }
        Span::Halves(from, middle, to) => {
            collect_leaves(from, middle, out);
            collect_leaves(middle, to, out);
        }
    }
}

#[test]
fn split_span_single_pair_and_halves() {
    assert_eq!(split_span(4, 5), Span::Single(4));
    assert_eq!(split_span(4, 6), Span::Pair(4, 5));
    assert_eq!(split_span(0, 3), Span::Halves(0, 1, 3));
    assert_eq!(split_span(2, 9), Span::Halves(2, 5, 9));
    assert_eq!(split_span(10, 20), Span::Halves(10, 15, 20));
}

#[test]
fn split_span_leaves_cover_every_primitive_once() {
    for n in 1..40usize {
        let mut leaves = Vec::new();
        collect_leaves(0, n, &mut leaves);
        let expected: Vec<usize> = (0..n).collect();
        assert_eq!(leaves, expected);
    }
}

#[test]
fn split_span_near_the_largest_index() {
    let end = usize::MAX;
    assert_eq!(split_span(end - 1, end), Span::Single(end - 1));
    assert_eq!(split_span(end - 3, end), Span::Halves(end - 3, end - 2, end));
}

fn tree_objects(tree: &BvhTree<i32>, out: &mut Vec<i32>) {
    match tree {
        BvhTree::Single(a) => out.push(**a),
        BvhTree::Pair(a, b) => {
            out.push(**a);
            out.push(**b);
        }
        BvhTree::Node(l, r) => {
            tree_objects(l, out);
            tree_objects(r, out);
        }
    }
}

fn list_of(values: &[i32]) -> HitList<i32> {
    let mut list = HitList::new();
    for v in values {
        list.add(Arc::new(*v));
    }
    list
}

#[test]
fn build_single_and_pair_leaves() {
    let compare = |a: &Arc<i32>, b: &Arc<i32>| a.cmp(b);
    let mut list = list_of(&[8, 3]);
    match build(&mut list, 0, 1, compare) {
        BvhTree::Single(a) => assert_eq!(*a, 8),
        _ => panic!("expected a single leaf"),
    }
    match build(&mut list, 0, 2, compare) {
        BvhTree::Pair(a, b) => assert_eq!((*a, *b), (3, 8)),
        _ => panic!("expected a pair"),
    }
}

#[test]
fn build_holds_every_primitive_of_the_range() {
    let compare = |a: &Arc<i32>, b: &Arc<i32>| a.cmp(b);
    let mut list = list_of(&[100, 9, 4, 7, 1, 8, 2, 6, -100]);
    let tree = build(&mut list, 1, 8, compare);
    let mut seen = Vec::new();
    tree_objects(&tree, &mut seen);
    assert_eq!(seen, vec![1, 2, 4, 6, 7, 8, 9]);
    let after: Vec<i32> = list.iter().map(|a| **a).collect();
    assert_eq!(after, vec![100, 1, 2, 4, 6, 7, 8, 9, -100]);
}

#[test]
fn build_shares_primitives_without_copying() {
    let compare = |a: &Arc<i32>, b: &Arc<i32>| a.cmp(b);
    let shared = Arc::new(5);
    let mut list = HitList::new();
    list.add(Arc::new(6));
    list.add(shared.clone());
    list.add(Arc::new(4));
    let tree = build(&mut list, 0, 3, compare);
    let mut found = false;
    if let BvhTree::Node(_, r) = &tree {
        if let BvhTree::Pair(a, _) = r.as_ref() {
            found = Arc::ptr_eq(a, &shared);
        }
    }
    assert!(found);
}
