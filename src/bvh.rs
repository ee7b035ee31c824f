use crate::hit::{lemma_total_order_on_part, sorted_by, total_order_on, HitList};
use std::cmp::Ordering;
use std::sync::Arc;
use vstd::prelude::*;

verus! {

/// How a BVH node covers the primitives `start..end` of its list.
#[derive(PartialEq, Eq, Debug, Clone, Copy)]
pub enum Span {
    /// One primitive, referenced by both children of the leaf.
    Single(usize),
    /// Two primitives, one per child.
    Pair(usize, usize),
    /// Two child nodes over `start..mid` and `mid..end`.
    Halves(usize, usize, usize),
}

/// The index at which a range of more than two primitives is halved.
pub open spec fn mid(start: int, end: int) -> int {
    start + (end - start) / 2
}

/// The split of `start..end` (non-empty) that a node makes.
pub open spec fn spec_split(start: int, end: int) -> Span {
    if end - start == 1 {
        Span::Single(start as usize)
    } else if end - start == 2 {
        Span::Pair(start as usize, (start + 1) as usize)
    } else {
        Span::Halves(start as usize, mid(start, end) as usize, end as usize)
    }
}

/// Decides how a node over the primitives `start..end` is built: a leaf for one
/// primitive, a pair for two, otherwise two halves split at the midpoint.
pub fn split_span(start: usize, end: usize) -> (r: Span)
    requires
        start < end,
    ensures
        r == spec_split(start as int, end as int),
{
    let span = end - start;
    if span == 1 {
        Span::Single(start)
    } else if span == 2 {
        Span::Pair(start, start + 1)
    } else {
        Span::Halves(start, start + span / 2, end)
    }
}

/// The shape of a bounding volume hierarchy over shared primitives. Bounding
/// boxes are left to the caller, who computes them bottom-up.
pub enum BvhTree<H> {
    /// A leaf over one primitive: both children of the node reference it.
    Single(Arc<H>),
    /// A leaf over two primitives, in the order the comparison puts them.
    Pair(Arc<H>, Arc<H>),
    /// An interior node over two subtrees.
    Node(Box<BvhTree<H>>, Box<BvhTree<H>>),
}

impl<H> BvhTree<H> {
    /// The primitives the tree references, left to right, each leaf counted once.
    pub open spec fn objects(self) -> Seq<Arc<H>>
        decreases self,
    {
        match self {
            BvhTree::Single(a) => seq![a],
            BvhTree::Pair(a, b) => seq![a, b],
            BvhTree::Node(l, r) => l.objects() + r.objects(),
        }
    }
}

/// `a` and `b` agree outside `start..end`, and `b` holds the same primitives as
/// `a` inside it.
pub open spec fn reordered_within<H>(a: Seq<Arc<H>>, b: Seq<Arc<H>>, start: int, end: int) -> bool {
    &&& b.len() == a.len()
    &&& forall|i: int| 0 <= i < a.len() && !(start <= i < end) ==> #[trigger] b[i] == a[i]
    &&& b.subrange(start, end).to_multiset() == a.subrange(start, end).to_multiset()
}

/// `s[start..end]` as the multisets of its two parts, split at `mid`.
proof fn lemma_split_multiset<A>(s: Seq<A>, start: int, mid: int, end: int)
    requires
        0 <= start <= mid <= end <= s.len(),
    ensures
        s.subrange(start, end).to_multiset() == s.subrange(start, mid).to_multiset().add(
            s.subrange(mid, end).to_multiset(),
        ),
{
    assert(s.subrange(start, end) =~= s.subrange(start, mid) + s.subrange(mid, end));
    vstd::seq_lib::lemma_multiset_commutative(s.subrange(start, mid), s.subrange(mid, end));
}

/// `t` is the hierarchy over `s[start..end]`: one primitive makes a `Single`
/// leaf; two make a `Pair`, first the one `compare` puts first; more make a
/// `Node` split at `mid`, made after sorting the range by `compare`: no
/// primitive of its left subtree compares greater than one of its right
/// subtree, the left subtree holds exactly `s[start..mid]` and the right one
/// exactly `s[mid..end]` (as multisets), each shaped the same way.
pub open spec fn shaped<H, F: Fn(&Arc<H>, &Arc<H>) -> Ordering>(
    t: BvhTree<H>,
    s: Seq<Arc<H>>,
    start: int,
    end: int,
    compare: F,
) -> bool
    decreases t,
{
    match t {
        BvhTree::Single(a) => end - start == 1 && a == s[start],
        BvhTree::Pair(a, b) => {
            &&& end - start == 2
            &&& if compare.ensures((&s[start], &s[start + 1]), Ordering::Less) {
                a == s[start] && b == s[start + 1]
            } else {
                a == s[start + 1] && b == s[start]
            }
        },
        BvhTree::Node(l, r) => {
            let m = mid(start, end);
            &&& end - start > 2
            &&& forall|a: Arc<H>, b: Arc<H>|
                l.objects().contains(a) && r.objects().contains(b) ==> !#[trigger] compare.ensures(
                    (&a, &b),
                    Ordering::Greater,
                )
            &&& l.objects().to_multiset() == s.subrange(start, m).to_multiset()
            &&& r.objects().to_multiset() == s.subrange(m, end).to_multiset()
            &&& shaped(*l, s, start, m, compare)
            &&& shaped(*r, s, m, end, compare)
        },
    }
}

/// Whether `t` is shaped over `s[start..end]` depends on that range of `s` only.
proof fn lemma_shaped_frame<H, F: Fn(&Arc<H>, &Arc<H>) -> Ordering>(
    t: BvhTree<H>,
    s1: Seq<Arc<H>>,
    s2: Seq<Arc<H>>,
    start: int,
    end: int,
    compare: F,
)
    requires
        0 <= start <= end <= s1.len(),
        end <= s2.len(),
        forall|k: int| start <= k < end ==> #[trigger] s1[k] == s2[k],
        shaped(t, s1, start, end, compare),
    ensures
        shaped(t, s2, start, end, compare),
    decreases t,
{
    match t {
        BvhTree::Node(l, r) => {
            let m = mid(start, end);
            assert(s1.subrange(start, m) =~= s2.subrange(start, m));
            assert(s1.subrange(m, end) =~= s2.subrange(m, end));
            lemma_shaped_frame(*l, s1, s2, start, m, compare);
            lemma_shaped_frame(*r, s1, s2, m, end, compare);
        },
        _ => {
            assert(s1[start] == s2[start]);
            if end - start == 2 {
                assert(s1[start + 1] == s2[start + 1]);
            }
        },
    }
}

/// Builds the hierarchy over the primitives `start..end` of `objects`: one
/// primitive makes a `Single` leaf, two make a `Pair` ordered by `compare`,
/// more are sorted by `compare` and split at the midpoint. Only that range of
/// the list is reordered, and the tree references exactly its primitives, each
/// as often as the range holds it.
pub fn build<H, F>(objects: &mut HitList<H>, start: usize, end: usize, compare: F) -> (r: BvhTree<H>)
    where
        F: Fn(&Arc<H>, &Arc<H>) -> Ordering + Copy,
    requires
        start < end <= old(objects)@.len(),
        total_order_on(compare, old(objects)@.subrange(start as int, end as int)),
    ensures
        reordered_within(old(objects)@, final(objects)@, start as int, end as int),
        r.objects().to_multiset() == old(objects)@.subrange(start as int, end as int).to_multiset(),
        shaped(r, final(objects)@, start as int, end as int, compare),
    decreases end - start,
{
    let ghost before = objects@;
    match split_span(start, end) {
        Span::Single(i) => {
            let only = objects.get(i).unwrap().clone();
            proof {
                assert(objects@.subrange(start as int, end as int) =~= seq![only]);
            }
            BvhTree::Single(only)
        },
        Span::Pair(i, j) => {
            let a = objects.get(i).unwrap().clone();
            let b = objects.get(j).unwrap().clone();
            proof {
                assert(objects@.subrange(start as int, end as int) =~= seq![a, b]);
                assert(seq![a, b] =~= seq![a] + seq![b]);
                assert(seq![b, a] =~= seq![b] + seq![a]);
                vstd::seq_lib::lemma_multiset_commutative(seq![a], seq![b]);
                vstd::seq_lib::lemma_multiset_commutative(seq![b], seq![a]);
                assert(seq![a].to_multiset().add(seq![b].to_multiset()) =~= seq![b].to_multiset().add(
                    seq![a].to_multiset(),
                ));
            }
            let o = compare(&a, &b);
            if matches!(o, Ordering::Less) {
                BvhTree::Pair(a, b)
            } else {
                proof {
                    assert(!compare.ensures((&a, &b), Ordering::Less));
                }
                BvhTree::Pair(b, a)
            }
        },
        Span::Halves(from, mid, to) => {
            objects.sort_range_by(from, to, compare);
            let ghost sorted = objects@;
            proof {
                broadcast use vstd::seq_lib::to_multiset_contains;

                let s = start as int;
                let m = mid as int;
                let e = end as int;
                assert forall|x: Arc<H>| #[trigger] sorted.subrange(s, e).contains(x) implies before.subrange(
                    s,
                    e,
                ).contains(x) by {
                    assert(before.subrange(s, e).to_multiset().count(x) > 0);
                }
                assert forall|x: Arc<H>| #[trigger] sorted.subrange(s, m).contains(x) implies before.subrange(
                    s,
                    e,
                ).contains(x) by {
                    let k = choose|k: int| 0 <= k < m - s && sorted.subrange(s, m)[k] == x;
                    assert(sorted.subrange(s, e)[k] == x);
                    assert(sorted.subrange(s, e).contains(x));
                }
                assert forall|x: Arc<H>| #[trigger] sorted.subrange(m, e).contains(x) implies before.subrange(
                    s,
                    e,
                ).contains(x) by {
                    let k = choose|k: int| 0 <= k < e - m && sorted.subrange(m, e)[k] == x;
                    assert(sorted.subrange(s, e)[k + m - s] == x);
                    assert(sorted.subrange(s, e).contains(x));
                }
                lemma_total_order_on_part(compare, before.subrange(s, e), sorted.subrange(s, m));
                lemma_total_order_on_part(compare, before.subrange(s, e), sorted.subrange(m, e));
            }
            let left = build(objects, from, mid, compare);
            let ghost after_left = objects@;
            proof {
                assert(after_left.subrange(mid as int, end as int) =~= sorted.subrange(mid as int, end as int));
            }
            let right = build(objects, mid, to, compare);
            proof {
                broadcast use vstd::seq_lib::to_multiset_contains;

                let s = start as int;
                let m = mid as int;
                let e = end as int;
                assert forall|a: Arc<H>, b: Arc<H>|
                    left.objects().contains(a) && right.objects().contains(b) implies !#[trigger] compare.ensures(
                    (&a, &b),
                    Ordering::Greater,
                ) by {
                    assert(left.objects().to_multiset().count(a) > 0);
                    assert(sorted.subrange(s, m).contains(a));
                    assert(right.objects().to_multiset().count(b) > 0);
                    assert(after_left.subrange(m, e).contains(b));
                    let i = choose|i: int| 0 <= i < m - s && sorted.subrange(s, m)[i] == a;
                    let j = choose|j: int| 0 <= j < e - m && after_left.subrange(m, e)[j] == b;
                    assert(sorted[s + i] == a);
                    assert(sorted[m + j] == b);
                }
                assert(sorted.subrange(s, e).to_multiset() == before.subrange(s, e).to_multiset());
                assert(after_left.subrange(m, e) =~= sorted.subrange(m, e));
                assert(objects@.subrange(s, m) =~= after_left.subrange(s, m));
                lemma_split_multiset(sorted, s, m, e);
                lemma_split_multiset(after_left, s, m, e);
                lemma_split_multiset(objects@, s, m, e);
                vstd::seq_lib::lemma_multiset_commutative(left.objects(), right.objects());
                assert forall|i: int| 0 <= i < before.len() && !(s <= i < e) implies #[trigger] objects@[i]
                    == before[i] by {
                    assert(sorted[i] == before[i]);
                    assert(after_left[i] == sorted[i]);
                }
                assert forall|k: int| s <= k < m implies #[trigger] after_left[k] == objects@[k] by {
                    assert(objects@.subrange(s, m)[k - s] == after_left.subrange(s, m)[k - s]);
                }
                lemma_shaped_frame(left, after_left, objects@, s, m, compare);
            }
            BvhTree::Node(Box::new(left), Box::new(right))
        },
    }
}
} // verus!
