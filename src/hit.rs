use std::cmp::Ordering;
use std::sync::Arc;
use vstd::prelude::*;
use vstd::std_specs::iter::IteratorSpec;

verus! {

/// An ordered, growable list of shared references to scene primitives.
/// The references are shared: reordering the list never copies a primitive.
pub struct HitList<H>(Vec<Arc<H>>);

impl<H> View for HitList<H> {
    type V = Seq<Arc<H>>;

    closed spec fn view(&self) -> Seq<Arc<H>> {
        self.0@
    }
}

/// The answer for the pair taken the other way round.
pub open spec fn flipped(o: Ordering) -> Ordering {
    match o {
        Ordering::Less => Ordering::Greater,
        Ordering::Equal => Ordering::Equal,
        Ordering::Greater => Ordering::Less,
    }
}

/// On the primitives of `s`, `compare` accepts every pair and its answers form
/// a total order: one pair always gets the same answer, the pair taken the
/// other way round gets the opposite answer, and "not greater" is transitive.
pub open spec fn total_order_on<H, F: Fn(&Arc<H>, &Arc<H>) -> Ordering>(
    compare: F,
    s: Seq<Arc<H>>,
) -> bool {
    &&& forall|a: &Arc<H>, b: &Arc<H>|
        s.contains(*a) && s.contains(*b) ==> #[trigger] compare.requires((a, b))
    &&& forall|a: &Arc<H>, b: &Arc<H>, o1: Ordering, o2: Ordering|
        s.contains(*a) && s.contains(*b) && #[trigger] compare.ensures((a, b), o1)
            && #[trigger] compare.ensures((a, b), o2) ==> o1 == o2
    &&& forall|a: &Arc<H>, b: &Arc<H>, o1: Ordering, o2: Ordering|
        s.contains(*a) && s.contains(*b) && #[trigger] compare.ensures((a, b), o1)
            && #[trigger] compare.ensures((b, a), o2) ==> o2 == flipped(o1)
    &&& forall|a: &Arc<H>, b: &Arc<H>, c: &Arc<H>, o1: Ordering, o2: Ordering, o3: Ordering|
        s.contains(*a) && s.contains(*b) && s.contains(*c) && #[trigger] compare.ensures(
            (a, b),
            o1,
        ) && #[trigger] compare.ensures((b, c), o2) && #[trigger] compare.ensures((a, c), o3)
            && o1 != Ordering::Greater && o2 != Ordering::Greater ==> o3 != Ordering::Greater
}

/// A total order on the primitives of `s` is one on any sequence whose
/// primitives all stand in `s`.
pub proof fn lemma_total_order_on_part<H, F: Fn(&Arc<H>, &Arc<H>) -> Ordering>(
    compare: F,
    s: Seq<Arc<H>>,
    t: Seq<Arc<H>>,
)
    requires
        total_order_on(compare, s),
        forall|x: Arc<H>| #[trigger] t.contains(x) ==> s.contains(x),
    ensures
        total_order_on(compare, t),
{
}

/// `s[start..end]` is in the order of `compare`: no primitive comes before one
/// it compares greater than.
pub open spec fn sorted_by<H, F: Fn(&Arc<H>, &Arc<H>) -> Ordering>(
    s: Seq<Arc<H>>,
    start: int,
    end: int,
    compare: F,
) -> bool {
    forall|i: int, j: int|
        start <= i < j < end ==> !compare.ensures((&#[trigger] s[i], &#[trigger] s[j]), Ordering::Greater)
}

/// The primitives of `s` that `compare` finds equal to `x`, in their order in `s`.
pub open spec fn equal_run<H, F: Fn(&Arc<H>, &Arc<H>) -> Ordering>(
    s: Seq<Arc<H>>,
    x: Arc<H>,
    compare: F,
) -> Seq<Arc<H>> {
    s.filter(|y: Arc<H>| compare.ensures((&x, &y), Ordering::Equal))
}

/// Relies on std's `slice::sort_by`, applied to `items[start..end]`. With a
/// comparison that is a total order (std may panic otherwise) it sorts that
/// part in place, stably: the part keeps the same elements, comes out in the
/// comparison's order, and equal elements keep their relative order. The rest
/// of the vector is not touched.
#[verifier::external_body]
fn sort_part_by<H, F>(items: &mut Vec<Arc<H>>, start: usize, end: usize, compare: F)
    where
        F: Fn(&Arc<H>, &Arc<H>) -> Ordering,
    requires
        start <= end <= old(items)@.len(),
        total_order_on(compare, old(items)@.subrange(start as int, end as int)),
    ensures
        final(items)@.len() == old(items)@.len(),
        final(items)@.subrange(0, start as int) == old(items)@.subrange(0, start as int),
        final(items)@.subrange(end as int, old(items)@.len() as int) == old(items)@.subrange(
            end as int,
            old(items)@.len() as int,
        ),
        final(items)@.subrange(start as int, end as int).to_multiset() == old(items)@.subrange(
            start as int,
            end as int,
        ).to_multiset(),
        sorted_by(final(items)@, start as int, end as int, compare),
        forall|x: Arc<H>|
            old(items)@.subrange(start as int, end as int).contains(x) ==> #[trigger] equal_run(
                final(items)@.subrange(start as int, end as int),
                x,
                compare,
            ) == equal_run(old(items)@.subrange(start as int, end as int), x, compare),
{
    items[start..end].sort_by(compare);
}

impl<H> HitList<H> {
    pub fn new() -> (r: Self)
        ensures
            r@ == Seq::<Arc<H>>::empty(),
    {
        HitList(Vec::new())
    }

    /// Appends `obj` after the primitives already listed.
    pub fn add(&mut self, obj: Arc<H>)
        ensures
            final(self)@ == old(self)@.push(obj),
    {
        self.0.push(obj);
    }

    pub fn clear(&mut self)
        ensures
            final(self)@ == Seq::<Arc<H>>::empty(),
    {
        self.0.clear();
    }

    pub fn is_empty(&self) -> (r: bool)
        ensures
            r == (self@.len() == 0),
    {
        self.0.is_empty()
    }

    /// Walks the primitives in list order.
    pub fn iter(&self) -> (r: std::slice::Iter<'_, Arc<H>>)
        ensures
            IteratorSpec::remaining(&r) == self@.map_values(|a: Arc<H>| &a),
    {
        proof {
            broadcast use vstd::std_specs::slice::axiom_spec_slice_iter;
        }
        self.0.iter()
    }

    pub fn len(&self) -> (r: usize)
        ensures
            r == self@.len(),
    {
        self.0.len()
    }

    /// The primitive at `index`, or `None` past the end of the list.
    pub fn get(&self, index: usize) -> (r: Option<&Arc<H>>)
        ensures
            index < self@.len() ==> r == Some(&self@[index as int]),
            index >= self@.len() ==> r is None,
    {
        if index < self.0.len() {
            Some(&self.0[index])
        } else {
            None
        }
    }

    /// Sorts the list by `compare`, stably: the list keeps the same
    /// primitives, ends in `compare`'s order, and primitives that compare
    /// equal keep their relative order.
    pub fn sort_by<F>(&mut self, compare: F)
        where
            F: Fn(&Arc<H>, &Arc<H>) -> Ordering,
        requires
            total_order_on(compare, old(self)@),
        ensures
            final(self)@.to_multiset() == old(self)@.to_multiset(),
            final(self)@.len() == old(self)@.len(),
            sorted_by(final(self)@, 0, final(self)@.len() as int, compare),
            forall|x: Arc<H>|
                old(self)@.contains(x) ==> #[trigger] equal_run(final(self)@, x, compare)
                    == equal_run(old(self)@, x, compare),
    {
        let len = self.0.len();
        proof {
            assert(old(self)@.subrange(0, len as int) =~= old(self)@);
        }
        sort_part_by(&mut self.0, 0, len, compare);
        proof {
            assert(old(self)@.subrange(0, len as int) =~= old(self)@);
            assert(self@.subrange(0, len as int) =~= self@);
        }
    }

    /// Sorts the primitives `start..end` by `compare`, stably. They stay a
    /// reordering of themselves and end in `compare`'s order; equal ones keep
    /// their relative order; the primitives outside the range keep their places.
    pub fn sort_range_by<F>(&mut self, start: usize, end: usize, compare: F)
        where
            F: Fn(&Arc<H>, &Arc<H>) -> Ordering,
        requires
            start <= end <= old(self)@.len(),
            total_order_on(compare, old(self)@.subrange(start as int, end as int)),
        ensures
            final(self)@.len() == old(self)@.len(),
            forall|i: int|
                0 <= i < old(self)@.len() && !(start <= i < end) ==> #[trigger] final(self)@[i]
                    == old(self)@[i],
            final(self)@.subrange(start as int, end as int).to_multiset() == old(self)@.subrange(
                start as int,
                end as int,
            ).to_multiset(),
            sorted_by(final(self)@, start as int, end as int, compare),
            forall|x: Arc<H>|
                old(self)@.subrange(start as int, end as int).contains(x) ==> #[trigger] equal_run(
                    final(self)@.subrange(start as int, end as int),
                    x,
                    compare,
                ) == equal_run(old(self)@.subrange(start as int, end as int), x, compare),
    {
        sort_part_by(&mut self.0, start, end, compare);
        proof {
            let len = old(self)@.len() as int;
            assert forall|i: int| 0 <= i < len && !(start <= i < end) implies #[trigger] self@[i]
                == old(self)@[i] by {
                if i < start {
                    assert(self@.subrange(0, start as int)[i] == old(self)@.subrange(0, start as int)[i]);
                } else {
                    assert(self@.subrange(end as int, len)[i - end] == old(self)@.subrange(end as int, len)[i - end]);
                }
            }
        }
    }
}

impl<H> Default for HitList<H> {
    fn default() -> (r: Self)
        ensures
            r@ == Seq::<Arc<H>>::empty(),
    {
        HitList::new()
    }
}

} // verus!
