//! Bounded collection of the best scored points.
//!
//! Points are ranked by descending score. Among equal scores the point that was pushed first
//! ranks first, so the outcome depends only on the sequence of pushes.
use vstd::prelude::*;

use crate::types::ScoredPointOffset;

verus! {

/// The ranking `list` with `point` placed behind every point whose score is at least its own.
pub open spec fn ranked_insert(
    list: Seq<ScoredPointOffset>,
    point: ScoredPointOffset,
) -> Seq<ScoredPointOffset>
    decreases list.len(),
{
    if list.len() == 0 {
        seq![point]
    } else if list.last().score >= point.score {
        list.push(point)
    } else {
        ranked_insert(list.drop_last(), point).push(list.last())
    }
}

/// The ranking `base` with every point of `points` inserted in order.
pub open spec fn ranked_extend(
    base: Seq<ScoredPointOffset>,
    points: Seq<ScoredPointOffset>,
) -> Seq<ScoredPointOffset>
    decreases points.len(),
{
    if points.len() == 0 {
        base
    } else {
        ranked_insert(ranked_extend(base, points.drop_last()), points.last())
    }
}

/// The ranking of a sequence of pushed points.
pub open spec fn ranked(points: Seq<ScoredPointOffset>) -> Seq<ScoredPointOffset> {
    ranked_extend(Seq::empty(), points)
}

/// The first `k` elements, or all of them.
pub open spec fn first_k<T>(list: Seq<T>, k: nat) -> Seq<T> {
    if list.len() <= k {
        list
    } else {
        list.take(k as int)
    }
}

/// The `k` best of a sequence of pushed points.
pub open spec fn top_ranked(points: Seq<ScoredPointOffset>, k: nat) -> Seq<ScoredPointOffset> {
    first_k(ranked(points), k)
}

/// Scores never increase along the list.
pub open spec fn descending(list: Seq<ScoredPointOffset>) -> bool {
    forall|i: int, j: int| 0 <= i <= j < list.len() ==> list[i].score >= list[j].score
}

/// Inserting adds one point, keeps the order, and moves no rank down in score.
pub proof fn lemma_insert(list: Seq<ScoredPointOffset>, point: ScoredPointOffset)
    ensures
        ranked_insert(list, point).len() == list.len() + 1,
        ranked_insert(list, point).to_multiset() == list.to_multiset().insert(point),
        descending(list) ==> descending(ranked_insert(list, point)),
        descending(list) ==> forall|i: int|
            0 <= i < list.len() ==> (#[trigger] ranked_insert(list, point)[i]).score
                >= list[i].score,
        forall|i: int|
            0 <= i < ranked_insert(list, point).len() ==> #[trigger] ranked_insert(list, point)[i]
                == point || list.contains(ranked_insert(list, point)[i]),
    decreases list.len(),
{
    broadcast use vstd::seq_lib::group_to_multiset_ensures;

    let out = ranked_insert(list, point);
    if list.len() == 0 {
        assert(Seq::<ScoredPointOffset>::empty().push(point) =~= seq![point]);
        assert(list =~= Seq::empty());
        assert(out.to_multiset() =~= list.to_multiset().insert(point));
    } else if list.last().score >= point.score {
        assert(out == list.push(point));
        assert(out.to_multiset() =~= list.to_multiset().insert(point));
        assert forall|i: int| 0 <= i < out.len() implies #[trigger] out[i] == point
            || list.contains(out[i]) by {
            if i < list.len() {
                assert(out[i] == list[i]);
            }
        }
    } else {
        let shorter = list.drop_last();
        lemma_insert(shorter, point);
        let inner = ranked_insert(shorter, point);
        assert(out == inner.push(list.last()));
        assert(shorter.push(list.last()) =~= list);
        assert(out.to_multiset() =~= list.to_multiset().insert(point));
        assert forall|i: int| 0 <= i < out.len() implies #[trigger] out[i] == point
            || list.contains(out[i]) by {
            if i < inner.len() {
                assert(out[i] == inner[i]);
                if inner[i] != point {
                    assert(shorter.contains(inner[i]));
                    let j = choose|j: int| 0 <= j < shorter.len() && shorter[j] == inner[i];
                    assert(list[j] == out[i]);
                }
            } else {
                assert(out[i] == list[list.len() - 1]);
            }
        }
        if descending(list) {
            assert(descending(shorter));
            assert forall|i: int, j: int| 0 <= i <= j < out.len() implies out[i].score
                >= out[j].score by {
                if j == out.len() - 1 && i < inner.len() {
                    assert(out[i] == inner[i]);
                    if inner[i] != point {
                        let m = choose|m: int| 0 <= m < shorter.len() && shorter[m] == inner[i];
                        assert(list[m].score >= list[list.len() - 1].score);
                    }
                }
            }
            assert forall|i: int| 0 <= i < list.len() implies (#[trigger] out[i]).score
                >= list[i].score by {
                if i < shorter.len() {
                    assert(out[i] == inner[i]);
                    assert(shorter[i] == list[i]);
                } else {
                    assert(i == inner.len() - 1);
                    assert(out[i] == inner[i]);
                    if inner[i] != point {
                        let m = choose|m: int| 0 <= m < shorter.len() && shorter[m] == inner[i];
                        assert(list[m].score >= list[list.len() - 1].score);
                    }
                }
            }
        }
    }
}

/// Extending keeps the order and the points.
pub proof fn lemma_extend(base: Seq<ScoredPointOffset>, points: Seq<ScoredPointOffset>)
    ensures
        ranked_extend(base, points).len() == base.len() + points.len(),
        ranked_extend(base, points).to_multiset() == base.to_multiset().add(points.to_multiset()),
        descending(base) ==> descending(ranked_extend(base, points)),
    decreases points.len(),
{
    broadcast use vstd::seq_lib::group_to_multiset_ensures;

    if points.len() == 0 {
        assert(points =~= Seq::empty());
        assert(ranked_extend(base, points).to_multiset() =~= base.to_multiset().add(
            points.to_multiset(),
        ));
    } else {
        let shorter = points.drop_last();
        lemma_extend(base, shorter);
        lemma_insert(ranked_extend(base, shorter), points.last());
        assert(shorter.push(points.last()) =~= points);
        assert(ranked_extend(base, points).to_multiset() =~= base.to_multiset().add(
            points.to_multiset(),
        ));
    }
}

/// Ranking keeps exactly the pushed points, best first.
pub proof fn lemma_ranked(points: Seq<ScoredPointOffset>)
    ensures
        ranked(points).len() == points.len(),
        ranked(points).to_multiset() == points.to_multiset(),
        descending(ranked(points)),
{
    broadcast use vstd::seq_lib::group_to_multiset_ensures;

    lemma_extend(Seq::empty(), points);
    assert(ranked(points).to_multiset() =~= points.to_multiset());
}

/// Two insertions with different scores commute.
proof fn lemma_insert_commutes(
    list: Seq<ScoredPointOffset>,
    low: ScoredPointOffset,
    high: ScoredPointOffset,
)
    requires
        low.score < high.score,
    ensures
        ranked_insert(ranked_insert(list, low), high) == ranked_insert(
            ranked_insert(list, high),
            low,
        ),
    decreases list.len(),
{
    let with_low = ranked_insert(list, low);
    let with_high = ranked_insert(list, high);
    if list.len() == 0 {
        assert(with_low.drop_last() =~= Seq::empty());
        assert(ranked_insert(with_low.drop_last(), high) =~= seq![high]);
        assert(ranked_insert(with_low, high) =~= seq![high, low]);
        assert(ranked_insert(with_high, low) =~= seq![high, low]);
    } else {
        let shorter = list.drop_last();
        lemma_insert(shorter, low);
        lemma_insert(shorter, high);
        if list.last().score >= high.score {
            assert(with_low.drop_last() =~= list);
            assert(ranked_insert(with_low, high) =~= list.push(high).push(low));
            assert(ranked_insert(with_high, low) =~= list.push(high).push(low));
        } else if list.last().score >= low.score {
            assert(with_low.drop_last() =~= list);
            assert(ranked_insert(with_low, high) =~= ranked_insert(list, high).push(low));
            assert(with_high.last() == list.last());
        } else {
            lemma_insert_commutes(shorter, low, high);
            assert(with_low.drop_last() =~= ranked_insert(shorter, low));
            assert(with_high.drop_last() =~= ranked_insert(shorter, high));
        }
    }
}

/// Inserting after an extension is extending by the insertion.
proof fn lemma_extend_insert(
    base: Seq<ScoredPointOffset>,
    points: Seq<ScoredPointOffset>,
    point: ScoredPointOffset,
)
    ensures
        ranked_insert(ranked_extend(base, points), point) == ranked_extend(
            base,
            ranked_insert(points, point),
        ),
    decreases points.len(),
{
    let inserted = ranked_insert(points, point);
    lemma_insert(points, point);
    if points.len() == 0 {
        assert(inserted.drop_last() =~= Seq::empty());
        assert(points =~= Seq::empty());
    } else {
        let shorter = points.drop_last();
        let last = points.last();
        if last.score >= point.score {
            assert(inserted.drop_last() =~= points);
        } else {
            lemma_extend_insert(base, shorter, point);
            assert(inserted.drop_last() =~= ranked_insert(shorter, point));
            assert(inserted.last() == last);
            lemma_insert_commutes(ranked_extend(base, shorter), last, point);
        }
    }
}

/// Extending by points is extending by their ranking.
pub proof fn lemma_extend_ranked(base: Seq<ScoredPointOffset>, points: Seq<ScoredPointOffset>)
    ensures
        ranked_extend(base, points) == ranked_extend(base, ranked(points)),
    decreases points.len(),
{
    if points.len() == 0 {
        assert(ranked(points) =~= points);
    } else {
        let shorter = points.drop_last();
        lemma_extend_ranked(base, shorter);
        lemma_extend_insert(base, ranked(shorter), points.last());
    }
}

/// Extending by a concatenation extends twice.
pub proof fn lemma_extend_concat(
    base: Seq<ScoredPointOffset>,
    a: Seq<ScoredPointOffset>,
    b: Seq<ScoredPointOffset>,
)
    ensures
        ranked_extend(base, a + b) == ranked_extend(ranked_extend(base, a), b),
    decreases b.len(),
{
    if b.len() == 0 {
        assert(a + b =~= a);
    } else {
        lemma_extend_concat(base, a, b.drop_last());
        assert((a + b).drop_last() =~= a + b.drop_last());
    }
}

/// A truncated ranking inserts like the whole one, as far as the first `k` ranks go.
pub proof fn lemma_insert_first_k(
    list: Seq<ScoredPointOffset>,
    point: ScoredPointOffset,
    k: nat,
)
    requires
        descending(list),
    ensures
        first_k(ranked_insert(list, point), k) == first_k(
            ranked_insert(first_k(list, k), point),
            k,
        ),
    decreases list.len(),
{
    lemma_insert(list, point);
    lemma_insert(first_k(list, k), point);
    if list.len() > k {
        let shorter = list.drop_last();
        assert(descending(shorter));
        assert(first_k(shorter, k) =~= first_k(list, k));
        if list.last().score >= point.score {
            assert(ranked_insert(list, point) == list.push(point));
            if k > 0 {
                assert(first_k(list, k).last() == list[k - 1]);
                assert(list[k - 1].score >= list[list.len() - 1].score);
                assert(ranked_insert(first_k(list, k), point) == first_k(list, k).push(point));
            }
            assert(first_k(ranked_insert(list, point), k) =~= first_k(
                ranked_insert(first_k(list, k), point),
                k,
            ));
        } else {
            lemma_insert_first_k(shorter, point, k);
            lemma_insert(shorter, point);
            assert(first_k(ranked_insert(list, point), k) =~= first_k(
                ranked_insert(shorter, point),
                k,
            ));
        }
    }
}

/// A truncated ranking extends like the whole one, as far as the first `k` ranks go.
pub proof fn lemma_extend_first_k_base(
    base: Seq<ScoredPointOffset>,
    points: Seq<ScoredPointOffset>,
    k: nat,
)
    requires
        descending(base),
    ensures
        first_k(ranked_extend(base, points), k) == first_k(
            ranked_extend(first_k(base, k), points),
            k,
        ),
    decreases points.len(),
{
    if points.len() == 0 {
        assert(first_k(base, k) =~= first_k(first_k(base, k), k));
    } else {
        let shorter = points.drop_last();
        assert(descending(first_k(base, k)));
        lemma_extend_first_k_base(base, shorter, k);
        lemma_extend(base, shorter);
        lemma_extend(first_k(base, k), shorter);
        lemma_insert_first_k(ranked_extend(base, shorter), points.last(), k);
        lemma_insert_first_k(ranked_extend(first_k(base, k), shorter), points.last(), k);
    }
}

/// A point that ranks behind the first `i` points keeps them in front of itself.
proof fn lemma_insert_behind(list: Seq<ScoredPointOffset>, point: ScoredPointOffset, i: int)
    requires
        descending(list),
        0 <= i <= list.len(),
        forall|j: int| 0 <= j < i ==> (#[trigger] list[j]).score >= point.score,
    ensures
        ranked_insert(list, point)[i].score >= point.score,
        ranked_insert(list, point).take(i) == list.take(i),
    decreases list.len(),
{
    lemma_insert(list, point);
    if list.len() == 0 {
        assert(ranked_insert(list, point).take(i) =~= list.take(i));
    } else if list.last().score >= point.score {
        if i < list.len() {
            assert(ranked_insert(list, point)[i] == list[i]);
            assert(list[i].score >= list[list.len() - 1].score);
        }
        assert(ranked_insert(list, point).take(i) =~= list.take(i));
    } else {
        let shorter = list.drop_last();
        assert(i <= shorter.len());
        assert forall|j: int| 0 <= j < i implies (#[trigger] shorter[j]).score >= point.score by {
            assert(shorter[j] == list[j]);
        }
        lemma_insert_behind(shorter, point, i);
        lemma_insert(shorter, point);
        assert(ranked_insert(list, point)[i] == ranked_insert(shorter, point)[i]);
        assert(ranked_insert(list, point).take(i) =~= ranked_insert(shorter, point).take(i));
        assert(list.take(i) =~= shorter.take(i));
    }
}

/// Every rank of an extension is at least as good as the same rank of the added ranking.
proof fn lemma_extend_dominates(base: Seq<ScoredPointOffset>, points: Seq<ScoredPointOffset>)
    requires
        descending(base),
        descending(points),
    ensures
        forall|i: int|
            0 <= i < points.len() ==> (#[trigger] ranked_extend(base, points)[i]).score
                >= points[i].score,
    decreases points.len(),
{
    if points.len() > 0 {
        let shorter = points.drop_last();
        let last = points.last();
        let before = ranked_extend(base, shorter);
        assert(descending(shorter));
        lemma_extend_dominates(base, shorter);
        lemma_extend(base, shorter);
        lemma_insert(before, last);
        let n = shorter.len() as int;
        assert forall|j: int| 0 <= j < n implies (#[trigger] before[j]).score >= last.score by {
            assert(shorter[j] == points[j]);
            assert(points[j].score >= points[n].score);
        }
        lemma_insert_behind(before, last, n);
        assert forall|i: int| 0 <= i < points.len() implies (#[trigger] ranked_extend(
            base,
            points,
        )[i]).score >= points[i].score by {
            if i < n {
                assert(before[i].score >= shorter[i].score);
                assert(shorter[i] == points[i]);
            }
        }
    }
}

/// Only the first `k` of an added ranking matter to the first `k` of the extension.
pub proof fn lemma_extend_first_k_points(
    base: Seq<ScoredPointOffset>,
    points: Seq<ScoredPointOffset>,
    k: nat,
)
    requires
        descending(base),
        descending(points),
    ensures
        first_k(ranked_extend(base, points), k) == first_k(
            ranked_extend(base, first_k(points, k)),
            k,
        ),
    decreases points.len(),
{
    if points.len() > k {
        let shorter = points.drop_last();
        let last = points.last();
        let before = ranked_extend(base, shorter);
        assert(descending(shorter));
        lemma_extend_first_k_points(base, shorter, k);
        assert(first_k(shorter, k) =~= first_k(points, k));
        lemma_extend(base, shorter);
        lemma_extend_dominates(base, shorter);
        assert forall|j: int| 0 <= j < k implies (#[trigger] before[j]).score >= last.score by {
            assert(shorter[j] == points[j]);
            assert(points[j].score >= points[points.len() - 1].score);
        }
        lemma_insert_behind(before, last, k as int);
        lemma_insert(before, last);
        assert(first_k(ranked_extend(base, points), k) =~= first_k(before, k));
    }
}

/// The best of two groups of points are the best of the two groups' best.
///
/// Groups can therefore be ranked apart and merged afterwards.
pub proof fn lemma_top_ranked_concat(
    a: Seq<ScoredPointOffset>,
    b: Seq<ScoredPointOffset>,
    k: nat,
)
    ensures
        top_ranked(a + b, k) == top_ranked(top_ranked(a, k) + top_ranked(b, k), k),
{
    lemma_ranked(a);
    lemma_ranked(b);
    let ta = top_ranked(a, k);
    let tb = top_ranked(b, k);
    assert(descending(ta));
    assert(descending(tb));
    lemma_extend_concat(Seq::empty(), a, b);
    lemma_extend_concat(Seq::empty(), ta, tb);
    lemma_extend_ranked(ranked(a), b);
    lemma_extend_first_k_points(ranked(a), ranked(b), k);
    lemma_extend_first_k_base(ranked(a), tb, k);
    lemma_ranked_of_descending(ta);
    assert(ranked(ta) == ta);
}

/// A ranking that is already descending ranks to itself.
pub proof fn lemma_ranked_of_descending(points: Seq<ScoredPointOffset>)
    requires
        descending(points),
    ensures
        ranked(points) == points,
    decreases points.len(),
{
    if points.len() > 0 {
        let shorter = points.drop_last();
        assert(descending(shorter));
        lemma_ranked_of_descending(shorter);
        if shorter.len() > 0 {
            assert(shorter.last() == points[points.len() - 2]);
            assert(points[points.len() - 2].score >= points[points.len() - 1].score);
        }
        assert(ranked(points) =~= points);
    } else {
        assert(ranked(points) =~= points);
    }
}

/// Keeps the best points pushed to it, up to a fixed number.
pub struct FixedLengthPriorityQueue {
    length: usize,
    items: Vec<ScoredPointOffset>,
}

impl View for FixedLengthPriorityQueue {
    type V = Seq<ScoredPointOffset>;

    closed spec fn view(&self) -> Seq<ScoredPointOffset> {
        self.items@
    }
}

impl FixedLengthPriorityQueue {
    /// The number of points that are kept at most.
    pub closed spec fn length(&self) -> nat {
        self.length as nat
    }

    /// The kept points are ranked and within the limit.
    pub open spec fn wf(&self) -> bool {
        descending(self@) && self@.len() <= self.length()
    }

    /// An empty queue that keeps up to `length` points.
    pub fn new(length: usize) -> (queue: Self)
        ensures
            queue.wf(),
            queue@ == Seq::<ScoredPointOffset>::empty(),
            queue.length() == length,
    {
        FixedLengthPriorityQueue { length, items: Vec::new() }
    }

    /// Rank a point, dropping the worst point when the limit is exceeded.
    pub fn push(&mut self, point: ScoredPointOffset)
        requires
            old(self).wf(),
        ensures
            final(self).wf(),
            final(self).length() == old(self).length(),
            final(self)@ == first_k(ranked_insert(old(self)@, point), old(self).length()),
    {
        let ghost before = self.items@;
        let mut position: usize = self.items.len();
        proof {
            assert(before.take(before.len() as int) =~= before);
            assert(before.skip(before.len() as int) =~= Seq::empty());
            assert(ranked_insert(before, point) =~= ranked_insert(
                before.take(position as int),
                point,
            ) + before.skip(position as int));
        }
        while position > 0 && self.items[position - 1].score < point.score
            invariant
                position <= self.items@.len(),
                self.items@ == before,
                ranked_insert(before, point) == ranked_insert(before.take(position as int), point)
                    + before.skip(position as int),
            decreases position,
        {
            proof {
                let head = before.take(position as int);
                assert(head.drop_last() =~= before.take(position - 1));
                assert(head.last() == before[position - 1]);
                assert(ranked_insert(before.take(position - 1), point) + before.skip(position - 1)
                    =~= ranked_insert(head, point) + before.skip(position as int));
            }
            position = position - 1;
        }
        proof {
            let head = before.take(position as int);
            if position > 0 {
                assert(head.last() == before[position - 1]);
            }
            assert(ranked_insert(head, point) =~= head.push(point));
            assert(before.insert(position as int, point) =~= head.push(point) + before.skip(
                position as int,
            ));
            lemma_insert(before, point);
        }
        self.items.insert(position, point);
        let length: usize = self.length;
        self.items.truncate(length);
        proof {
            assert(self.items@ =~= first_k(ranked_insert(before, point), length as nat));
        }
    }

    /// The kept points, best first.
    pub fn into_sorted_vec(self) -> (points: Vec<ScoredPointOffset>)
        ensures
            points@ == self@,
    {
        self.items
    }
}

/// Pushing a whole list keeps the best of everything pushed.
pub fn push_all(queue: &mut FixedLengthPriorityQueue, points: &Vec<ScoredPointOffset>)
    requires
        old(queue).wf(),
    ensures
        final(queue).wf(),
        final(queue).length() == old(queue).length(),
        final(queue)@ == first_k(ranked_extend(old(queue)@, points@), old(queue).length()),
{
    let ghost before = queue@;
    let ghost k = queue.length();
    let mut i: usize = 0;
    proof {
        assert(points@.take(0) =~= Seq::empty());
        assert(first_k(before, k) =~= before);
    }
    while i < points.len()
        invariant
            i <= points@.len(),
            queue.wf(),
            queue.length() == k,
            descending(before),
            queue@ == first_k(ranked_extend(before, points@.take(i as int)), k),
        decreases points@.len() - i,
    {
        proof {
            let head = points@.take(i as int);
            assert(points@.take(i + 1).drop_last() =~= head);
            lemma_extend(before, head);
            lemma_insert_first_k(ranked_extend(before, head), points@[i as int], k);
        }
        queue.push(points[i]);
        i = i + 1;
    }
    proof {
        assert(points@.take(points@.len() as int) =~= points@);
    }
}

/// Pushing one more point ranks it among the best so far.
pub proof fn lemma_top_ranked_push(
    points: Seq<ScoredPointOffset>,
    point: ScoredPointOffset,
    k: nat,
)
    ensures
        top_ranked(points.push(point), k) == first_k(
            ranked_insert(top_ranked(points, k), point),
            k,
        ),
{
    lemma_ranked(points);
    assert(points.push(point).drop_last() =~= points);
    lemma_insert_first_k(ranked(points), point, k);
}

} // verus!
