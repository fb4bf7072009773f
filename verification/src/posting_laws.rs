//! Laws of collecting candidates from postings.

use vstd::prelude::*;
use vstd::relations::{sorted_by, total_ordering};

use crate::bits::{bit64, lemma_nonzero64, lemma_or64, lemma_zero64};
use crate::error::OperationResult;
use crate::exact_laws::lemma_same_members;
use crate::factorized_exact::{
    consolidated, distinct_points, has_point, lemma_reordered, lemma_scan_candidates,
    merge_candidate, ordinal_order, scan_candidates, touched_candidates, FactorizedExactCandidate,
};
use crate::integer_postings::{
    all_pairs, lemma_touched_points_range, posting_mask, touched_points,
    IntegerPosting, IntegerPostingBatch,
};
use crate::segment::{
    direct_candidates, has_stray_point, lemma_pairs_in_range, point_masks, postings_outcome,
};
use crate::top_k::first_k;
use crate::types::PointOffsetType;

verus! {

/// Every point of the pairs once, in order of its first occurrence, with its united masks.
pub open spec fn united_candidates(
    pairs: Seq<(PointOffsetType, u64)>,
) -> Seq<FactorizedExactCandidate> {
    consolidated(direct_candidates(pairs), |c: FactorizedExactCandidate| true)
}

/// Some pair holds the point.
pub open spec fn pairs_hold(pairs: Seq<(PointOffsetType, u64)>, point_id: PointOffsetType) -> bool {
    exists|k: int| 0 <= k < pairs.len() && (#[trigger] pairs[k]).0 == point_id
}

/// No point occurs twice.
pub open spec fn no_point_repeats(pairs: Seq<(PointOffsetType, u64)>) -> bool {
    forall|i: int, j: int|
        0 <= i < j < pairs.len() ==> (#[trigger] pairs[i]).0 != (#[trigger] pairs[j]).0
}

/// Every posting asks for some query.
pub open spec fn postings_ask(postings: Seq<IntegerPosting>) -> bool {
    forall|i: int| 0 <= i < postings.len() ==> (#[trigger] postings[i]).query_mask != 0
}

/// Every pair asks for some query.
spec fn pairs_ask(pairs: Seq<(PointOffsetType, u64)>) -> bool {
    forall|k: int| 0 <= k < pairs.len() ==> (#[trigger] pairs[k]).1 != 0
}

/// One more pair is merged into the united candidates.
proof fn lemma_united_step(pairs: Seq<(PointOffsetType, u64)>)
    requires
        pairs.len() > 0,
    ensures
        united_candidates(pairs) == merge_candidate(
            united_candidates(pairs.drop_last()),
            FactorizedExactCandidate { point_id: pairs.last().0, query_mask: pairs.last().1 },
        ),
{
    assert(direct_candidates(pairs).drop_last() =~= direct_candidates(pairs.drop_last()));
}

/// United candidates hold every point of the pairs once, each with the union of the masks that the
/// pairs give it.
pub proof fn lemma_united_candidates(pairs: Seq<(PointOffsetType, u64)>)
    ensures
        distinct_points(united_candidates(pairs)),
        forall|i: int|
            0 <= i < united_candidates(pairs).len() ==> (#[trigger] united_candidates(
                pairs,
            )[i]).query_mask == posting_mask(pairs, united_candidates(pairs)[i].point_id as int),
        forall|point_id: PointOffsetType| #[trigger]
            has_point(united_candidates(pairs), point_id) <==> pairs_hold(pairs, point_id),
    decreases pairs.len(),
{
    let list = united_candidates(pairs);
    if pairs.len() > 0 {
        let rest = pairs.drop_last();
        let last = pairs.last();
        let previous = united_candidates(rest);
        lemma_united_candidates(rest);
        lemma_united_step(pairs);
        assert forall|point_id: PointOffsetType| #[trigger]
            has_point(list, point_id) <==> pairs_hold(pairs, point_id) by {
            assert(has_point(previous, point_id) <==> pairs_hold(rest, point_id));
            assert(pairs_hold(pairs, point_id) <==> pairs_hold(rest, point_id) || point_id
                == last.0) by {
                if pairs_hold(rest, point_id) {
                    let k = choose|k: int| 0 <= k < rest.len() && (#[trigger] rest[k]).0 == point_id;
                    assert(pairs[k] == rest[k]);
                }
                if pairs_hold(pairs, point_id) {
                    let k = choose|k: int|
                        0 <= k < pairs.len() && (#[trigger] pairs[k]).0 == point_id;
                    if k < rest.len() {
                        assert(rest[k] == pairs[k]);
                    }
                }
                assert(pairs[pairs.len() - 1] == last);
            }
            if has_point(previous, point_id) {
                let i = choose|i: int|
                    0 <= i < previous.len() && (#[trigger] previous[i]).point_id == point_id;
                assert(list[i].point_id == point_id);
            }
            if point_id == last.0 && !has_point(previous, point_id) {
                assert(list[previous.len() as int].point_id == point_id);
            }
            if has_point(list, point_id) {
                let i = choose|i: int|
                    0 <= i < list.len() && (#[trigger] list[i]).point_id == point_id;
                if i < previous.len() {
                    assert(previous[i].point_id == point_id);
                }
            }
        }
        assert forall|i: int| 0 <= i < list.len() implies (#[trigger] list[i]).query_mask
            == posting_mask(pairs, list[i].point_id as int) by {
            if i < previous.len() {
                assert(previous[i].point_id == list[i].point_id);
                assert(previous[i].query_mask == posting_mask(rest, previous[i].point_id as int));
                if previous[i].point_id == last.0 {
                    assert(has_point(previous, last.0));
                }
            } else {
                assert(!pairs_hold(rest, last.0)) by {
                    assert(has_point(previous, last.0) <==> pairs_hold(rest, last.0));
                }
                lemma_no_mask(rest, last.0);
                let mask = last.1;
                assert(0u64 | mask == mask) by (bit_vector);
            }
        }
        if !has_point(previous, last.0) {
            assert(forall|i: int|
                0 <= i < previous.len() ==> (#[trigger] previous[i]).point_id != last.0);
        }
    }
}

/// A point that no pair holds has no mask.
proof fn lemma_no_mask(pairs: Seq<(PointOffsetType, u64)>, point_id: PointOffsetType)
    requires
        !pairs_hold(pairs, point_id),
    ensures
        posting_mask(pairs, point_id as int) == 0,
    decreases pairs.len(),
{
    if pairs.len() > 0 {
        let rest = pairs.drop_last();
        assert(pairs[pairs.len() - 1].0 != point_id);
        if pairs_hold(rest, point_id) {
            let k = choose|k: int| 0 <= k < rest.len() && (#[trigger] rest[k]).0 == point_id;
            assert(pairs[k].0 == point_id);
        }
        lemma_no_mask(rest, point_id);
    }
}

/// A point that some pair holds has a mask when every pair asks for some query.
proof fn lemma_some_mask(pairs: Seq<(PointOffsetType, u64)>, point_id: PointOffsetType)
    requires
        pairs_ask(pairs),
        pairs_hold(pairs, point_id),
    ensures
        posting_mask(pairs, point_id as int) != 0,
    decreases pairs.len(),
{
    let rest = pairs.drop_last();
    let last = pairs.last();
    let mask = posting_mask(rest, point_id as int);
    assert(pairs[pairs.len() - 1] == last);
    assert(pairs_ask(rest)) by {
        assert forall|k: int| 0 <= k < rest.len() implies (#[trigger] rest[k]).1 != 0 by {
            assert(pairs[k] == rest[k]);
        }
    }
    lemma_zero64();
    if last.0 == point_id {
        let bit = lemma_nonzero64(last.1);
        lemma_or64(mask, last.1);
        assert(bit64(mask | last.1, bit));
    } else {
        let k = choose|k: int| 0 <= k < pairs.len() && (#[trigger] pairs[k]).0 == point_id;
        assert(rest[k] == pairs[k]);
        lemma_some_mask(rest, point_id);
    }
}

/// The points of candidates.
spec fn points_of(list: Seq<FactorizedExactCandidate>) -> Seq<PointOffsetType> {
    list.map_values(|c: FactorizedExactCandidate| c.point_id)
}

/// The touched points are the points of the first united candidates.
proof fn lemma_touched_united(pairs: Seq<(PointOffsetType, u64)>, cap: nat)
    requires
        pairs_ask(pairs),
    ensures
        touched_points(pairs, cap) == first_k(points_of(united_candidates(pairs)), cap),
    decreases pairs.len(),
{
    let list = united_candidates(pairs);
    if pairs.len() > 0 {
        let rest = pairs.drop_last();
        let last = pairs.last();
        let previous = united_candidates(rest);
        assert(pairs_ask(rest)) by {
            assert forall|k: int| 0 <= k < rest.len() implies (#[trigger] rest[k]).1 != 0 by {
                assert(pairs[k] == rest[k]);
            }
        }
        lemma_touched_united(rest, cap);
        lemma_united_step(pairs);
        lemma_united_candidates(rest);
        assert(has_point(previous, last.0) <==> pairs_hold(rest, last.0));
        if has_point(previous, last.0) {
            lemma_some_mask(rest, last.0);
            assert(points_of(list) =~= points_of(previous));
        } else {
            lemma_no_mask(rest, last.0);
            assert(points_of(list) =~= points_of(previous).push(last.0));
            assert(touched_points(pairs, cap) =~= first_k(points_of(list), cap));
        }
    } else {
        assert(touched_points(pairs, cap) =~= first_k(points_of(list), cap));
    }
}

/// Following the points of the united candidates gives the united candidates.
proof fn lemma_follow_united(
    pairs: Seq<(PointOffsetType, u64)>,
    total_points: nat,
    n: int,
)
    requires
        pairs_ask(pairs),
        forall|k: int| 0 <= k < pairs.len() ==> (#[trigger] pairs[k]).0 < total_points,
        0 <= n <= united_candidates(pairs).len(),
    ensures
        touched_candidates(
            point_masks(pairs, total_points),
            points_of(united_candidates(pairs)).take(n),
        ) == united_candidates(pairs).take(n),
    decreases n,
{
    let masks = point_masks(pairs, total_points);
    let list = united_candidates(pairs);
    let ids = points_of(list);
    if n > 0 {
        lemma_follow_united(pairs, total_points, n - 1);
        lemma_united_candidates(pairs);
        assert(ids.take(n).drop_last() =~= ids.take(n - 1));
        let c = list[n - 1];
        assert(ids.take(n).last() == c.point_id);
        assert(has_point(list, c.point_id));
        let k = choose|k: int| 0 <= k < pairs.len() && (#[trigger] pairs[k]).0 == c.point_id;
        assert(pairs[k].0 < total_points);
        lemma_some_mask(pairs, c.point_id);
        assert(masks[c.point_id as int] == c.query_mask);
        assert(list.take(n) =~= list.take(n - 1).push(c));
    } else {
        assert(list.take(0) =~= Seq::empty());
        assert(ids.take(0) =~= Seq::empty());
    }
}

/// A scan of all points gives the united candidates in ordinal order.
proof fn lemma_scan_united(pairs: Seq<(PointOffsetType, u64)>, total_points: nat)
    requires
        pairs_ask(pairs),
        forall|k: int| 0 <= k < pairs.len() ==> (#[trigger] pairs[k]).0 < total_points,
        total_points <= PointOffsetType::MAX + 1,
    ensures
        scan_candidates(point_masks(pairs, total_points), total_points).to_multiset()
            == united_candidates(pairs).to_multiset(),
        ordinal_order(scan_candidates(point_masks(pairs, total_points), total_points)),
{
    let masks = point_masks(pairs, total_points);
    let scan = scan_candidates(masks, total_points);
    let list = united_candidates(pairs);
    lemma_scan_candidates(masks, total_points);
    lemma_united_candidates(pairs);
    assert forall|i: int| 0 <= i < scan.len() implies list.contains(#[trigger] scan[i]) by {
        let p = scan[i].point_id;
        if !pairs_hold(pairs, p) {
            lemma_no_mask(pairs, p);
        }
        assert(has_point(list, p));
        let j = choose|j: int| 0 <= j < list.len() && (#[trigger] list[j]).point_id == p;
        assert(list[j] == scan[i]);
    }
    assert forall|i: int| 0 <= i < list.len() implies scan.contains(#[trigger] list[i]) by {
        let p = list[i].point_id;
        assert(has_point(list, p));
        let k = choose|k: int| 0 <= k < pairs.len() && (#[trigger] pairs[k]).0 == p;
        assert(pairs[k].0 < total_points);
        lemma_some_mask(pairs, p);
        assert(has_point(scan, p));
        let j = choose|j: int| 0 <= j < scan.len() && (#[trigger] scan[j]).point_id == p;
        assert(scan[j] == list[i]);
    }
    lemma_distinct(scan);
    lemma_distinct(list);
    lemma_same_members(scan, list);
}

proof fn lemma_distinct(list: Seq<FactorizedExactCandidate>)
    requires
        distinct_points(list),
    ensures
        list.no_duplicates(),
{
    assert forall|i: int, j: int| 0 <= i < list.len() && 0 <= j < list.len() && i
        != j implies list[i] != list[j] by {
        if i < j {
            assert(list[i].point_id != list[j].point_id);
        } else {
            assert(list[j].point_id != list[i].point_id);
        }
    }
}

/// Pairs without repetitions are united as they are.
proof fn lemma_united_directly(pairs: Seq<(PointOffsetType, u64)>)
    requires
        no_point_repeats(pairs),
    ensures
        united_candidates(pairs) == direct_candidates(pairs),
    decreases pairs.len(),
{
    if pairs.len() > 0 {
        let rest = pairs.drop_last();
        assert(no_point_repeats(rest)) by {
            assert forall|i: int, j: int| 0 <= i < j < rest.len() implies (#[trigger] rest[i]).0 != (
            #[trigger] rest[j]).0 by {
                assert(pairs[i] == rest[i] && pairs[j] == rest[j]);
            }
        }
        lemma_united_directly(rest);
        lemma_united_step(pairs);
        lemma_united_candidates(rest);
        let last = pairs.last();
        assert(!pairs_hold(rest, last.0)) by {
            if pairs_hold(rest, last.0) {
                let k = choose|k: int| 0 <= k < rest.len() && (#[trigger] rest[k]).0 == last.0;
                assert(pairs[k].0 != pairs[pairs.len() - 1].0);
            }
        }
        assert(!has_point(united_candidates(rest), last.0));
        assert(direct_candidates(pairs) =~= direct_candidates(rest).push(
            FactorizedExactCandidate { point_id: last.0, query_mask: last.1 },
        ));
    } else {
        assert(united_candidates(pairs) =~= direct_candidates(pairs));
    }
}

/// Every pair of postings that ask asks.
proof fn lemma_pairs_ask(postings: Seq<IntegerPosting>)
    requires
        postings_ask(postings),
    ensures
        pairs_ask(all_pairs(postings)),
    decreases postings.len(),
{
    if postings.len() > 0 {
        let rest = postings.drop_last();
        assert(postings_ask(rest)) by {
            assert forall|i: int| 0 <= i < rest.len() implies (#[trigger] rest[i]).query_mask
                != 0 by {
                assert(postings[i] == rest[i]);
            }
        }
        lemma_pairs_ask(rest);
        let head = all_pairs(rest);
        let pairs = all_pairs(postings);
        assert forall|k: int| 0 <= k < pairs.len() implies (#[trigger] pairs[k]).1 != 0 by {
            if k < head.len() {
                assert(pairs[k] == head[k]);
            } else {
                assert(postings[postings.len() - 1].query_mask != 0);
            }
        }
    }
}

/// The list is the united candidates: in ordinal order when there are many of them, and else in
/// order of first occurrence.
pub open spec fn lists_united(
    list: Seq<FactorizedExactCandidate>,
    united: Seq<FactorizedExactCandidate>,
    threshold: nat,
) -> bool {
    if united.len() >= threshold {
        list.to_multiset() == united.to_multiset() && ordinal_order(list)
    } else {
        list == united
    }
}

/// Whichever way candidates are collected, they are all points of the postings, each once and with
/// the union of its masks. Nothing is collected exactly when some posting holds a point that does
/// not exist.
pub proof fn lemma_candidates_are_united(
    batch: IntegerPostingBatch,
    total_points: nat,
    threshold: nat,
    r: OperationResult<Option<Vec<FactorizedExactCandidate>>>,
)
    requires
        postings_outcome(batch, total_points, threshold, r),
        postings_ask(batch.postings@),
        batch.single_valued ==> no_point_repeats(all_pairs(batch.postings@)),
        total_points <= PointOffsetType::MAX + 1,
        all_pairs(batch.postings@).len() <= usize::MAX,
    ensures
        match r {
            Ok(None) => has_stray_point(batch.postings@, total_points),
            Ok(Some(list)) => {
                &&& !has_stray_point(batch.postings@, total_points)
                &&& lists_united(
                    list@,
                    united_candidates(all_pairs(batch.postings@)),
                    threshold,
                )
            },
            Err(_) => false,
        },
{
    let pairs = all_pairs(batch.postings@);
    let united = united_candidates(pairs);
    if !has_stray_point(batch.postings@, total_points) {
        lemma_pairs_ask(batch.postings@);
        lemma_pairs_in_range(batch.postings@, total_points);
        lemma_touched_points_range(pairs, threshold, total_points as int);
        lemma_touched_united(pairs, threshold);
        lemma_scan_united(pairs, total_points);
        lemma_follow_united(pairs, total_points, united.len() as int);
        assert(united.take(united.len() as int) =~= united);
        assert(points_of(united).take(united.len() as int) =~= points_of(united));
        if batch.single_valued {
            lemma_united_directly(pairs);
        }
    }
}

/// Lists of united candidates are equal.
proof fn lemma_united_lists_equal(
    a: Seq<FactorizedExactCandidate>,
    b: Seq<FactorizedExactCandidate>,
    pairs: Seq<(PointOffsetType, u64)>,
    threshold: nat,
)
    requires
        lists_united(a, united_candidates(pairs), threshold),
        lists_united(b, united_candidates(pairs), threshold),
    ensures
        a == b,
{
    let united = united_candidates(pairs);
    if united.len() >= threshold {
        lemma_united_candidates(pairs);
        lemma_reordered(united, a);
        lemma_reordered(united, b);
        let order = |x: FactorizedExactCandidate, y: FactorizedExactCandidate|
            x.point_id < y.point_id || (x.point_id == y.point_id && x.query_mask <= y.query_mask);
        assert(total_ordering(order));
        assert(sorted_by(a, order)) by {
            assert forall|i: int, j: int| 0 <= i < j < a.len() implies #[trigger] order(
                a[i],
                a[j],
            ) by {
                assert(a[i].point_id <= a[j].point_id && a[i].point_id != a[j].point_id);
            }
        }
        assert(sorted_by(b, order)) by {
            assert forall|i: int, j: int| 0 <= i < j < b.len() implies #[trigger] order(
                b[i],
                b[j],
            ) by {
                assert(b[i].point_id <= b[j].point_id && b[i].point_id != b[j].point_id);
            }
        }
        vstd::seq_lib::lemma_sorted_unique(a, b, order);
    }
}

/// When no point repeats, it makes no difference whether postings are marked as single-valued.
pub proof fn lemma_single_valued_flag_is_irrelevant(
    a: IntegerPostingBatch,
    b: IntegerPostingBatch,
    total_points: nat,
    threshold: nat,
    r: OperationResult<Option<Vec<FactorizedExactCandidate>>>,
    s: OperationResult<Option<Vec<FactorizedExactCandidate>>>,
)
    requires
        a.postings@ == b.postings@,
        postings_outcome(a, total_points, threshold, r),
        postings_outcome(b, total_points, threshold, s),
        postings_ask(a.postings@),
        no_point_repeats(all_pairs(a.postings@)),
        total_points <= PointOffsetType::MAX + 1,
        all_pairs(a.postings@).len() <= usize::MAX,
    ensures
        match r {
            Ok(Some(list)) => s matches Ok(Some(other)) && list@ == other@,
            Ok(None) => s matches Ok(None),
            Err(_) => false,
        },
{
    lemma_candidates_are_united(a, total_points, threshold, r);
    lemma_candidates_are_united(b, total_points, threshold, s);
    if !has_stray_point(a.postings@, total_points) {
        let list = r->Ok_0->0;
        let other = s->Ok_0->0;
        lemma_united_lists_equal(list@, other@, all_pairs(a.postings@), threshold);
    }
}

} // verus!
