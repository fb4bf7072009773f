//! Candidate-major exact search on a segment: from payload postings to a plan, and from tile
//! results to search results.

use vstd::prelude::*;

use crate::arith::min_int;
use crate::bits::{bit64, lemma_zero_iff64, zero_words64};
use crate::counter::HardwareCounterCell;
use crate::error::{
    always_stopped, can_poll, cancelled, check_process_stopped, failed, may_stop, OperationError,
    OperationResult,
};
use crate::factorized_exact::{
    build_candidate_major_exact_plan, built, checked, collect_factorized_exact_candidates,
    collected, consolidated, counted, has_point, has_stray_query, lemma_scan_candidates,
    lemma_touched_candidates, no_prepare_stats, ordinal_order, plan_fault, preprocessed,
    scan_candidates, scorable, score_candidate_major_exact_tile, score_pairs, sort_by_point,
    tile_fault, tile_scored, touched_candidates, CandidateMajorExactConfig,
    CandidateMajorExactPlan, CandidateMajorExactPrepareStats, CandidateMajorExactTileOutput,
    FactorizedExactCandidate, PlanView, ScoreTable,
};
use crate::factorized_filter::FactorizedFilterPlan;
use crate::filter::PayloadKeyType;
use crate::integer_postings::{
    all_pairs, lemma_all_pairs_prefix, lemma_posting_mask, lemma_touched_points,
    lemma_touched_points_range, posting_mask, posting_pairs, touched_points, IntegerPosting,
    IntegerPostingAtom, IntegerPostingBatch,
};
use crate::storage::{QueryVector, VectorElementType, VectorStorage, VectorStorageKind};
use crate::types::{PointOffsetType, ScoreType, ScoredPointOffset};

verus! {

/// Share of all points above which postings count as dense, as a denominator.
pub const MAX_DENSITY_DENOMINATOR: usize = 4;

/// Few postings, or few compared with all points.
pub open spec fn is_sparse_enough(posting_points: nat, total_points: nat, threshold: nat) -> bool {
    posting_points < threshold || posting_points <= total_points / 4
}

/// Tell whether the points of single-valued postings are collected one by one.
pub fn should_collect_single_valued_directly(
    posting_points: usize,
    total_point_count: usize,
    ordinal_ordering_threshold: usize,
) -> (r: bool)
    ensures
        r == is_sparse_enough(
            posting_points as nat,
            total_point_count as nat,
            ordinal_ordering_threshold as nat,
        ),
{
    posting_points < ordinal_ordering_threshold || posting_points <= total_point_count
        / MAX_DENSITY_DENOMINATOR
}

/// Microseconds of a duration, as far as they fit.
pub fn duration_micros_u64(micros: u128) -> (r: u64)
    ensures
        r == min_int(micros as int, u64::MAX as int),
{
    if micros <= u64::MAX as u128 {
        micros as u64
    } else {
        u64::MAX
    }
}

/// Some posting holds a point that does not exist.
pub open spec fn has_stray_point(postings: Seq<IntegerPosting>, total_points: nat) -> bool {
    exists|i: int, j: int|
        0 <= i < postings.len() && 0 <= j < postings[i].point_ids@.len()
            && #[trigger] postings[i].point_ids@[j] >= total_points
}

/// One candidate per pair.
pub open spec fn direct_candidates(
    pairs: Seq<(PointOffsetType, u64)>,
) -> Seq<FactorizedExactCandidate> {
    pairs.map_values(
        |pair: (PointOffsetType, u64)|
            FactorizedExactCandidate { point_id: pair.0, query_mask: pair.1 },
    )
}

/// The united mask of every point.
pub open spec fn point_masks(pairs: Seq<(PointOffsetType, u64)>, total_points: nat) -> Seq<u64> {
    Seq::new(total_points, |p: int| posting_mask(pairs, p))
}

/// What collecting candidates from postings gives when it is not cancelled.
pub open spec fn postings_outcome(
    batch: IntegerPostingBatch,
    total_points: nat,
    threshold: nat,
    r: OperationResult<Option<Vec<FactorizedExactCandidate>>>,
) -> bool {
    let pairs = all_pairs(batch.postings@);
    if batch.single_valued && pairs.len() > usize::MAX {
        failed(r, "integer posting point count overflow"@)
    } else if has_stray_point(batch.postings@, total_points) {
        r matches Ok(None)
    } else if batch.single_valued && is_sparse_enough(pairs.len(), total_points, threshold) {
        &&& r matches Ok(Some(list))
        &&& list@.to_multiset() == direct_candidates(pairs).to_multiset()
        &&& if pairs.len() >= threshold {
            ordinal_order(list@)
        } else {
            list@ == direct_candidates(pairs)
        }
    } else {
        match r {
            Ok(None) => false,
            Ok(Some(list)) => collected(
                point_masks(pairs, total_points),
                touched_points(pairs, threshold),
                threshold,
                Ok(list),
            ),
            Err(error) => collected(
                point_masks(pairs, total_points),
                touched_points(pairs, threshold),
                threshold,
                Err(error),
            ),
        }
    }
}

/// Count the points of all postings, unless the count does not fit.
fn count_points(postings: &Vec<IntegerPosting>) -> (r: Option<usize>)
    ensures
        match r {
            Some(count) => count == all_pairs(postings@).len(),
            None => all_pairs(postings@).len() > usize::MAX,
        },
{
    let mut sum: usize = 0;
    let mut i: usize = 0;
    proof {
        assert(postings@.take(0) =~= Seq::empty());
    }
    while i < postings.len()
        invariant
            i <= postings@.len(),
            sum == all_pairs(postings@.take(i as int)).len(),
        decreases postings@.len() - i,
    {
        proof {
            assert(postings@.take(i + 1).drop_last() =~= postings@.take(i as int));
            lemma_all_pairs_prefix(postings@, i + 1);
        }
        match sum.checked_add(postings[i].point_ids.len()) {
            Some(next) => {
                sum = next;
            },
            None => {
                return None;
            },
        }
        i = i + 1;
    }
    proof {
        assert(postings@.take(i as int) =~= postings@);
    }
    Some(sum)
}

/// One candidate per point of every posting, or nothing when a point does not exist.
fn collect_directly<S: Fn() -> bool>(
    postings: &Vec<IntegerPosting>,
    total_point_count: usize,
    is_stopped: &S,
) -> (r: OperationResult<Option<Vec<FactorizedExactCandidate>>>)
    requires
        can_poll(is_stopped),
    ensures
        cancelled(r) || r is Ok,
        cancelled(r) ==> may_stop(is_stopped) && postings@.len() > 0,
        always_stopped(is_stopped) && postings@.len() > 0 ==> cancelled(r),
        r matches Ok(None) ==> has_stray_point(postings@, total_point_count as nat),
        r matches Ok(Some(list)) ==> !has_stray_point(postings@, total_point_count as nat)
            && list@ == direct_candidates(all_pairs(postings@)),
{
    let mut candidates: Vec<FactorizedExactCandidate> = Vec::new();
    let mut until_poll: usize = 0;
    let mut i: usize = 0;
    proof {
        assert(postings@.take(0) =~= Seq::empty());
    }
    while i < postings.len()
        invariant
            i <= postings@.len(),
            can_poll(is_stopped),
            always_stopped(is_stopped) ==> i == 0,
            until_poll < 4096,
            candidates@ == direct_candidates(all_pairs(postings@.take(i as int))),
            !has_stray_point(postings@.take(i as int), total_point_count as nat),
        decreases postings@.len() - i,
    {
        match check_process_stopped(is_stopped) {
            Ok(_) => {},
            Err(error) => {
                return Err(error);
            },
        }
        let posting = &postings[i];
        let mut j: usize = 0;
        let ghost head = all_pairs(postings@.take(i as int));
        proof {
            assert(head + posting_pairs(*posting, 0) =~= head);
        }
        while j < posting.point_ids.len()
            invariant
                i < postings@.len(),
                *posting == postings@[i as int],
                j <= posting.point_ids@.len(),
                can_poll(is_stopped),
                !always_stopped(is_stopped),
                until_poll < 4096,
                candidates@ == direct_candidates(head + posting_pairs(*posting, j as int)),
                forall|k: int|
                    0 <= k < j ==> #[trigger] posting.point_ids@[k] < total_point_count,
            decreases posting.point_ids@.len() - j,
        {
            if until_poll == 0 {
                match check_process_stopped(is_stopped) {
                    Ok(_) => {},
                    Err(error) => {
                        return Err(error);
                    },
                }
            }
            until_poll = (until_poll + 1) % 4096;
            let point_id: PointOffsetType = posting.point_ids[j];
            if point_id as usize >= total_point_count {
                proof {
                    assert(postings@[i as int].point_ids@[j as int] >= total_point_count);
                }
                return Ok(None);
            }
            candidates.push(FactorizedExactCandidate::new(point_id, posting.query_mask));
            proof {
                assert(posting_pairs(*posting, j + 1) =~= posting_pairs(*posting, j as int).push(
                    (point_id, posting.query_mask),
                ));
                assert(direct_candidates(head + posting_pairs(*posting, j + 1))
                    =~= direct_candidates(head + posting_pairs(*posting, j as int)).push(
                    FactorizedExactCandidate { point_id, query_mask: posting.query_mask },
                ));
            }
            j = j + 1;
        }
        proof {
            let longer = postings@.take(i + 1);
            assert(longer.drop_last() =~= postings@.take(i as int));
            lemma_no_stray_point(postings@, i as int, total_point_count as nat);
        }
        i = i + 1;
    }
    proof {
        assert(postings@.take(i as int) =~= postings@);
    }
    Ok(Some(candidates))
}

/// One more posting without stray points.
proof fn lemma_no_stray_point(postings: Seq<IntegerPosting>, i: int, total_points: nat)
    requires
        0 <= i < postings.len(),
        !has_stray_point(postings.take(i), total_points),
        forall|k: int|
            0 <= k < postings[i].point_ids@.len() ==> #[trigger] postings[i].point_ids@[k]
                < total_points,
    ensures
        !has_stray_point(postings.take(i + 1), total_points),
{
    let longer = postings.take(i + 1);
    if has_stray_point(longer, total_points) {
        let (a, b) = choose|a: int, b: int|
            0 <= a < longer.len() && 0 <= b < longer[a].point_ids@.len()
                && #[trigger] longer[a].point_ids@[b] >= total_points;
        if a < i {
            assert(postings.take(i)[a].point_ids@[b] >= total_points);
        } else {
            assert(postings[i].point_ids@[b] >= total_points);
        }
    }
}

/// Unite the masks of every point and note which points were met, or give nothing when a point
/// does not exist.
fn unite_masks<S: Fn() -> bool>(
    postings: &Vec<IntegerPosting>,
    total_point_count: usize,
    ordinal_ordering_threshold: usize,
    is_stopped: &S,
) -> (r: OperationResult<Option<(Vec<u64>, Vec<PointOffsetType>)>>)
    requires
        can_poll(is_stopped),
    ensures
        cancelled(r) || r is Ok,
        cancelled(r) ==> may_stop(is_stopped) && postings@.len() > 0,
        always_stopped(is_stopped) && postings@.len() > 0 ==> cancelled(r),
        r matches Ok(None) ==> has_stray_point(postings@, total_point_count as nat),
        r matches Ok(Some((masks, touched))) ==> {
            &&& !has_stray_point(postings@, total_point_count as nat)
            &&& masks@ == point_masks(all_pairs(postings@), total_point_count as nat)
            &&& touched@ == touched_points(
                all_pairs(postings@),
                ordinal_ordering_threshold as nat,
            )
        },
{
    let mut masks = zero_words64(total_point_count);
    let mut touched: Vec<PointOffsetType> = Vec::new();
    let mut until_poll: usize = 0;
    let mut i: usize = 0;
    proof {
        assert(postings@.take(0) =~= Seq::empty());
        assert(masks@ =~= point_masks(
            all_pairs(postings@.take(0)),
            total_point_count as nat,
        ));
    }
    while i < postings.len()
        invariant
            i <= postings@.len(),
            can_poll(is_stopped),
            always_stopped(is_stopped) ==> i == 0,
            until_poll < 4096,
            masks@ == point_masks(
                all_pairs(postings@.take(i as int)),
                total_point_count as nat,
            ),
            touched@ == touched_points(
                all_pairs(postings@.take(i as int)),
                ordinal_ordering_threshold as nat,
            ),
            !has_stray_point(postings@.take(i as int), total_point_count as nat),
        decreases postings@.len() - i,
    {
        match check_process_stopped(is_stopped) {
            Ok(_) => {},
            Err(error) => {
                return Err(error);
            },
        }
        let posting = &postings[i];
        let mut j: usize = 0;
        let ghost head = all_pairs(postings@.take(i as int));
        proof {
            assert(head + posting_pairs(*posting, 0) =~= head);
        }
        while j < posting.point_ids.len()
            invariant
                i < postings@.len(),
                *posting == postings@[i as int],
                j <= posting.point_ids@.len(),
                can_poll(is_stopped),
                !always_stopped(is_stopped),
                until_poll < 4096,
                masks@ == point_masks(
                    head + posting_pairs(*posting, j as int),
                    total_point_count as nat,
                ),
                touched@ == touched_points(
                    head + posting_pairs(*posting, j as int),
                    ordinal_ordering_threshold as nat,
                ),
                forall|k: int|
                    0 <= k < j ==> #[trigger] posting.point_ids@[k] < total_point_count,
            decreases posting.point_ids@.len() - j,
        {
            if until_poll == 0 {
                match check_process_stopped(is_stopped) {
                    Ok(_) => {},
                    Err(error) => {
                        return Err(error);
                    },
                }
            }
            until_poll = (until_poll + 1) % 4096;
            let point_id: PointOffsetType = posting.point_ids[j];
            let ghost before = head + posting_pairs(*posting, j as int);
            let ghost after = head + posting_pairs(*posting, j + 1);
            proof {
                assert(after =~= before.push((point_id, posting.query_mask)));
                assert(after.drop_last() =~= before);
            }
            if point_id as usize >= masks.len() {
                proof {
                    assert(postings@[i as int].point_ids@[j as int] >= total_point_count);
                }
                return Ok(None);
            }
            let mask: u64 = masks[point_id as usize];
            if mask == 0 && touched.len() < ordinal_ordering_threshold {
                touched.push(point_id);
            }
            masks.set(point_id as usize, mask | posting.query_mask);
            proof {
                assert(masks@ =~= point_masks(after, total_point_count as nat)) by {
                    assert forall|p: int| 0 <= p < total_point_count implies masks@[p]
                        == point_masks(after, total_point_count as nat)[p] by {
                        assert(posting_mask(after, p) == (if point_id == p {
                            posting_mask(before, p) | posting.query_mask
                        } else {
                            posting_mask(before, p)
                        }));
                    }
                }
            }
            j = j + 1;
        }
        proof {
            let longer = postings@.take(i + 1);
            assert(longer.drop_last() =~= postings@.take(i as int));
            lemma_no_stray_point(postings@, i as int, total_point_count as nat);
        }
        i = i + 1;
    }
    proof {
        assert(postings@.take(i as int) =~= postings@);
    }
    Ok(Some((masks, touched)))
}

/// Turn the postings of a batch into candidates.
///
/// Single-valued postings are collected one by one while they are few. Otherwise the masks of
/// every point are united. `Ok(None)` tells that a posting holds a point that does not exist.
pub fn candidates_from_integer_postings<S: Fn() -> bool>(
    posting_batch: IntegerPostingBatch,
    total_point_count: usize,
    ordinal_ordering_threshold: usize,
    is_stopped: &S,
) -> (r: OperationResult<Option<Vec<FactorizedExactCandidate>>>)
    requires
        can_poll(is_stopped),
    ensures
        cancelled(r) ==> may_stop(is_stopped) && posting_batch.postings@.len() > 0,
        always_stopped(is_stopped) && posting_batch.postings@.len() > 0 && !(
        posting_batch.single_valued && all_pairs(posting_batch.postings@).len() > usize::MAX)
            ==> cancelled(r),
        cancelled(r) || postings_outcome(
            posting_batch,
            total_point_count as nat,
            ordinal_ordering_threshold as nat,
            r,
        ),
{
    let postings = &posting_batch.postings;
    let direct_single_valued = if posting_batch.single_valued {
        match count_points(postings) {
            Some(posting_points) => should_collect_single_valued_directly(
                posting_points,
                total_point_count,
                ordinal_ordering_threshold,
            ),
            None => {
                return Err(OperationError::service_error("integer posting point count overflow"));
            },
        }
    } else {
        false
    };
    if direct_single_valued {
        return match collect_directly(postings, total_point_count, is_stopped) {
            Ok(Some(candidates)) => {
                if candidates.len() >= ordinal_ordering_threshold {
                    Ok(Some(sort_by_point(&candidates)))
                } else {
                    Ok(Some(candidates))
                }
            },
            Ok(None) => Ok(None),
            Err(error) => Err(error),
        };
    }
    match unite_masks(postings, total_point_count, ordinal_ordering_threshold, is_stopped) {
        Ok(Some((masks, touched))) => {
            match collect_factorized_exact_candidates(
                masks.as_slice(),
                touched.as_slice(),
                ordinal_ordering_threshold,
            ) {
                Ok(candidates) => Ok(Some(candidates)),
                Err(error) => Err(error),
            }
        },
        Ok(None) => Ok(None),
        Err(error) => Err(error),
    }
}

/// Some candidate of the list selects a query for a point.
pub open spec fn listed(
    list: Seq<FactorizedExactCandidate>,
    point_id: PointOffsetType,
    query: int,
) -> bool {
    exists|i: int|
        0 <= i < list.len() && (#[trigger] list[i]).point_id == point_id && bit64(
            list[i].query_mask,
            query,
        )
}

/// Some posting that asks for a query holds the point.
pub open spec fn posted(
    pairs: Seq<(PointOffsetType, u64)>,
    point_id: PointOffsetType,
    query: int,
) -> bool {
    exists|k: int|
        0 <= k < pairs.len() && (#[trigger] pairs[k]).0 == point_id && bit64(pairs[k].1, query)
}

/// Whichever way candidates are collected, a point becomes a candidate for a query exactly when
/// some posting of that query holds it.
pub proof fn lemma_candidates_follow_postings(
    batch: IntegerPostingBatch,
    total_points: nat,
    threshold: nat,
    list: Vec<FactorizedExactCandidate>,
    point_id: PointOffsetType,
    query: int,
)
    requires
        postings_outcome(batch, total_points, threshold, Ok(Some(list))),
    ensures
        listed(list@, point_id, query) <==> posted(all_pairs(batch.postings@), point_id, query),
{
    let pairs = all_pairs(batch.postings@);
    if batch.single_valued && is_sparse_enough(pairs.len(), total_points, threshold) {
        lemma_direct_candidates(pairs, list@, point_id, query);
    } else {
        lemma_pairs_in_range(batch.postings@, total_points);
        lemma_united_candidates(pairs, total_points, threshold, list@, point_id, query);
    }
}

proof fn lemma_direct_candidates(
    pairs: Seq<(PointOffsetType, u64)>,
    list: Seq<FactorizedExactCandidate>,
    point_id: PointOffsetType,
    query: int,
)
    requires
        list.to_multiset() == direct_candidates(pairs).to_multiset(),
    ensures
        listed(list, point_id, query) <==> posted(pairs, point_id, query),
{
    broadcast use vstd::seq_lib::group_to_multiset_ensures;

    let direct = direct_candidates(pairs);
    if listed(list, point_id, query) {
        let i = choose|i: int|
            0 <= i < list.len() && (#[trigger] list[i]).point_id == point_id && bit64(
                list[i].query_mask,
                query,
            );
        assert(list.contains(list[i]));
        assert(list.to_multiset().count(list[i]) > 0);
        assert(direct.contains(list[i]));
        let k = choose|k: int| 0 <= k < direct.len() && direct[k] == list[i];
        assert(pairs[k].0 == point_id);
    }
    if posted(pairs, point_id, query) {
        let k = choose|k: int|
            0 <= k < pairs.len() && (#[trigger] pairs[k]).0 == point_id && bit64(
                pairs[k].1,
                query,
            );
        assert(direct.contains(direct[k]));
        assert(direct.to_multiset().count(direct[k]) > 0);
        assert(list.contains(direct[k]));
        let i = choose|i: int| 0 <= i < list.len() && list[i] == direct[k];
        assert(list[i].point_id == point_id);
    }
}

/// Without stray points every pair names an existing point.
pub(crate) proof fn lemma_pairs_in_range(postings: Seq<IntegerPosting>, total_points: nat)
    requires
        !has_stray_point(postings, total_points),
    ensures
        forall|k: int|
            0 <= k < all_pairs(postings).len() ==> (#[trigger] all_pairs(postings)[k]).0
                < total_points,
    decreases postings.len(),
{
    if postings.len() > 0 {
        let rest = postings.drop_last();
        if has_stray_point(rest, total_points) {
            let (a, b) = choose|a: int, b: int|
                0 <= a < rest.len() && 0 <= b < rest[a].point_ids@.len()
                    && #[trigger] rest[a].point_ids@[b] >= total_points;
            assert(postings[a].point_ids@[b] >= total_points);
        }
        lemma_pairs_in_range(rest, total_points);
        let head = all_pairs(rest);
        assert forall|k: int| 0 <= k < all_pairs(postings).len() implies (#[trigger] all_pairs(
            postings,
        )[k]).0 < total_points by {
            if k < head.len() {
                assert(all_pairs(postings)[k] == head[k]);
            } else {
                let j = k - head.len();
                assert(postings[postings.len() - 1].point_ids@[j] == all_pairs(postings)[k].0);
            }
        }
    }
}

proof fn lemma_united_candidates(
    pairs: Seq<(PointOffsetType, u64)>,
    total_points: nat,
    threshold: nat,
    list: Seq<FactorizedExactCandidate>,
    point_id: PointOffsetType,
    query: int,
)
    requires
        forall|k: int| 0 <= k < pairs.len() ==> (#[trigger] pairs[k]).0 < total_points,
        total_points <= PointOffsetType::MAX + 1,
        list == (if touched_points(pairs, threshold).len() >= threshold {
            scan_candidates(point_masks(pairs, total_points), total_points)
        } else {
            touched_candidates(
                point_masks(pairs, total_points),
                touched_points(pairs, threshold),
            )
        }),
    ensures
        listed(list, point_id, query) <==> posted(pairs, point_id, query),
{
    let masks = point_masks(pairs, total_points);
    let touched = touched_points(pairs, threshold);
    lemma_scan_candidates(masks, total_points);
    lemma_touched_candidates(masks, touched);
    lemma_touched_points_range(pairs, threshold, total_points as int);
    lemma_posting_mask(pairs, point_id as int, query);
    if listed(list, point_id, query) {
        let i = choose|i: int|
            0 <= i < list.len() && (#[trigger] list[i]).point_id == point_id && bit64(
                list[i].query_mask,
                query,
            );
        if touched.len() < threshold {
            let t = choose|t: int| 0 <= t < touched.len() && touched[t] == list[i].point_id;
            assert(touched[t] < total_points);
        }
        assert(list[i].query_mask == posting_mask(pairs, point_id as int));
        let k = choose|k: int|
            0 <= k < pairs.len() && (#[trigger] pairs[k]).0 == point_id as int && bit64(
                pairs[k].1,
                query,
            );
        assert(pairs[k].0 == point_id);
    }
    if posted(pairs, point_id, query) {
        let k = choose|k: int|
            0 <= k < pairs.len() && (#[trigger] pairs[k]).0 == point_id && bit64(
                pairs[k].1,
                query,
            );
        assert(pairs[k].0 == point_id as int);
        let mask = posting_mask(pairs, point_id as int);
        assert(bit64(mask, query));
        lemma_zero_iff64(mask);
        assert(masks[point_id as int] == mask);
        if touched.len() < threshold {
            lemma_touched_points(pairs, threshold, point_id);
        }
        assert(has_point(list, point_id));
        let i = choose|i: int| 0 <= i < list.len() && (#[trigger] list[i]).point_id == point_id;
        assert(list[i].query_mask == mask);
    }
}

/// Name of a vector in a segment.
pub type VectorName = String;

/// One named vector storage of a segment.
#[derive(Debug)]
pub struct VectorData {
    pub name: VectorName,
    /// Quantized copies of the vectors exist.
    pub quantized: bool,
    pub vector_storage: VectorStorage,
}

/// What candidate-major exact search reads of a segment.
#[derive(Debug)]
pub struct Segment {
    pub appendable_flag: bool,
    pub vector_data: Vec<VectorData>,
    pub total_point_count: usize,
    /// Deletion flags of the points.
    pub deleted_points: Vec<bool>,
}

/// Position of the first vector of a name.
pub open spec fn vector_position(list: Seq<VectorData>, name: Seq<char>) -> Option<int>
    decreases list.len(),
{
    if list.len() == 0 {
        None
    } else {
        match vector_position(list.drop_last(), name) {
            Some(i) => Some(i),
            None => if list.last().name@ == name {
                Some(list.len() - 1)
            } else {
                None
            },
        }
    }
}

/// The position of a name is where it stands, if it stands anywhere.
pub proof fn lemma_vector_position(list: Seq<VectorData>, name: Seq<char>)
    ensures
        match vector_position(list, name) {
            Some(i) => 0 <= i < list.len() && list[i].name@ == name && forall|j: int|
                0 <= j < i ==> (#[trigger] list[j]).name@ != name,
            None => forall|j: int| 0 <= j < list.len() ==> (#[trigger] list[j]).name@ != name,
        },
    decreases list.len(),
{
    if list.len() > 0 {
        let rest = list.drop_last();
        lemma_vector_position(rest, name);
        assert forall|j: int| 0 <= j < rest.len() implies rest[j] == list[j] by {}
        match vector_position(rest, name) {
            Some(i) => {
                assert forall|j: int| 0 <= j < i implies (#[trigger] list[j]).name@ != name by {
                    assert(rest[j].name@ != name);
                }
            },
            None => {
                assert forall|j: int| 0 <= j < rest.len() implies (#[trigger] list[j]).name@
                    != name by {
                    assert(rest[j].name@ != name);
                }
            },
        }
    }
}

impl Segment {
    /// The storage of a name that can be searched exactly: there is one and it is not quantized.
    pub open spec fn exact_storage(&self, name: Seq<char>) -> Option<VectorStorage> {
        match vector_position(self.vector_data@, name) {
            Some(i) => if self.vector_data@[i].quantized {
                None
            } else {
                Some(self.vector_data@[i].vector_storage)
            },
            None => None,
        }
    }

    /// Find the storage of a name that can be searched exactly.
    fn find_exact_storage(&self, vector_name: &VectorName) -> (r: Option<&VectorStorage>)
        ensures
            match r {
                Some(storage) => self.exact_storage(vector_name@) == Some(*storage),
                None => self.exact_storage(vector_name@) is None,
            },
    {
        let mut i: usize = 0;
        proof {
            lemma_vector_position(self.vector_data@, vector_name@);
        }
        while i < self.vector_data.len()
            invariant
                i <= self.vector_data@.len(),
                forall|j: int|
                    0 <= j < i ==> (#[trigger] self.vector_data@[j]).name@ != vector_name@,
                match vector_position(self.vector_data@, vector_name@) {
                    Some(p) => 0 <= p < self.vector_data@.len() && self.vector_data@[p].name@
                        == vector_name@ && forall|j: int|
                        0 <= j < p ==> (#[trigger] self.vector_data@[j]).name@ != vector_name@,
                    None => forall|j: int|
                        0 <= j < self.vector_data@.len() ==> (
                        #[trigger] self.vector_data@[j]).name@ != vector_name@,
                },
            decreases self.vector_data@.len() - i,
        {
            if self.vector_data[i].name == *vector_name {
                proof {
                    assert(self.vector_data@[i as int].name@ == vector_name@);
                }
                if self.vector_data[i].quantized {
                    return None;
                }
                return Some(&self.vector_data[i].vector_storage);
            }
            i = i + 1;
        }
        None
    }
}

/// Every atom has a mask word.
pub open spec fn atoms_have_words(plan: FactorizedFilterPlan) -> bool {
    forall|a: int|
        0 <= a < plan.spec_atoms().len() ==> (
        #[trigger] plan.spec_atoms()[a]).spec_query_mask().spec_words().len() > 0
}

/// The posting atom of every atom of a plan, with the first word of its mask.
pub open spec fn posting_atoms_of(plan: FactorizedFilterPlan) -> Seq<IntegerPostingAtom> {
    Seq::new(
        plan.spec_atoms().len(),
        |a: int|
            IntegerPostingAtom {
                value: plan.spec_atoms()[a].spec_value(),
                query_mask: plan.spec_atoms()[a].spec_query_mask().spec_words()[0],
            },
    )
}

/// The posting atoms of a plan.
fn build_posting_atoms(plan: &FactorizedFilterPlan) -> (r: Option<Vec<IntegerPostingAtom>>)
    ensures
        match r {
            Some(atoms) => atoms_have_words(*plan) && atoms@ == posting_atoms_of(*plan),
            None => !atoms_have_words(*plan),
        },
{
    let atoms = plan.atoms();
    let mut r: Vec<IntegerPostingAtom> = Vec::with_capacity(atoms.len());
    let mut a: usize = 0;
    while a < atoms.len()
        invariant
            a <= atoms@.len(),
            atoms@ == plan.spec_atoms(),
            forall|b: int|
                0 <= b < a ==> (
                #[trigger] plan.spec_atoms()[b]).spec_query_mask().spec_words().len() > 0,
            r@ == posting_atoms_of(*plan).take(a as int),
        decreases atoms@.len() - a,
    {
        let words = atoms[a].query_mask().words();
        if words.len() == 0 {
            proof {
                assert(plan.spec_atoms()[a as int].spec_query_mask().spec_words().len() == 0);
            }
            return None;
        }
        r.push(IntegerPostingAtom::new(atoms[a].value(), words[0]));
        proof {
            assert(posting_atoms_of(*plan).take(a + 1) =~= posting_atoms_of(*plan).take(
                a as int,
            ).push(posting_atoms_of(*plan)[a as int]));
        }
        a = a + 1;
    }
    proof {
        assert(posting_atoms_of(*plan).take(a as int) =~= posting_atoms_of(*plan));
    }
    Some(r)
}

/// Count the points of all postings, as far as the count fits.
fn count_points_saturating(postings: &Vec<IntegerPosting>) -> (count: usize)
    ensures
        count == min_int(all_pairs(postings@).len() as int, usize::MAX as int),
{
    let mut sum: usize = 0;
    let mut i: usize = 0;
    proof {
        assert(postings@.take(0) =~= Seq::empty());
    }
    while i < postings.len()
        invariant
            i <= postings@.len(),
            sum == min_int(
                all_pairs(postings@.take(i as int)).len() as int,
                usize::MAX as int,
            ),
        decreases postings@.len() - i,
    {
        proof {
            assert(postings@.take(i + 1).drop_last() =~= postings@.take(i as int));
        }
        sum = sum.saturating_add(postings[i].point_ids.len());
        i = i + 1;
    }
    proof {
        assert(postings@.take(i as int) =~= postings@);
    }
    sum
}

/// The clock can be read at any time.
pub open spec fn can_read<C: Fn() -> u128>(clock: &C) -> bool {
    clock.requires(())
}

/// The number of microseconds may lie between two readings of the clock.
pub open spec fn measured<C: Fn() -> u128>(clock: &C, micros: u64) -> bool {
    exists|a: u128, b: u128|
        #![trigger clock.ensures((), a), clock.ensures((), b)]
        clock.ensures((), a) && clock.ensures((), b) && micros == min_int(
            if b >= a {
                b - a
            } else {
                0
            },
            u64::MAX as int,
        )
}

/// Microseconds between two readings of the clock.
fn elapsed_micros(started: u128, ended: u128) -> (micros: u64)
    ensures
        micros == min_int(
            if ended >= started {
                ended - started
            } else {
                0
            },
            u64::MAX as int,
        ),
{
    duration_micros_u64(ended.saturating_sub(started))
}

/// The plan was built from candidates, whatever its preparation statistics.
pub open spec fn prepared<P: Fn(&Vec<VectorElementType>) -> Vec<VectorElementType>>(
    plan: PlanView,
    storage: VectorStorage,
    queries: Seq<&QueryVector>,
    candidates: Seq<FactorizedExactCandidate>,
    point_deleted: Seq<bool>,
    top: nat,
    config: CandidateMajorExactConfig,
    preprocess: &P,
) -> bool {
    &&& plan.wf()
    &&& preprocessed(preprocess, queries, plan.queries)
    &&& built(
        (PlanView { prepare_stats: no_prepare_stats(), ..plan }),
        storage,
        candidates,
        point_deleted,
        top,
        config,
    )
}

/// What planning gives for candidates when it is not cancelled.
pub open spec fn planned_from_candidates<
    P: Fn(&Vec<VectorElementType>) -> Vec<VectorElementType>,
>(
    storage: VectorStorage,
    queries: Seq<&QueryVector>,
    planned_query_count: nat,
    candidates: Seq<FactorizedExactCandidate>,
    point_deleted: Seq<bool>,
    top: nat,
    config: CandidateMajorExactConfig,
    preprocess: &P,
    r: OperationResult<Option<CandidateMajorExactPlan>>,
) -> bool {
    match plan_fault(storage, queries, planned_query_count, config) {
        Some(text) => failed(r, text),
        None => if has_stray_query(candidates, queries.len() as int) {
            failed(r, "candidate query mask contains an out-of-range query bit"@)
        } else if score_pairs(consolidated(candidates, scorable(storage, point_deleted)))
            > usize::MAX {
            failed(r, "candidate score-pair count overflow"@)
        } else {
            &&& r matches Ok(Some(plan))
            &&& prepared(
                plan@,
                storage,
                queries,
                candidates,
                point_deleted,
                top,
                config,
                preprocess,
            )
        },
    }
}

/// What planning gives for postings when it is not cancelled.
pub open spec fn planned_from_postings<P: Fn(&Vec<VectorElementType>) -> Vec<VectorElementType>>(
    storage: VectorStorage,
    queries: Seq<&QueryVector>,
    planned_query_count: nat,
    batch: IntegerPostingBatch,
    total_points: nat,
    point_deleted: Seq<bool>,
    top: nat,
    config: CandidateMajorExactConfig,
    preprocess: &P,
    r: OperationResult<Option<CandidateMajorExactPlan>>,
) -> bool {
    exists|collected: OperationResult<Option<Vec<FactorizedExactCandidate>>>|
        {
            &&& #[trigger] postings_outcome(
                batch,
                total_points,
                config.ordinal_ordering_threshold as nat,
                collected,
            )
            &&& match collected {
                Err(error) => r == Err::<Option<CandidateMajorExactPlan>, OperationError>(error),
                Ok(None) => r matches Ok(None),
                Ok(Some(list)) => planned_from_candidates(
                    storage,
                    queries,
                    planned_query_count,
                    list@,
                    point_deleted,
                    top,
                    config,
                    preprocess,
                    r,
                ),
            }
        }
}

/// What was known before planning, for the statistics.
#[derive(Clone, Copy, Debug, PartialEq, Eq, Structural)]
pub struct PostingFetchStats {
    pub posting_atoms: usize,
    pub atom_build_us: u64,
    pub posting_fetch_us: u64,
}

/// Build a plan from fetched postings.
pub fn plan_from_postings<
    P: Fn(&Vec<VectorElementType>) -> Vec<VectorElementType>,
    C: Fn() -> u128,
    S: Fn() -> bool,
>(
    storage: &VectorStorage,
    queries: &[&QueryVector],
    factorized_plan: &FactorizedFilterPlan,
    posting_batch: IntegerPostingBatch,
    fetch_stats: PostingFetchStats,
    total_point_count: usize,
    deleted_points: &[bool],
    top: usize,
    config: CandidateMajorExactConfig,
    preprocess: &P,
    clock: &C,
    is_stopped: &S,
) -> (r: OperationResult<Option<CandidateMajorExactPlan>>)
    requires
        forall|vector: &Vec<VectorElementType>| #[trigger] preprocess.requires((vector,)),
        can_read(clock),
        can_poll(is_stopped),
    ensures
        cancelled(r) ==> may_stop(is_stopped),
        always_stopped(is_stopped) && posting_batch.postings@.len() > 0 && !(
        posting_batch.single_valued && all_pairs(posting_batch.postings@).len() > usize::MAX)
            ==> cancelled(r),
        cancelled(r) || planned_from_postings(
            *storage,
            queries@,
            factorized_plan.spec_query_count(),
            posting_batch,
            total_point_count as nat,
            deleted_points@,
            top as nat,
            config,
            preprocess,
            r,
        ),
        r matches Ok(Some(plan)) ==> {
            &&& plan@.prepare_stats.posting_atoms == fetch_stats.posting_atoms
            &&& plan@.prepare_stats.posting_points == min_int(
                all_pairs(posting_batch.postings@).len() as int,
                usize::MAX as int,
            )
            &&& plan@.prepare_stats.single_valued == posting_batch.single_valued
            &&& plan@.prepare_stats.atom_build_us == fetch_stats.atom_build_us
            &&& plan@.prepare_stats.posting_fetch_us == fetch_stats.posting_fetch_us
            &&& measured(clock, plan@.prepare_stats.candidate_collect_us)
            &&& measured(clock, plan@.prepare_stats.plan_build_us)
        },
{
    let posting_points: usize = count_points_saturating(&posting_batch.postings);
    let single_valued = posting_batch.single_valued;
    let collect_started: u128 = clock();
    let collection = candidates_from_integer_postings(
        posting_batch,
        total_point_count,
        config.ordinal_ordering_threshold,
        is_stopped,
    );
    let ghost collection_view = collection;
    let candidates = match collection {
        Ok(Some(candidates)) => candidates,
        Ok(None) => {
            return Ok(None);
        },
        Err(error) => {
            return Err(error);
        },
    };
    let collect_ended: u128 = clock();
    let build_started: u128 = clock();
    let ghost listed_candidates = candidates@;
    let built_plan = build_candidate_major_exact_plan(
        storage,
        queries,
        factorized_plan,
        candidates,
        deleted_points,
        top,
        config,
        preprocess,
        is_stopped,
    );
    let mut plan = match built_plan {
        Ok(plan) => plan,
        Err(error) => {
            proof {
                if error !is Cancelled {
                    assert(planned_from_candidates(
                        *storage,
                        queries@,
                        factorized_plan.spec_query_count(),
                        listed_candidates,
                        deleted_points@,
                        top as nat,
                        config,
                        preprocess,
                        Err(error),
                    ));
                    assert(postings_outcome(
                        posting_batch,
                        total_point_count as nat,
                        config.ordinal_ordering_threshold as nat,
                        collection_view,
                    ));
                }
            }
            return Err(error);
        },
    };
    let build_ended: u128 = clock();
    let ghost bare = plan@;
    plan.set_prepare_stats(
        CandidateMajorExactPrepareStats {
            posting_atoms: fetch_stats.posting_atoms,
            posting_points,
            single_valued,
            atom_build_us: fetch_stats.atom_build_us,
            posting_fetch_us: fetch_stats.posting_fetch_us,
            candidate_collect_us: elapsed_micros(collect_started, collect_ended),
            plan_build_us: elapsed_micros(build_started, build_ended),
        },
    );
    proof {
        assert(bare.prepare_stats == no_prepare_stats());
        assert((PlanView { prepare_stats: no_prepare_stats(), ..plan@ }) == bare);
        assert(prepared(
            plan@,
            *storage,
            queries@,
            listed_candidates,
            deleted_points@,
            top as nat,
            config,
            preprocess,
        ));
        assert(postings_outcome(
            posting_batch,
            total_point_count as nat,
            config.ordinal_ordering_threshold as nat,
            collection_view,
        ));
    }
    Ok(Some(plan))
}

/// The postings may be what is fetched for a key and atoms.
pub open spec fn fetched_as<
    F: Fn(&PayloadKeyType, &Vec<IntegerPostingAtom>) -> OperationResult<
        Option<IntegerPostingBatch>,
    >,
>(
    fetch_postings: &F,
    key: Seq<char>,
    atoms: Seq<IntegerPostingAtom>,
    fetched: OperationResult<Option<IntegerPostingBatch>>,
) -> bool {
    exists|k: PayloadKeyType, a: Vec<IntegerPostingAtom>|
        k@ == key && a@ == atoms && #[trigger] fetch_postings.ensures((&k, &a), fetched)
}

/// What preparing a search on a segment gives.
pub open spec fn segment_prepared<
    P: Fn(&Vec<VectorElementType>) -> Vec<VectorElementType>,
    F: Fn(&PayloadKeyType, &Vec<IntegerPostingAtom>) -> OperationResult<
        Option<IntegerPostingBatch>,
    >,
    C: Fn() -> u128,
    S: Fn() -> bool,
>(
    segment: Segment,
    vector_name: Seq<char>,
    queries: Seq<&QueryVector>,
    factorized_plan: FactorizedFilterPlan,
    top: nat,
    config: CandidateMajorExactConfig,
    deleted_points: Option<&[bool]>,
    preprocess: &P,
    fetch_postings: &F,
    clock: &C,
    is_stopped: &S,
    r: OperationResult<Option<CandidateMajorExactPlan>>,
) -> bool {
    &&& !segment.is_eligible(vector_name, queries.len(), factorized_plan) ==> (r matches Ok(None))
    &&& segment.is_eligible(vector_name, queries.len(), factorized_plan) ==> exists|
        fetched: OperationResult<Option<IntegerPostingBatch>>,
    |
        {
            &&& #[trigger] fetched_as(
                fetch_postings,
                factorized_plan.spec_key(),
                posting_atoms_of(factorized_plan),
                fetched,
            )
            &&& match fetched {
                Err(error) => r == Err::<Option<CandidateMajorExactPlan>, OperationError>(
                    error,
                ),
                Ok(None) => r matches Ok(None),
                Ok(Some(batch)) => {
                    &&& cancelled(r) ==> may_stop(is_stopped)
                    &&& always_stopped(is_stopped) && batch.postings@.len() > 0 && !(
                    batch.single_valued && all_pairs(batch.postings@).len() > usize::MAX)
                        ==> cancelled(r)
                    &&& cancelled(r) || planned_from_postings(
                        segment.exact_storage(vector_name)->0,
                        queries,
                        factorized_plan.spec_query_count(),
                        batch,
                        segment.total_point_count as nat,
                        match deleted_points {
                            Some(flags) => flags@,
                            None => segment.deleted_points@,
                        },
                        top,
                        config,
                        preprocess,
                        r,
                    )
                    &&& r matches Ok(Some(plan)) ==> {
                        &&& plan@.prepare_stats.posting_atoms
                            == factorized_plan.spec_atoms().len()
                        &&& plan@.prepare_stats.posting_points == min_int(
                            all_pairs(batch.postings@).len() as int,
                            usize::MAX as int,
                        )
                        &&& plan@.prepare_stats.single_valued == batch.single_valued
                        &&& measured(clock, plan@.prepare_stats.atom_build_us)
                        &&& measured(clock, plan@.prepare_stats.posting_fetch_us)
                        &&& measured(clock, plan@.prepare_stats.candidate_collect_us)
                        &&& measured(clock, plan@.prepare_stats.plan_build_us)
                    }
                },
            }
        }
}

/// The points of a query may convert to a result.
pub open spec fn may_convert<T, F: Fn(&Vec<ScoredPointOffset>) -> OperationResult<T>>(
    process_search_result: &F,
    points: Vec<ScoredPointOffset>,
) -> bool {
    exists|result: T| #[trigger] process_search_result.ensures((&points,), Ok(result))
}

/// The points of every query were converted, up to the first error.
pub open spec fn materialized<T, F: Fn(&Vec<ScoredPointOffset>) -> OperationResult<T>>(
    process_search_result: &F,
    internal_results: Seq<Vec<ScoredPointOffset>>,
    r: OperationResult<Vec<T>>,
) -> bool {
    match r {
        Ok(results) => results@.len() == internal_results.len() && forall|i: int|
            0 <= i < results@.len() ==> process_search_result.ensures(
                (&internal_results[i],),
                Ok(#[trigger] results@[i]),
            ),
        Err(error) => exists|i: int|
            0 <= i < internal_results.len() && process_search_result.ensures(
                (&#[trigger] internal_results[i],),
                Err(error),
            ) && forall|j: int|
                0 <= j < i ==> may_convert(
                    process_search_result,
                    #[trigger] internal_results[j],
                ),
    }
}

impl Segment {
    /// The batch can be searched candidate by candidate on this segment.
    pub open spec fn is_eligible(
        &self,
        vector_name: Seq<char>,
        query_count: nat,
        plan: FactorizedFilterPlan,
    ) -> bool {
        &&& !self.appendable_flag
        &&& 0 < query_count <= 64
        &&& self.exact_storage(vector_name) matches Some(storage) && storage.is_dense_f32()
        &&& atoms_have_words(plan)
    }

    /// Build an owned candidate-major exact plan from the segment's native payload postings.
    ///
    /// `Ok(None)` is a fail-closed eligibility result: the caller must use the stock search path
    /// when this segment is appendable, quantized, lacks the requested dense storage, or cannot
    /// expose every atomic posting.
    ///
    /// `fetch_postings` reads the postings of the atoms of a payload key, and `deleted_points`
    /// replaces the deletion flags of the segment.
    pub fn prepare_candidate_major_exact<
        P: Fn(&Vec<VectorElementType>) -> Vec<VectorElementType>,
        F: Fn(&PayloadKeyType, &Vec<IntegerPostingAtom>) -> OperationResult<
            Option<IntegerPostingBatch>,
        >,
        C: Fn() -> u128,
        S: Fn() -> bool,
    >(
        &self,
        vector_name: &VectorName,
        queries: &[&QueryVector],
        factorized_plan: &FactorizedFilterPlan,
        top: usize,
        config: CandidateMajorExactConfig,
        deleted_points: Option<&[bool]>,
        preprocess: &P,
        fetch_postings: &F,
        clock: &C,
        is_stopped: &S,
    ) -> (r: OperationResult<Option<CandidateMajorExactPlan>>)
        requires
            forall|vector: &Vec<VectorElementType>| #[trigger] preprocess.requires((vector,)),
            forall|key: &PayloadKeyType, atoms: &Vec<IntegerPostingAtom>| #[trigger]
                fetch_postings.requires((key, atoms)),
            can_read(clock),
            can_poll(is_stopped),
        ensures
            segment_prepared(
                *self,
                vector_name@,
                queries@,
                *factorized_plan,
                top as nat,
                config,
                deleted_points,
                preprocess,
                fetch_postings,
                clock,
                is_stopped,
                r,
            ),
    {
        if self.appendable_flag || queries.len() == 0 || queries.len() > 64 {
            return Ok(None);
        }
        let storage = match self.find_exact_storage(vector_name) {
            Some(storage) => storage,
            None => {
                return Ok(None);
            },
        };
        if storage.kind == VectorStorageKind::Other {
            return Ok(None);
        }
        let atoms_started: u128 = clock();
        let posting_atoms = match build_posting_atoms(factorized_plan) {
            Some(atoms) => atoms,
            None => {
                return Ok(None);
            },
        };
        let atoms_ended: u128 = clock();
        let fetch_started: u128 = clock();
        let fetched = fetch_postings(factorized_plan.key(), &posting_atoms);
        proof {
            assert(fetched_as(
                fetch_postings,
                factorized_plan.spec_key(),
                posting_atoms_of(*factorized_plan),
                fetched,
            ));
        }
        let posting_batch = match fetched {
            Ok(Some(batch)) => batch,
            Ok(None) => {
                return Ok(None);
            },
            Err(error) => {
                return Err(error);
            },
        };
        let fetch_ended: u128 = clock();
        let fetch_stats = PostingFetchStats {
            posting_atoms: posting_atoms.len(),
            atom_build_us: elapsed_micros(atoms_started, atoms_ended),
            posting_fetch_us: elapsed_micros(fetch_started, fetch_ended),
        };
        let flags: &[bool] = match deleted_points {
            Some(flags) => flags,
            None => self.deleted_points.as_slice(),
        };
        plan_from_postings(
            storage,
            queries,
            factorized_plan,
            posting_batch,
            fetch_stats,
            self.total_point_count,
            flags,
            top,
            config,
            preprocess,
            clock,
            is_stopped,
        )
    }

    /// Score one independently schedulable tile. Collection-level scheduling may run different
    /// tiles on different workers.
    pub fn score_candidate_major_exact_tile<
        R: Fn(PointOffsetType) -> Vec<VectorElementType>,
        M: Fn(&Vec<VectorElementType>, &Vec<VectorElementType>) -> ScoreType,
        S: Fn() -> bool,
    >(
        &self,
        vector_name: &VectorName,
        plan: &CandidateMajorExactPlan,
        tile_ordinal: usize,
        read_vector: &R,
        similarity: &M,
        hardware_counter: &mut HardwareCounterCell,
        is_stopped: &S,
    ) -> (r: OperationResult<Option<CandidateMajorExactTileOutput>>)
        requires
            plan.wf(),
            self.exact_storage(vector_name@) matches Some(storage) ==> storage.wf(),
            forall|p: PointOffsetType| #[trigger] read_vector.requires((p,)),
            forall|a: &Vec<VectorElementType>, b: &Vec<VectorElementType>| #[trigger]
                similarity.requires((a, b)),
            can_poll(is_stopped),
        ensures
            match self.exact_storage(vector_name@) {
                None => (r matches Ok(None)) && *final(hardware_counter) == *old(hardware_counter),
                Some(storage) => {
                    &&& !(r matches Ok(None))
                    &&& cancelled(r) ==> may_stop(is_stopped)
                    &&& always_stopped(is_stopped) ==> cancelled(r)
                    &&& cancelled(r) || checked(
                        tile_fault(plan@, tile_ordinal as nat, storage),
                        r,
                    )
                    &&& match r {
                        Ok(Some(output)) => {
                            &&& exists|scores: ScoreTable|
                                tile_scored(
                                    plan@,
                                    tile_ordinal as int,
                                    read_vector,
                                    similarity,
                                    scores,
                                    output,
                                )
                            &&& *final(hardware_counter) == counted(
                                *old(hardware_counter),
                                storage,
                                output.scored_pairs as nat,
                                output.vector_reads as nat,
                            )
                        },
                        _ => *final(hardware_counter) == *old(hardware_counter),
                    }
                },
            },
    {
        let storage = match self.find_exact_storage(vector_name) {
            Some(storage) => storage,
            None => {
                return Ok(None);
            },
        };
        match score_candidate_major_exact_tile(
            plan,
            tile_ordinal,
            storage,
            read_vector,
            similarity,
            hardware_counter,
            is_stopped,
        ) {
            Ok(output) => Ok(Some(output)),
            Err(error) => Err(error),
        }
    }

    /// Convert internal candidate-major results to normal segment results: `process_search_result`
    /// turns the points of one query into results, and the first error ends the conversion.
    pub fn materialize_candidate_major_exact<
        T,
        F: Fn(&Vec<ScoredPointOffset>) -> OperationResult<T>,
    >(
        &self,
        internal_results: &Vec<Vec<ScoredPointOffset>>,
        process_search_result: &F,
    ) -> (r: OperationResult<Vec<T>>)
        requires
            forall|points: &Vec<ScoredPointOffset>| #[trigger]
                process_search_result.requires((points,)),
        ensures
            materialized(process_search_result, internal_results@, r),
    {
        let mut results: Vec<T> = Vec::with_capacity(internal_results.len());
        let mut i: usize = 0;
        while i < internal_results.len()
            invariant
                i <= internal_results@.len(),
                results@.len() == i,
                forall|points: &Vec<ScoredPointOffset>| #[trigger]
                    process_search_result.requires((points,)),
                forall|j: int|
                    0 <= j < i ==> process_search_result.ensures(
                        (&internal_results@[j],),
                        Ok(#[trigger] results@[j]),
                    ),
            decreases internal_results@.len() - i,
        {
            match process_search_result(&internal_results[i]) {
                Ok(result) => {
                    results.push(result);
                },
                Err(error) => {
                    proof {
                        assert forall|j: int| 0 <= j < i implies may_convert(
                            process_search_result,
                            #[trigger] internal_results@[j],
                        ) by {
                            assert(process_search_result.ensures(
                                (&internal_results@[j],),
                                Ok(results@[j]),
                            ));
                        }
                        assert(process_search_result.ensures(
                            (&internal_results@[i as int],),
                            Err(error),
                        ));
                    }
                    return Err(error);
                },
            }
            i = i + 1;
        }
        Ok(results)
    }
}

} // verus!
