//! Candidate-major exact scoring for factorized filtered batches.
//!
//! Nearest queries over single dense vectors with cosine distance, at most 64 of them, are scored
//! against `(point_id, query_mask)` candidates. A candidate vector is read once and scored only
//! for the queries selected by its mask. Work is balanced into score-pair tiles. Tiles are
//! independent and are merged into final per-query top-k results.

use std::collections::HashMap;
use std::ops::Range;

use vstd::prelude::*;

use crate::arith::{ceil_div, div_ceil_usize, max_int, max_usize, min_int, min_usize};
use crate::bits::{
    bit64, count_ones64, lemma_and64, lemma_clear_lowest64, lemma_full64, lemma_low_mask64,
    lemma_nonzero64, lemma_not64, lemma_ones_positive, lemma_or64, lemma_zero64, lemma_zero_iff64,
    ones,
};
use crate::counter::HardwareCounterCell;
use crate::error::{
    always_stopped, can_poll, cancelled, check_process_stopped, failed, may_stop, OperationError,
    OperationResult,
};
use crate::factorized_filter::{lemma_distinct_bound, list_views, FactorizedFilterPlan};
use crate::storage::{
    check_deleted_condition, is_live, Distance, QueryVector, VectorElementType, VectorInternal,
    VectorStorage, VectorStorageDatatype, VectorStorageKind, VECTOR_ELEMENT_SIZE,
};
use crate::text::{decimal, decimal_text, joined};
use crate::top_k::{
    first_k, lemma_extend_concat, lemma_extend_first_k_base, lemma_ranked,
    lemma_ranked_of_descending, lemma_top_ranked_concat, lemma_top_ranked_push, push_all, ranked,
    ranked_extend, top_ranked, FixedLengthPriorityQueue,
};
use crate::types::{PointOffsetType, ScoreType, ScoredPointOffset};

verus! {

broadcast use vstd::std_specs::hash::group_hash_axioms;

pub const DEFAULT_MAX_TILES: usize = 56;

pub const DEFAULT_MIN_SCORE_PAIRS_PER_TILE: usize = 4096;

pub const DEFAULT_ORDINAL_ORDERING_THRESHOLD: usize = 4096;

/// Cost and access-order policy for a candidate-major exact plan.
#[derive(Clone, Copy, Debug, PartialEq, Eq, Structural)]
pub struct CandidateMajorExactConfig {
    /// Hard cap on independently schedulable tiles.
    pub max_tiles: usize,
    /// Do not create another tile until total work justifies approximately this many query-point
    /// score pairs per tile.
    pub min_score_pairs_per_tile: usize,
    /// At or above this many unique candidates, order candidates by point ordinal to enable
    /// sequential reads and prefetch in dense storage.
    pub ordinal_ordering_threshold: usize,
}

impl Default for CandidateMajorExactConfig {
    fn default() -> (config: Self)
        ensures
            config == (CandidateMajorExactConfig {
                max_tiles: DEFAULT_MAX_TILES,
                min_score_pairs_per_tile: DEFAULT_MIN_SCORE_PAIRS_PER_TILE,
                ordinal_ordering_threshold: DEFAULT_ORDINAL_ORDERING_THRESHOLD,
            }),
    {
        CandidateMajorExactConfig {
            max_tiles: DEFAULT_MAX_TILES,
            min_score_pairs_per_tile: DEFAULT_MIN_SCORE_PAIRS_PER_TILE,
            ordinal_ordering_threshold: DEFAULT_ORDINAL_ORDERING_THRESHOLD,
        }
    }
}

/// One candidate and the queries for which it is eligible.
///
/// Query `i` is selected when bit `i` is set in the mask.
#[derive(Clone, Copy, Debug, PartialEq, Eq, Structural)]
pub struct FactorizedExactCandidate {
    pub point_id: PointOffsetType,
    pub query_mask: u64,
}

impl FactorizedExactCandidate {
    /// A candidate for the queries of a mask.
    pub fn new(point_id: PointOffsetType, query_mask: u64) -> (candidate: Self)
        ensures
            candidate == (FactorizedExactCandidate { point_id, query_mask }),
    {
        FactorizedExactCandidate { point_id, query_mask }
    }
}

/// The points below `n` with a non-empty mask, in ordinal order.
pub open spec fn scan_candidates(masks: Seq<u64>, n: nat) -> Seq<FactorizedExactCandidate>
    decreases n,
{
    if n == 0 {
        Seq::empty()
    } else {
        let previous = scan_candidates(masks, (n - 1) as nat);
        if masks[n - 1] != 0 {
            previous.push(
                FactorizedExactCandidate {
                    point_id: (n - 1) as PointOffsetType,
                    query_mask: masks[n - 1],
                },
            )
        } else {
            previous
        }
    }
}

/// The touched points with a non-empty mask, in touched order.
pub open spec fn touched_candidates(
    masks: Seq<u64>,
    touched: Seq<PointOffsetType>,
) -> Seq<FactorizedExactCandidate>
    decreases touched.len(),
{
    if touched.len() == 0 {
        Seq::empty()
    } else {
        let previous = touched_candidates(masks, touched.drop_last());
        let point_id = touched.last();
        if masks[point_id as int] != 0 {
            previous.push(
                FactorizedExactCandidate { point_id, query_mask: masks[point_id as int] },
            )
        } else {
            previous
        }
    }
}

/// Every touched ordinal is inside the mask array.
pub open spec fn all_inside(masks: Seq<u64>, touched: Seq<PointOffsetType>) -> bool {
    forall|i: int| 0 <= i < touched.len() ==> #[trigger] touched[i] < masks.len()
}

/// What collecting candidates from a mask array gives.
pub open spec fn collected(
    masks: Seq<u64>,
    touched: Seq<PointOffsetType>,
    threshold: nat,
    r: OperationResult<Vec<FactorizedExactCandidate>>,
) -> bool {
    if masks.len() > PointOffsetType::MAX + 1 {
        failed(r, "point-query mask array exceeds the point ordinal type"@)
    } else if touched.len() >= threshold {
        r matches Ok(list) && list@ == scan_candidates(masks, masks.len())
    } else if !all_inside(masks, touched) {
        failed(r, "touched point ordinal is outside the point-query mask array"@)
    } else {
        r matches Ok(list) && list@ == touched_candidates(masks, touched)
    }
}

/// Generate owned candidates from a point-ordinal mask array.
///
/// Small candidate sets follow `touched_points` and avoid scanning the full mask array. Once
/// `touched_points.len() >= ordinal_scan_threshold`, the full mask array is scanned in
/// point-ordinal order so downstream dense reads are sequential. A threshold of zero always
/// selects the ordinal scan.
pub fn collect_factorized_exact_candidates(
    point_query_masks: &[u64],
    touched_points: &[PointOffsetType],
    ordinal_scan_threshold: usize,
) -> (r: OperationResult<Vec<FactorizedExactCandidate>>)
    ensures
        collected(point_query_masks@, touched_points@, ordinal_scan_threshold as nat, r),
{
    if point_query_masks.len() as u64 > PointOffsetType::MAX as u64 + 1 {
        return Err(
            OperationError::service_error("point-query mask array exceeds the point ordinal type"),
        );
    }
    let mut candidates: Vec<FactorizedExactCandidate> = Vec::new();
    let mut i: usize = 0;
    if touched_points.len() >= ordinal_scan_threshold {
        while i < point_query_masks.len()
            invariant
                i <= point_query_masks@.len() <= PointOffsetType::MAX + 1,
                candidates@ == scan_candidates(point_query_masks@, i as nat),
            decreases point_query_masks@.len() - i,
        {
            let query_mask: u64 = point_query_masks[i];
            if query_mask != 0 {
                candidates.push(
                    FactorizedExactCandidate::new(i as PointOffsetType, query_mask),
                );
            }
            i = i + 1;
        }
        return Ok(candidates);
    }
    proof {
        assert(touched_points@.take(0) =~= Seq::empty());
    }
    while i < touched_points.len()
        invariant
            i <= touched_points@.len(),
            touched_points@.len() < ordinal_scan_threshold,
            point_query_masks@.len() <= PointOffsetType::MAX + 1,
            all_inside(point_query_masks@, touched_points@.take(i as int)),
            candidates@ == touched_candidates(point_query_masks@, touched_points@.take(i as int)),
        decreases touched_points@.len() - i,
    {
        let point_id: PointOffsetType = touched_points[i];
        if point_id as usize >= point_query_masks.len() {
            proof {
                assert(touched_points@[i as int] == point_id);
            }
            return Err(
                OperationError::service_error(
                    "touched point ordinal is outside the point-query mask array",
                ),
            );
        }
        let query_mask: u64 = point_query_masks[point_id as usize];
        if query_mask != 0 {
            candidates.push(FactorizedExactCandidate::new(point_id, query_mask));
        }
        proof {
            assert(touched_points@.take(i + 1).drop_last() =~= touched_points@.take(i as int));
            assert(touched_points@.take(i + 1).last() == point_id);
            assert forall|j: int| 0 <= j < i + 1 implies #[trigger] touched_points@.take(i + 1)[j]
                < point_query_masks@.len() by {
                if j < i {
                    assert(touched_points@.take(i as int)[j] < point_query_masks@.len());
                }
            }
        }
        i = i + 1;
    }
    proof {
        assert(touched_points@.take(i as int) =~= touched_points@);
    }
    Ok(candidates)
}

/// The list holds a candidate for a point.
pub open spec fn has_point(list: Seq<FactorizedExactCandidate>, point_id: PointOffsetType) -> bool {
    exists|i: int| 0 <= i < list.len() && (#[trigger] list[i]).point_id == point_id
}

/// No point occurs twice.
pub open spec fn distinct_points(list: Seq<FactorizedExactCandidate>) -> bool {
    forall|i: int, j: int|
        0 <= i < j < list.len() ==> (#[trigger] list[i]).point_id != (#[trigger] list[j]).point_id
}

/// The points ascend, equal ones allowed.
pub open spec fn ordinal_order(list: Seq<FactorizedExactCandidate>) -> bool {
    forall|i: int, j: int|
        0 <= i < j < list.len() ==> (#[trigger] list[i]).point_id <= (#[trigger] list[j]).point_id
}

/// Add a candidate to a list: the masks of one point are united in its first place.
pub open spec fn merge_candidate(
    list: Seq<FactorizedExactCandidate>,
    candidate: FactorizedExactCandidate,
) -> Seq<FactorizedExactCandidate> {
    if has_point(list, candidate.point_id) {
        list.map_values(
            |c: FactorizedExactCandidate|
                if c.point_id == candidate.point_id {
                    FactorizedExactCandidate {
                        point_id: c.point_id,
                        query_mask: c.query_mask | candidate.query_mask,
                    }
                } else {
                    c
                },
        )
    } else {
        list.push(candidate)
    }
}

/// The accepted candidates with one entry per point.
pub open spec fn consolidated(
    candidates: Seq<FactorizedExactCandidate>,
    accepts: spec_fn(FactorizedExactCandidate) -> bool,
) -> Seq<FactorizedExactCandidate>
    decreases candidates.len(),
{
    if candidates.len() == 0 {
        Seq::empty()
    } else {
        let previous = consolidated(candidates.drop_last(), accepts);
        if accepts(candidates.last()) {
            merge_candidate(previous, candidates.last())
        } else {
            previous
        }
    }
}

/// How many candidates are accepted.
pub open spec fn accepted_count(
    candidates: Seq<FactorizedExactCandidate>,
    accepts: spec_fn(FactorizedExactCandidate) -> bool,
) -> nat
    decreases candidates.len(),
{
    if candidates.len() == 0 {
        0
    } else {
        accepted_count(candidates.drop_last(), accepts) + if accepts(candidates.last()) {
            1nat
        } else {
            0nat
        }
    }
}

/// Some accepted candidate selects a query for a point.
pub open spec fn selects(
    candidates: Seq<FactorizedExactCandidate>,
    accepts: spec_fn(FactorizedExactCandidate) -> bool,
    point_id: PointOffsetType,
    query: int,
) -> bool {
    exists|i: int|
        0 <= i < candidates.len() && accepts(#[trigger] candidates[i]) && candidates[i].point_id
            == point_id && bit64(candidates[i].query_mask, query)
}

/// Consolidation keeps one entry per point, and a query is selected for a point afterwards
/// exactly when some accepted candidate selected it before.
pub proof fn lemma_consolidated(
    candidates: Seq<FactorizedExactCandidate>,
    accepts: spec_fn(FactorizedExactCandidate) -> bool,
)
    ensures
        distinct_points(consolidated(candidates, accepts)),
        forall|point_id: PointOffsetType, query: int|
            0 <= query < 64 ==> (#[trigger] selects(candidates, accepts, point_id, query) <==> (
            exists|i: int|
                0 <= i < consolidated(candidates, accepts).len() && (#[trigger] consolidated(
                    candidates,
                    accepts,
                )[i]).point_id == point_id && bit64(
                    consolidated(candidates, accepts)[i].query_mask,
                    query,
                ))),
    decreases candidates.len(),
{
    let list = consolidated(candidates, accepts);
    if candidates.len() > 0 {
        let rest = candidates.drop_last();
        let last = candidates.last();
        let previous = consolidated(rest, accepts);
        lemma_consolidated(rest, accepts);
        assert forall|point_id: PointOffsetType, query: int| 0 <= query < 64 implies (
        #[trigger] selects(candidates, accepts, point_id, query) <==> (exists|i: int|
            0 <= i < list.len() && (#[trigger] list[i]).point_id == point_id && bit64(
                list[i].query_mask,
                query,
            ))) by {
            let before = selects(rest, accepts, point_id, query);
            let now = accepts(last) && last.point_id == point_id && bit64(last.query_mask, query);
            assert(selects(candidates, accepts, point_id, query) <==> before || now) by {
                if before {
                    let i = choose|i: int|
                        0 <= i < rest.len() && accepts(#[trigger] rest[i]) && rest[i].point_id
                            == point_id && bit64(rest[i].query_mask, query);
                    assert(candidates[i] == rest[i]);
                }
                if now {
                    assert(candidates[candidates.len() - 1] == last);
                }
                if selects(candidates, accepts, point_id, query) {
                    let i = choose|i: int|
                        0 <= i < candidates.len() && accepts(#[trigger] candidates[i])
                            && candidates[i].point_id == point_id && bit64(
                            candidates[i].query_mask,
                            query,
                        );
                    if i < rest.len() {
                        assert(rest[i] == candidates[i]);
                    }
                }
            }
            if accepts(last) {
                lemma_merge_candidate(previous, last, point_id, query);
            }
        }
        if accepts(last) && !has_point(previous, last.point_id) {
            assert(forall|i: int|
                0 <= i < previous.len() ==> (#[trigger] previous[i]).point_id != last.point_id);
        }
    }
}

/// A merged list selects what the list or the added candidate selects.
proof fn lemma_merge_candidate(
    list: Seq<FactorizedExactCandidate>,
    candidate: FactorizedExactCandidate,
    point_id: PointOffsetType,
    query: int,
)
    requires
        0 <= query < 64,
    ensures
        (exists|i: int|
            0 <= i < merge_candidate(list, candidate).len() && (#[trigger] merge_candidate(
                list,
                candidate,
            )[i]).point_id == point_id && bit64(
                merge_candidate(list, candidate)[i].query_mask,
                query,
            )) <==> ((exists|i: int|
            0 <= i < list.len() && (#[trigger] list[i]).point_id == point_id && bit64(
                list[i].query_mask,
                query,
            )) || (candidate.point_id == point_id && bit64(candidate.query_mask, query))),
{
    let merged = merge_candidate(list, candidate);
    let left = exists|i: int|
        0 <= i < list.len() && (#[trigger] list[i]).point_id == point_id && bit64(
            list[i].query_mask,
            query,
        );
    let right = candidate.point_id == point_id && bit64(candidate.query_mask, query);
    assert forall|i: int| 0 <= i < list.len() implies bit64(
        #[trigger] list[i].query_mask | candidate.query_mask,
        query,
    ) == (bit64(list[i].query_mask, query) || bit64(candidate.query_mask, query)) by {
        lemma_or64(list[i].query_mask, candidate.query_mask);
    }
    if left {
        let i = choose|i: int|
            0 <= i < list.len() && (#[trigger] list[i]).point_id == point_id && bit64(
                list[i].query_mask,
                query,
            );
        assert(merged[i].point_id == point_id && bit64(merged[i].query_mask, query));
    }
    if right {
        if has_point(list, candidate.point_id) {
            let i = choose|i: int|
                0 <= i < list.len() && (#[trigger] list[i]).point_id == candidate.point_id;
            assert(merged[i].point_id == point_id && bit64(merged[i].query_mask, query));
        } else {
            assert(merged[list.len() as int] == candidate);
        }
    }
    if exists|i: int|
        0 <= i < merged.len() && (#[trigger] merged[i]).point_id == point_id && bit64(
            merged[i].query_mask,
            query,
        ) {
        let i = choose|i: int|
            0 <= i < merged.len() && (#[trigger] merged[i]).point_id == point_id && bit64(
                merged[i].query_mask,
                query,
            );
        if i < list.len() {
            assert(list[i].point_id == point_id);
        }
    }
}

/// Tell whether the points ascend.
fn is_ordinal_ordered(list: &Vec<FactorizedExactCandidate>) -> (r: bool)
    ensures
        r == ordinal_order(list@),
{
    let mut i: usize = 1;
    while i < list.len()
        invariant
            1 <= i,
            i <= list@.len() || list@.len() == 0,
            ordinal_order(list@.take(if i <= list@.len() {
                i as int
            } else {
                0
            })),
        decreases list@.len() - i,
    {
        if list[i - 1].point_id > list[i].point_id {
            return false;
        }
        proof {
            let shorter = list@.take(i as int);
            let longer = list@.take(i + 1);
            assert forall|a: int, b: int| 0 <= a < b < longer.len() implies (
            #[trigger] longer[a]).point_id <= (#[trigger] longer[b]).point_id by {
                if b < i {
                    assert(shorter[a].point_id <= shorter[b].point_id);
                } else if a < i - 1 {
                    assert(shorter[a].point_id <= shorter[i - 1].point_id);
                }
            }
        }
        i = i + 1;
    }
    proof {
        if list@.len() > 0 {
            assert(list@.take(i as int) =~= list@);
        }
    }
    true
}

/// Merge a candidate into a strictly ascending list whose points are not above it.
fn merge_adjacent(list: &mut Vec<FactorizedExactCandidate>, candidate: FactorizedExactCandidate) -> (r:
    bool)
    requires
        ordinal_order(old(list)@),
        distinct_points(old(list)@),
        forall|i: int|
            0 <= i < old(list)@.len() ==> (#[trigger] old(list)@[i]).point_id
                <= candidate.point_id,
    ensures
        final(list)@ == merge_candidate(old(list)@, candidate),
        r == has_point(old(list)@, candidate.point_id),
        ordinal_order(final(list)@),
        distinct_points(final(list)@),
        forall|i: int|
            0 <= i < final(list)@.len() ==> (#[trigger] final(list)@[i]).point_id
                <= candidate.point_id,
{
    let ghost before = list@;
    let len: usize = list.len();
    if len > 0 && list[len - 1].point_id == candidate.point_id {
        let merged: u64 = list[len - 1].query_mask | candidate.query_mask;
        list.set(len - 1, FactorizedExactCandidate::new(candidate.point_id, merged));
        proof {
            assert(before[len - 1].point_id == candidate.point_id);
            assert(has_point(before, candidate.point_id));
            assert(list@ =~= merge_candidate(before, candidate)) by {
                assert forall|i: int| 0 <= i < before.len() implies list@[i] == merge_candidate(
                    before,
                    candidate,
                )[i] by {
                    if i < len - 1 {
                        assert(before[i].point_id != before[len - 1].point_id);
                    }
                }
            }
        }
        true
    } else {
        proof {
            if has_point(before, candidate.point_id) {
                let i = choose|i: int|
                    0 <= i < before.len() && (#[trigger] before[i]).point_id == candidate.point_id;
                assert(before[i].point_id <= before[before.len() - 1].point_id);
                assert(before[before.len() - 1].point_id <= candidate.point_id);
                assert(false);
            }
        }
        list.push(candidate);
        proof {
            assert forall|i: int, j: int| 0 <= i < j < list@.len() implies (
            #[trigger] list@[i]).point_id != (#[trigger] list@[j]).point_id by {
                if j == before.len() {
                    assert(before[i].point_id != candidate.point_id);
                }
            }
        }
        false
    }
}

/// Where the point of each list entry stands.
spec fn positions_match(
    list: Seq<FactorizedExactCandidate>,
    positions: Map<PointOffsetType, usize>,
) -> bool {
    &&& forall|p: PointOffsetType|
        #[trigger] positions.contains_key(p) ==> positions[p] < list.len()
            && list[positions[p] as int].point_id == p
    &&& forall|i: int|
        0 <= i < list.len() ==> positions.contains_key((#[trigger] list[i]).point_id)
}

/// Merge a candidate into a list with the help of the positions of its points.
fn merge_by_position(
    list: &mut Vec<FactorizedExactCandidate>,
    positions: &mut HashMap<PointOffsetType, usize>,
    candidate: FactorizedExactCandidate,
) -> (r: bool)
    requires
        distinct_points(old(list)@),
        positions_match(old(list)@, old(positions)@),
    ensures
        final(list)@ == merge_candidate(old(list)@, candidate),
        r == has_point(old(list)@, candidate.point_id),
        distinct_points(final(list)@),
        positions_match(final(list)@, final(positions)@),
{
    let ghost before = list@;
    let found: Option<usize> = match positions.get(&candidate.point_id) {
        Some(position) => Some(*position),
        None => None,
    };
    match found {
        Some(position) => {
            let merged: u64 = list[position].query_mask | candidate.query_mask;
            list.set(position, FactorizedExactCandidate::new(candidate.point_id, merged));
            proof {
                assert(before[position as int].point_id == candidate.point_id);
                assert(has_point(before, candidate.point_id));
                assert(list@ =~= merge_candidate(before, candidate)) by {
                    assert forall|i: int| 0 <= i < before.len() implies list@[i]
                        == merge_candidate(before, candidate)[i] by {
                        if i < position {
                            assert(before[i].point_id != before[position as int].point_id);
                        } else if i > position {
                            assert(before[position as int].point_id != before[i].point_id);
                        }
                    }
                }
                assert forall|i: int| 0 <= i < list@.len() implies positions@.contains_key(
                    (#[trigger] list@[i]).point_id,
                ) by {
                    assert(list@[i].point_id == before[i].point_id);
                }
                assert forall|i: int, j: int| 0 <= i < j < list@.len() implies (
                #[trigger] list@[i]).point_id != (#[trigger] list@[j]).point_id by {
                    assert(list@[i].point_id == before[i].point_id);
                    assert(list@[j].point_id == before[j].point_id);
                }
            }
            true
        },
        None => {
            let end: usize = list.len();
            positions.insert(candidate.point_id, end);
            list.push(candidate);
            proof {
                assert(!has_point(before, candidate.point_id));
                assert forall|i: int, j: int| 0 <= i < j < list@.len() implies (
                #[trigger] list@[i]).point_id != (#[trigger] list@[j]).point_id by {
                    if j == before.len() {
                        assert(before[i].point_id != candidate.point_id);
                    } else {
                        assert(before[i].point_id != before[j].point_id);
                    }
                }
                assert forall|p: PointOffsetType| #[trigger] positions@.contains_key(p) implies
                    positions@[p] < list@.len() && list@[positions@[p] as int].point_id == p by {
                    if p == candidate.point_id {
                        assert(list@[end as int] == candidate);
                    }
                }
                assert forall|i: int| 0 <= i < list@.len() implies positions@.contains_key(
                    (#[trigger] list@[i]).point_id,
                ) by {
                    if i < before.len() {
                        assert(list@[i] == before[i]);
                    }
                }
            }
            false
        },
    }
}

/// Merge two ascending lists.
fn merge_ascending(
    left: &Vec<FactorizedExactCandidate>,
    right: &Vec<FactorizedExactCandidate>,
) -> (r: Vec<FactorizedExactCandidate>)
    requires
        ordinal_order(left@),
        ordinal_order(right@),
    ensures
        ordinal_order(r@),
        r@.to_multiset() == (left@ + right@).to_multiset(),
{
    broadcast use vstd::seq_lib::group_to_multiset_ensures;

    let mut r: Vec<FactorizedExactCandidate> = Vec::new();
    let mut i: usize = 0;
    let mut j: usize = 0;
    proof {
        vstd::seq_lib::lemma_multiset_commutative(left@, right@);
        assert(left@.take(0) =~= Seq::empty());
        assert(right@.take(0) =~= Seq::empty());
        assert(r@.to_multiset() =~= left@.take(0).to_multiset().add(right@.take(0).to_multiset()));
    }
    while i < left.len() || j < right.len()
        invariant
            i <= left@.len(),
            j <= right@.len(),
            ordinal_order(left@),
            ordinal_order(right@),
            ordinal_order(r@),
            forall|a: int, b: int|
                0 <= a < r@.len() && i <= b < left@.len() ==> (#[trigger] r@[a]).point_id <= (
                #[trigger] left@[b]).point_id,
            forall|a: int, b: int|
                0 <= a < r@.len() && j <= b < right@.len() ==> (#[trigger] r@[a]).point_id <= (
                #[trigger] right@[b]).point_id,
            r@.to_multiset() == left@.take(i as int).to_multiset().add(
                right@.take(j as int).to_multiset(),
            ),
        decreases left@.len() - i + right@.len() - j,
    {
        let ghost before = r@;
        if j >= right.len() || (i < left.len() && left[i].point_id <= right[j].point_id) {
            r.push(left[i]);
            proof {
                assert(r@ == before.push(left@[i as int]));
                assert(left@.take(i + 1) =~= left@.take(i as int).push(left@[i as int]));
                before.to_multiset_ensures();
                left@.take(i as int).to_multiset_ensures();
                assert(r@.to_multiset() =~= left@.take(i + 1).to_multiset().add(
                    right@.take(j as int).to_multiset(),
                ));
            }
            i = i + 1;
        } else {
            r.push(right[j]);
            proof {
                assert(r@ == before.push(right@[j as int]));
                assert(right@.take(j + 1) =~= right@.take(j as int).push(right@[j as int]));
                before.to_multiset_ensures();
                right@.take(j as int).to_multiset_ensures();
                assert(r@.to_multiset() =~= left@.take(i as int).to_multiset().add(
                    right@.take(j + 1).to_multiset(),
                ));
            }
            j = j + 1;
        }
    }
    proof {
        assert(left@.take(i as int) =~= left@);
        assert(right@.take(j as int) =~= right@);
        vstd::seq_lib::lemma_multiset_commutative(left@, right@);
    }
    r
}

/// Sort candidates by point.
pub(crate) fn sort_by_point(list: &Vec<FactorizedExactCandidate>) -> (r: Vec<
    FactorizedExactCandidate,
>)
    ensures
        ordinal_order(r@),
        r@.to_multiset() == list@.to_multiset(),
{
    proof {
        assert(list@.subrange(0, list@.len() as int) =~= list@);
    }
    sort_range(list, 0, list.len())
}

/// Sort a part of a list by point.
fn sort_range(list: &Vec<FactorizedExactCandidate>, start: usize, end: usize) -> (r: Vec<
    FactorizedExactCandidate,
>)
    requires
        start <= end <= list@.len(),
    ensures
        ordinal_order(r@),
        r@.to_multiset() == list@.subrange(start as int, end as int).to_multiset(),
    decreases end - start,
{
    if end - start <= 1 {
        let mut r: Vec<FactorizedExactCandidate> = Vec::new();
        if start < end {
            r.push(list[start]);
        }
        proof {
            assert(r@ =~= list@.subrange(start as int, end as int));
        }
        return r;
    }
    let middle: usize = start + (end - start) / 2;
    let left = sort_range(list, start, middle);
    let right = sort_range(list, middle, end);
    proof {
        let low = list@.subrange(start as int, middle as int);
        let high = list@.subrange(middle as int, end as int);
        vstd::seq_lib::lemma_multiset_commutative(low, high);
        vstd::seq_lib::lemma_multiset_commutative(left@, right@);
        assert(low + high =~= list@.subrange(start as int, end as int));
    }
    merge_ascending(&left, &right)
}

/// Number of query-point pairs that a list of candidates stands for.
pub open spec fn score_pairs(candidates: Seq<FactorizedExactCandidate>) -> nat
    decreases candidates.len(),
{
    if candidates.len() == 0 {
        0
    } else {
        score_pairs(candidates.drop_last()) + ones(candidates.last().query_mask)
    }
}

/// The pairs of two lists add up.
pub proof fn lemma_score_pairs_concat(
    left: Seq<FactorizedExactCandidate>,
    right: Seq<FactorizedExactCandidate>,
)
    ensures
        score_pairs(left + right) == score_pairs(left) + score_pairs(right),
    decreases right.len(),
{
    if right.len() == 0 {
        assert(left + right =~= left);
    } else {
        assert((left + right).drop_last() =~= left + right.drop_last());
        lemma_score_pairs_concat(left, right.drop_last());
    }
}

/// The pairs of the candidates from one position up to another.
pub open spec fn pairs_in(
    candidates: Seq<FactorizedExactCandidate>,
    start: int,
    end: int,
) -> nat {
    score_pairs(candidates.subrange(start, end))
}

/// The pairs of adjacent ranges add up.
pub proof fn lemma_pairs_in(
    candidates: Seq<FactorizedExactCandidate>,
    start: int,
    middle: int,
    end: int,
)
    requires
        0 <= start <= middle <= end <= candidates.len(),
    ensures
        pairs_in(candidates, start, end) == pairs_in(candidates, start, middle) + pairs_in(
            candidates,
            middle,
            end,
        ),
{
    assert(candidates.subrange(start, end) =~= candidates.subrange(start, middle)
        + candidates.subrange(middle, end));
    lemma_score_pairs_concat(
        candidates.subrange(start, middle),
        candidates.subrange(middle, end),
    );
}

/// The pairs of one candidate.
proof fn lemma_pairs_of_one(candidates: Seq<FactorizedExactCandidate>, i: int)
    requires
        0 <= i < candidates.len(),
    ensures
        pairs_in(candidates, i, i + 1) == ones(candidates[i].query_mask),
{
    let one = candidates.subrange(i, i + 1);
    assert(one.drop_last() =~= Seq::empty());
    assert(score_pairs(one.drop_last()) == 0);
    assert(one.last() == candidates[i]);
}

/// Count the pairs of a list, unless the count does not fit.
fn count_score_pairs(candidates: &Vec<FactorizedExactCandidate>) -> (r: Option<usize>)
    ensures
        match r {
            Some(count) => count == score_pairs(candidates@),
            None => score_pairs(candidates@) > usize::MAX,
        },
{
    let mut sum: usize = 0;
    let mut i: usize = 0;
    proof {
        assert(candidates@.subrange(0, 0) =~= Seq::empty());
    }
    while i < candidates.len()
        invariant
            i <= candidates@.len(),
            sum == pairs_in(candidates@, 0, i as int),
        decreases candidates@.len() - i,
    {
        proof {
            lemma_pairs_in(candidates@, 0, i as int, i + 1);
            lemma_pairs_of_one(candidates@, i as int);
            lemma_pairs_in(candidates@, 0, i + 1, candidates@.len() as int);
            assert(candidates@.subrange(0, candidates@.len() as int) =~= candidates@);
        }
        match sum.checked_add(count_ones64(candidates[i].query_mask)) {
            Some(next) => {
                sum = next;
            },
            None => {
                return None;
            },
        }
        i = i + 1;
    }
    proof {
        assert(candidates@.subrange(0, candidates@.len() as int) =~= candidates@);
    }
    Some(sum)
}

/// A tile from `start` may end before position `end`: its pairs have reached the target, or the
/// next candidate would overshoot the target at least as much as ending here undershoots it.
pub open spec fn stops_at(
    candidates: Seq<FactorizedExactCandidate>,
    start: int,
    end: int,
    target: int,
) -> bool {
    let done = pairs_in(candidates, start, end) as int;
    let next = pairs_in(candidates, start, end + 1) as int;
    done >= target || (next > target && target - done <= next - target)
}

/// A tile from `start` ends at the first position where it may, and at `latest` at the latest.
pub open spec fn is_tile_end(
    candidates: Seq<FactorizedExactCandidate>,
    start: int,
    end: int,
    latest: int,
    target: int,
) -> bool {
    &&& start < end <= latest
    &&& end == latest || stops_at(candidates, start, end, target)
    &&& forall|e: int| start < e < end ==> !#[trigger] stops_at(candidates, start, e, target)
}

/// How many tiles the work is split into.
pub open spec fn wanted_tiles(n: int, pairs: int, max_tiles: int, min_pairs: int) -> int {
    min_int(max_int(1, min_int(ceil_div(pairs, min_pairs), max_tiles)), n)
}

/// The tiles are contiguous ranges, each of them cut where its pairs are nearest to an equal
/// share while every later tile still gets a candidate.
pub open spec fn balanced_tiles(
    candidates: Seq<FactorizedExactCandidate>,
    max_tiles: int,
    min_pairs: int,
    tiles: Seq<Range<usize>>,
) -> bool {
    let n = candidates.len() as int;
    let total = score_pairs(candidates) as int;
    if total == 0 {
        tiles.len() == 0
    } else {
        let count = wanted_tiles(n, total, max_tiles, min_pairs);
        let target = ceil_div(total, count);
        &&& tiles.len() == count
        &&& tiles[0].start == 0
        &&& forall|i: int| 0 < i < count ==> (#[trigger] tiles[i]).start == tiles[i - 1].end
        &&& forall|i: int|
            0 <= i < count - 1 ==> is_tile_end(
                candidates,
                (#[trigger] tiles[i]).start as int,
                tiles[i].end as int,
                n - (count - i - 1),
                target,
            )
        &&& tiles[count - 1].end == n
    }
}

/// The tiles are non-empty adjacent ranges that cover the list from its start to its end.
pub open spec fn partitions(tiles: Seq<Range<usize>>, n: nat) -> bool {
    &&& tiles.len() > 0 ==> tiles[0].start == 0 && tiles.last().end == n
    &&& tiles.len() == 0 ==> n == 0
    &&& forall|i: int| 0 <= i < tiles.len() ==> (#[trigger] tiles[i]).start < tiles[i].end <= n
    &&& forall|i: int| 0 < i < tiles.len() ==> (#[trigger] tiles[i]).start == tiles[i - 1].end
}

/// Balanced tiles cover every candidate once, and there are no more of them than allowed.
pub proof fn lemma_balanced_tiles(
    candidates: Seq<FactorizedExactCandidate>,
    max_tiles: int,
    min_pairs: int,
    tiles: Seq<Range<usize>>,
)
    requires
        balanced_tiles(candidates, max_tiles, min_pairs, tiles),
        score_pairs(candidates) == 0 ==> candidates.len() == 0,
        max_tiles >= 1,
    ensures
        partitions(tiles, candidates.len()),
        tiles.len() <= max_tiles,
{
    let n = candidates.len() as int;
    let total = score_pairs(candidates) as int;
    if total != 0 {
        let count = wanted_tiles(n, total, max_tiles, min_pairs);
        if count > 1 {
            assert(is_tile_end(
                candidates,
                tiles[count - 2].start as int,
                tiles[count - 2].end as int,
                n - (count - (count - 2) - 1),
                ceil_div(total, count),
            ));
            assert(tiles[count - 1].start == tiles[count - 2].end);
        }
        assert forall|i: int| 0 <= i < tiles.len() implies (#[trigger] tiles[i]).start
            < tiles[i].end <= n by {
            if i < count - 1 {
                assert(is_tile_end(
                    candidates,
                    tiles[i].start as int,
                    tiles[i].end as int,
                    n - (count - i - 1),
                    ceil_div(total, count),
                ));
            }
        }
    }
}

/// Find where a tile ends.
fn tile_end(
    candidates: &Vec<FactorizedExactCandidate>,
    start: usize,
    latest_end: usize,
    target_score_pairs: usize,
) -> (end: usize)
    requires
        start < latest_end <= candidates@.len(),
        score_pairs(candidates@) <= usize::MAX,
    ensures
        is_tile_end(
            candidates@,
            start as int,
            end as int,
            latest_end as int,
            target_score_pairs as int,
        ),
{
    let ghost n = candidates@.len() as int;
    let mut end: usize = start;
    let mut pairs: usize = 0;
    proof {
        assert(candidates@.subrange(start as int, start as int) =~= Seq::empty());
    }
    while end < latest_end
        invariant
            start <= end <= latest_end <= n,
            start < latest_end,
            n == candidates@.len(),
            score_pairs(candidates@) <= usize::MAX,
            pairs == pairs_in(candidates@, start as int, end as int),
            forall|e: int|
                start < e < end ==> !#[trigger] stops_at(
                    candidates@,
                    start as int,
                    e,
                    target_score_pairs as int,
                ),
        decreases latest_end - end,
    {
        let next_pairs: usize = count_ones64(candidates[end].query_mask);
        proof {
            lemma_pairs_of_one(candidates@, end as int);
            lemma_pairs_in(candidates@, start as int, end as int, end + 1);
            lemma_pairs_in(candidates@, 0, start as int, n);
            lemma_pairs_in(candidates@, start as int, end + 1, n);
            assert(candidates@.subrange(0, n) =~= candidates@);
        }
        if end > start && pairs >= target_score_pairs {
            return end;
        }
        if end > start && pairs + next_pairs > target_score_pairs {
            let undershoot: usize = target_score_pairs - pairs;
            let overshoot: usize = pairs + next_pairs - target_score_pairs;
            if undershoot <= overshoot {
                return end;
            }
        }
        pairs = pairs + next_pairs;
        end = end + 1;
    }
    end
}

fn build_score_pair_tiles(
    candidates: &Vec<FactorizedExactCandidate>,
    total_score_pairs: usize,
    max_tiles: usize,
    min_score_pairs_per_tile: usize,
) -> (tiles: Vec<Range<usize>>)
    requires
        total_score_pairs == score_pairs(candidates@),
        max_tiles > 0,
        min_score_pairs_per_tile > 0,
    ensures
        balanced_tiles(
            candidates@,
            max_tiles as int,
            min_score_pairs_per_tile as int,
            tiles@,
        ),
{
    if candidates.len() == 0 || total_score_pairs == 0 {
        return Vec::new();
    }
    let tile_count: usize = min_usize(
        max_usize(1, min_usize(div_ceil_usize(total_score_pairs, min_score_pairs_per_tile), max_tiles)),
        candidates.len(),
    );
    let target_score_pairs: usize = div_ceil_usize(total_score_pairs, tile_count);
    let mut tiles: Vec<Range<usize>> = Vec::with_capacity(tile_count);
    let mut start: usize = 0;
    let mut tile_ordinal: usize = 0;
    let ghost n = candidates@.len() as int;
    while tile_ordinal + 1 < tile_count
        invariant
            n == candidates@.len(),
            0 <= tile_ordinal < tile_count <= n,
            score_pairs(candidates@) <= usize::MAX,
            tiles@.len() == tile_ordinal,
            start + (tile_count - tile_ordinal) <= n,
            tile_ordinal == 0 ==> start == 0,
            tile_ordinal > 0 ==> tiles@[0].start == 0 && tiles@[tile_ordinal - 1].end == start,
            forall|i: int|
                0 < i < tile_ordinal ==> (#[trigger] tiles@[i]).start == tiles@[i - 1].end,
            forall|i: int|
                0 <= i < tile_ordinal ==> is_tile_end(
                    candidates@,
                    (#[trigger] tiles@[i]).start as int,
                    tiles@[i].end as int,
                    n - (tile_count - i - 1),
                    target_score_pairs as int,
                ),
        decreases tile_count - tile_ordinal,
    {
        let future_tiles: usize = tile_count - tile_ordinal - 1;
        let latest_end: usize = candidates.len() - future_tiles;
        let end: usize = tile_end(candidates, start, latest_end, target_score_pairs);
        tiles.push(start..end);
        start = end;
        tile_ordinal = tile_ordinal + 1;
    }
    tiles.push(start..candidates.len());
    tiles
}

/// Taking one candidate out of a list takes its pairs away.
proof fn lemma_score_pairs_remove(candidates: Seq<FactorizedExactCandidate>, i: int)
    requires
        0 <= i < candidates.len(),
    ensures
        score_pairs(candidates) == score_pairs(candidates.remove(i)) + ones(
            candidates[i].query_mask,
        ),
{
    let low = candidates.subrange(0, i);
    let high = candidates.subrange(i + 1, candidates.len() as int);
    let one = candidates.subrange(i, i + 1);
    assert(candidates =~= low + one + high);
    assert(candidates.remove(i) =~= low + high);
    lemma_score_pairs_concat(low, one);
    lemma_score_pairs_concat(low + one, high);
    lemma_score_pairs_concat(low, high);
    lemma_pairs_of_one(candidates, i);
}

/// The number of pairs does not depend on the order of the candidates.
pub proof fn lemma_score_pairs_permutation(
    a: Seq<FactorizedExactCandidate>,
    b: Seq<FactorizedExactCandidate>,
)
    requires
        a.to_multiset() == b.to_multiset(),
    ensures
        score_pairs(a) == score_pairs(b),
    decreases a.len(),
{
    broadcast use vstd::seq_lib::group_to_multiset_ensures;

    assert(a.len() == a.to_multiset().len());
    assert(b.len() == b.to_multiset().len());
    if a.len() > 0 {
        let last = a.last();
        assert(a.contains(last));
        assert(b.to_multiset().count(last) > 0);
        let i = choose|i: int| 0 <= i < b.len() && b[i] == last;
        assert(a.remove(a.len() - 1) =~= a.drop_last());
        assert(a.drop_last().to_multiset() == a.to_multiset().remove(last));
        assert(b.remove(i).to_multiset() == b.to_multiset().remove(last));
        lemma_score_pairs_permutation(a.drop_last(), b.remove(i));
        lemma_score_pairs_remove(b, i);
    }
}

/// A reordered list has the members of the list, and distinct points stay distinct.
pub(crate) proof fn lemma_reordered(a: Seq<FactorizedExactCandidate>, b: Seq<FactorizedExactCandidate>)
    requires
        a.to_multiset() == b.to_multiset(),
        distinct_points(a),
    ensures
        a.len() == b.len(),
        distinct_points(b),
        forall|i: int| 0 <= i < b.len() ==> a.contains(#[trigger] b[i]),
        forall|i: int| 0 <= i < a.len() ==> b.contains(#[trigger] a[i]),
{
    broadcast use vstd::seq_lib::group_to_multiset_ensures;

    assert(a.len() == a.to_multiset().len());
    assert(b.len() == b.to_multiset().len());
    assert forall|i: int| 0 <= i < b.len() implies a.contains(#[trigger] b[i]) by {
        assert(b.contains(b[i]));
        assert(b.to_multiset().count(b[i]) > 0);
    }
    assert forall|i: int| 0 <= i < a.len() implies b.contains(#[trigger] a[i]) by {
        assert(a.contains(a[i]));
        assert(a.to_multiset().count(a[i]) > 0);
    }
    assert(a.no_duplicates()) by {
        assert forall|i: int, j: int| 0 <= i < a.len() && 0 <= j < a.len() && i != j implies a[i]
            != a[j] by {
            if i < j {
                assert(a[i].point_id != a[j].point_id);
            } else {
                assert(a[j].point_id != a[i].point_id);
            }
        }
    }
    a.lemma_multiset_has_no_duplicates();
    b.lemma_multiset_has_no_duplicates_conv();
    assert forall|i: int, j: int| 0 <= i < j < b.len() implies (#[trigger] b[i]).point_id != (
    #[trigger] b[j]).point_id by {
        if b[i].point_id == b[j].point_id {
            assert(a.contains(b[i]) && a.contains(b[j]));
            let x = choose|x: int| 0 <= x < a.len() && a[x] == b[i];
            let y = choose|y: int| 0 <= y < a.len() && a[y] == b[j];
            assert(b[i] != b[j]);
            if x < y {
                assert(a[x].point_id != a[y].point_id);
            } else {
                assert(a[y].point_id != a[x].point_id);
            }
        }
    }
}

/// How long the steps before scoring took and what they met.
#[derive(Clone, Copy, Debug, PartialEq, Eq, Structural)]
pub struct CandidateMajorExactPrepareStats {
    pub posting_atoms: usize,
    pub posting_points: usize,
    pub single_valued: bool,
    pub atom_build_us: u64,
    pub posting_fetch_us: u64,
    pub candidate_collect_us: u64,
    pub plan_build_us: u64,
}

/// Statistics of a plan that was not prepared from postings.
pub open spec fn no_prepare_stats() -> CandidateMajorExactPrepareStats {
    CandidateMajorExactPrepareStats {
        posting_atoms: 0,
        posting_points: 0,
        single_valued: false,
        atom_build_us: 0,
        posting_fetch_us: 0,
        candidate_collect_us: 0,
        plan_build_us: 0,
    }
}

impl Default for CandidateMajorExactPrepareStats {
    fn default() -> (stats: Self)
        ensures
            stats == no_prepare_stats(),
    {
        CandidateMajorExactPrepareStats {
            posting_atoms: 0,
            posting_points: 0,
            single_valued: false,
            atom_build_us: 0,
            posting_fetch_us: 0,
            candidate_collect_us: 0,
            plan_build_us: 0,
        }
    }
}

/// Immutable, owned work plan. Each tile can be scored independently.
#[derive(Debug)]
pub struct CandidateMajorExactPlan {
    queries: Vec<Vec<VectorElementType>>,
    candidates: Vec<FactorizedExactCandidate>,
    tiles: Vec<Range<usize>>,
    top: usize,
    vector_dim: usize,
    input_candidates: usize,
    duplicate_candidates_merged: usize,
    planned_score_pairs: usize,
    ordinal_ordered: bool,
    ordinal_sort_applied: bool,
    prepare_stats: CandidateMajorExactPrepareStats,
}

/// What a plan holds.
#[verifier::ext_equal]
pub ghost struct PlanView {
    pub queries: Seq<Seq<VectorElementType>>,
    pub candidates: Seq<FactorizedExactCandidate>,
    pub tiles: Seq<Range<usize>>,
    pub top: nat,
    pub vector_dim: nat,
    pub input_candidates: nat,
    pub duplicate_candidates_merged: nat,
    pub planned_score_pairs: nat,
    pub ordinal_ordered: bool,
    pub ordinal_sort_applied: bool,
    pub prepare_stats: CandidateMajorExactPrepareStats,
}

impl View for CandidateMajorExactPlan {
    type V = PlanView;

    closed spec fn view(&self) -> PlanView {
        PlanView {
            queries: list_views(self.queries@),
            candidates: self.candidates@,
            tiles: self.tiles@,
            top: self.top as nat,
            vector_dim: self.vector_dim as nat,
            input_candidates: self.input_candidates as nat,
            duplicate_candidates_merged: self.duplicate_candidates_merged as nat,
            planned_score_pairs: self.planned_score_pairs as nat,
            ordinal_ordered: self.ordinal_ordered,
            ordinal_sort_applied: self.ordinal_sort_applied,
            prepare_stats: self.prepare_stats,
        }
    }
}

/// The mask selects queries below `query_count` only.
pub open spec fn mask_in_range(mask: u64, query_count: int) -> bool {
    forall|q: int| #[trigger] bit64(mask, q) ==> q < query_count
}

impl PlanView {
    /// Every candidate selects existing queries, no point occurs twice, and the tiles cover the
    /// candidates unless nothing is asked for.
    pub open spec fn wf(self) -> bool {
        &&& 1 <= self.queries.len() <= 64
        &&& distinct_points(self.candidates)
        &&& forall|i: int|
            0 <= i < self.candidates.len() ==> (#[trigger] self.candidates[i]).query_mask != 0
                && mask_in_range(self.candidates[i].query_mask, self.queries.len() as int)
        &&& self.planned_score_pairs == score_pairs(self.candidates)
        &&& self.planned_score_pairs <= usize::MAX
        &&& self.candidates.len() <= usize::MAX
        &&& if self.top == 0 {
            self.tiles.len() == 0
        } else {
            partitions(self.tiles, self.candidates.len())
        }
    }
}

impl CandidateMajorExactPlan {
    /// The plan is consistent.
    pub open spec fn wf(&self) -> bool {
        self@.wf()
    }

    /// The preprocessed queries.
    pub fn queries(&self) -> (queries: &[Vec<VectorElementType>])
        ensures
            list_views(queries@) == self@.queries,
    {
        self.queries.as_slice()
    }

    /// The candidates in scoring order.
    pub fn candidates(&self) -> (candidates: &[FactorizedExactCandidate])
        ensures
            candidates@ == self@.candidates,
    {
        self.candidates.as_slice()
    }

    /// The candidate range of every tile.
    pub fn tiles(&self) -> (tiles: &[Range<usize>])
        ensures
            tiles@ == self@.tiles,
    {
        self.tiles.as_slice()
    }

    /// Number of tiles.
    pub fn tile_count(&self) -> (count: usize)
        ensures
            count == self@.tiles.len(),
    {
        self.tiles.len()
    }

    /// Number of results wanted per query.
    pub fn top(&self) -> (top: usize)
        ensures
            top == self@.top,
    {
        self.top
    }

    /// Number of query-point pairs to score.
    pub fn planned_score_pairs(&self) -> (pairs: usize)
        ensures
            pairs == self@.planned_score_pairs,
    {
        self.planned_score_pairs
    }

    /// Whether the candidates ascend by point.
    pub fn ordinal_ordered(&self) -> (ordered: bool)
        ensures
            ordered == self@.ordinal_ordered,
    {
        self.ordinal_ordered
    }

    /// Whether the candidates were sorted for that.
    pub fn ordinal_sort_applied(&self) -> (applied: bool)
        ensures
            applied == self@.ordinal_sort_applied,
    {
        self.ordinal_sort_applied
    }

    /// Statistics of the preparation.
    pub fn prepare_stats(&self) -> (stats: CandidateMajorExactPrepareStats)
        ensures
            stats == self@.prepare_stats,
    {
        self.prepare_stats
    }

    /// Attach the statistics of the preparation.
    pub(crate) fn set_prepare_stats(&mut self, prepare_stats: CandidateMajorExactPrepareStats)
        ensures
            final(self)@ == (PlanView { prepare_stats, ..old(self)@ }),
    {
        self.prepare_stats = prepare_stats;
    }
}

/// What is wrong with a storage, if anything.
pub open spec fn storage_fault(storage: VectorStorage) -> Option<Seq<char>> {
    if storage.distance != Distance::Cosine {
        Some("candidate-major exact search currently supports cosine distance only"@)
    } else if storage.datatype != VectorStorageDatatype::Float32 {
        Some("candidate-major exact search currently supports f32 storage only"@)
    } else if !storage.is_dense_f32() {
        Some("candidate-major exact search requires single dense f32 storage"@)
    } else {
        None
    }
}

/// What is wrong with a batch, if anything.
pub open spec fn batch_fault(
    storage: VectorStorage,
    query_count: nat,
    planned_query_count: nat,
    config: CandidateMajorExactConfig,
) -> Option<Seq<char>> {
    if query_count == 0 {
        Some("candidate-major exact search requires at least one query"@)
    } else if query_count > 64 {
        Some("candidate-major exact search supports at most 64 queries"@)
    } else if planned_query_count != query_count {
        Some("factorized plan query count differs from vector query count"@)
    } else if config.max_tiles == 0 {
        Some("candidate-major exact max tile count must be greater than zero"@)
    } else if config.min_score_pairs_per_tile == 0 {
        Some("minimum score pairs per tile must be greater than zero"@)
    } else {
        storage_fault(storage)
    }
}

/// The result is what a check gives whose fault is known.
pub open spec fn checked<T>(fault: Option<Seq<char>>, r: OperationResult<T>) -> bool {
    match fault {
        Some(text) => failed(r, text),
        None => r is Ok,
    }
}

fn validate_batch_shape(
    storage: &VectorStorage,
    queries: &[&QueryVector],
    factorized_plan: &FactorizedFilterPlan,
    config: CandidateMajorExactConfig,
) -> (r: OperationResult<()>)
    ensures
        checked(
            batch_fault(
                *storage,
                queries@.len(),
                factorized_plan.spec_query_count(),
                config,
            ),
            r,
        ),
{
    if queries.len() == 0 {
        return Err(
            OperationError::service_error(
                "candidate-major exact search requires at least one query",
            ),
        );
    }
    if queries.len() > 64 {
        return Err(
            OperationError::service_error(
                "candidate-major exact search supports at most 64 queries",
            ),
        );
    }
    if factorized_plan.query_count() != queries.len() {
        return Err(
            OperationError::service_error(
                "factorized plan query count differs from vector query count",
            ),
        );
    }
    if config.max_tiles == 0 {
        return Err(
            OperationError::service_error(
                "candidate-major exact max tile count must be greater than zero",
            ),
        );
    }
    if config.min_score_pairs_per_tile == 0 {
        return Err(
            OperationError::service_error("minimum score pairs per tile must be greater than zero"),
        );
    }
    validate_storage_shape(storage)
}

fn validate_storage_shape(storage: &VectorStorage) -> (r: OperationResult<()>)
    ensures
        checked(storage_fault(*storage), r),
{
    if storage.distance != Distance::Cosine {
        return Err(
            OperationError::service_error(
                "candidate-major exact search currently supports cosine distance only",
            ),
        );
    }
    if storage.datatype != VectorStorageDatatype::Float32 {
        return Err(
            OperationError::service_error(
                "candidate-major exact search currently supports f32 storage only",
            ),
        );
    }
    match dense_f32_dim(storage) {
        Ok(_) => Ok(()),
        Err(error) => Err(error),
    }
}

fn dense_f32_dim(storage: &VectorStorage) -> (r: OperationResult<usize>)
    ensures
        if storage.is_dense_f32() {
            r matches Ok(dim) && dim == storage.vector_dim
        } else {
            failed(r, "candidate-major exact search requires single dense f32 storage"@)
        },
{
    match storage.kind {
        VectorStorageKind::DenseVolatile => Ok(storage.vector_dim),
        VectorStorageKind::DenseMemmap => Ok(storage.vector_dim),
        VectorStorageKind::DenseUring => Ok(storage.vector_dim),
        VectorStorageKind::DenseAppendableMemmap => Ok(storage.vector_dim),
        VectorStorageKind::EmptyDense => Ok(storage.vector_dim),
        VectorStorageKind::Other => Err(
            OperationError::service_error(
                "candidate-major exact search requires single dense f32 storage",
            ),
        ),
    }
}

/// The dense vector of a nearest query.
pub open spec fn nearest_vector(query: QueryVector) -> Option<Vec<VectorElementType>> {
    match query {
        QueryVector::Nearest(VectorInternal::Dense(vector)) => Some(vector),
        _ => None,
    }
}

/// What is wrong with one query, if anything.
pub open spec fn query_fault(
    query: QueryVector,
    query_index: nat,
    expected_dim: nat,
) -> Option<Seq<char>> {
    match nearest_vector(query) {
        None => Some("query "@ + decimal(query_index) + " is not a nearest dense query"@),
        Some(vector) => if vector@.len() != expected_dim {
            Some(
                "query "@ + decimal(query_index) + " dimension "@ + decimal(vector@.len())
                    + " differs from storage dimension "@ + decimal(expected_dim),
            )
        } else {
            None
        },
    }
}

/// What is wrong with the first faulty query, if there is one.
pub open spec fn queries_fault(queries: Seq<&QueryVector>, expected_dim: nat) -> Option<Seq<char>>
    decreases queries.len(),
{
    if queries.len() == 0 {
        None
    } else {
        match queries_fault(queries.drop_last(), expected_dim) {
            Some(text) => Some(text),
            None => query_fault(*queries.last(), (queries.len() - 1) as nat, expected_dim),
        }
    }
}

/// The output is what preprocessing may give for a query.
pub open spec fn preprocessed_as<P: Fn(&Vec<VectorElementType>) -> Vec<VectorElementType>>(
    preprocess: &P,
    query: QueryVector,
    output: Seq<VectorElementType>,
) -> bool {
    &&& nearest_vector(query) is Some
    &&& exists|vector: Vec<VectorElementType>|
        #[trigger] preprocess.ensures((&nearest_vector(query)->0,), vector) && vector@ == output
}

/// Every output is the preprocessed vector of its query.
pub open spec fn preprocessed<P: Fn(&Vec<VectorElementType>) -> Vec<VectorElementType>>(
    preprocess: &P,
    queries: Seq<&QueryVector>,
    outputs: Seq<Seq<VectorElementType>>,
) -> bool {
    &&& outputs.len() == queries.len()
    &&& forall|i: int|
        0 <= i < queries.len() ==> preprocessed_as(preprocess, *queries[i], #[trigger] outputs[i])
}

/// Once a prefix has a faulty query, so has the whole list.
proof fn lemma_queries_fault_prefix(queries: Seq<&QueryVector>, n: int, expected_dim: nat)
    requires
        0 <= n <= queries.len(),
        queries_fault(queries.take(n), expected_dim) is Some,
    ensures
        queries_fault(queries, expected_dim) == queries_fault(queries.take(n), expected_dim),
    decreases queries.len() - n,
{
    if n < queries.len() {
        assert(queries.take(n + 1).drop_last() =~= queries.take(n));
        lemma_queries_fault_prefix(queries, n + 1, expected_dim);
    } else {
        assert(queries.take(n) =~= queries);
    }
}

fn preprocess_queries<P: Fn(&Vec<VectorElementType>) -> Vec<VectorElementType>>(
    queries: &[&QueryVector],
    expected_dim: usize,
    preprocess: &P,
) -> (r: OperationResult<Vec<Vec<VectorElementType>>>)
    requires
        forall|vector: &Vec<VectorElementType>| #[trigger] preprocess.requires((vector,)),
    ensures
        checked(queries_fault(queries@, expected_dim as nat), r),
        r matches Ok(outputs) ==> preprocessed(preprocess, queries@, list_views(outputs@)),
{
    let mut outputs: Vec<Vec<VectorElementType>> = Vec::with_capacity(queries.len());
    let mut i: usize = 0;
    proof {
        assert(queries@.take(0) =~= Seq::empty());
    }
    while i < queries.len()
        invariant
            forall|vector: &Vec<VectorElementType>| #[trigger] preprocess.requires((vector,)),
            i <= queries@.len(),
            outputs@.len() == i,
            queries_fault(queries@.take(i as int), expected_dim as nat) is None,
            forall|j: int|
                0 <= j < i ==> preprocessed_as(
                    preprocess,
                    *queries@[j],
                    (#[trigger] outputs@[j])@,
                ),
        decreases queries@.len() - i,
    {
        proof {
            assert(queries@.take(i + 1).drop_last() =~= queries@.take(i as int));
            assert(queries@.take(i + 1).last() == queries@[i as int]);
        }
        match queries[i] {
            QueryVector::Nearest(VectorInternal::Dense(vector)) => {
                if vector.len() != expected_dim {
                    proof {
                        lemma_queries_fault_prefix(queries@, i + 1, expected_dim as nat);
                    }
                    let number = decimal_text(i as u64);
                    let actual = decimal_text(vector.len() as u64);
                    let expected = decimal_text(expected_dim as u64);
                    let head = joined(
                        joined("query ".to_owned(), number.as_str()),
                        " dimension ",
                    );
                    let middle = joined(
                        joined(head, actual.as_str()),
                        " differs from storage dimension ",
                    );
                    return Err(
                        OperationError::service_error_owned(joined(middle, expected.as_str())),
                    );
                }
                let output = preprocess(vector);
                proof {
                    assert(nearest_vector(*queries@[i as int]) == Some(*vector));
                    assert(preprocess.ensures(
                        (&nearest_vector(*queries@[i as int])->0,),
                        output,
                    ));
                    assert(preprocessed_as(preprocess, *queries@[i as int], output@));
                }
                outputs.push(output);
            },
            _ => {
                proof {
                    lemma_queries_fault_prefix(queries@, i + 1, expected_dim as nat);
                }
                let number = decimal_text(i as u64);
                return Err(
                    OperationError::service_error_owned(
                        joined(
                            joined("query ".to_owned(), number.as_str()),
                            " is not a nearest dense query",
                        ),
                    ),
                );
            },
        }
        i = i + 1;
    }
    proof {
        assert(queries@.take(i as int) =~= queries@);
        assert forall|j: int| 0 <= j < queries@.len() implies preprocessed_as(
            preprocess,
            *queries@[j],
            #[trigger] list_views(outputs@)[j],
        ) by {
            assert(list_views(outputs@)[j] == outputs@[j]@);
        }
    }
    Ok(outputs)
}

/// The candidates that are scored: eligible for some query, stored, and not deleted.
pub open spec fn scorable(
    storage: VectorStorage,
    point_deleted: Seq<bool>,
) -> spec_fn(FactorizedExactCandidate) -> bool {
    |c: FactorizedExactCandidate|
        c.query_mask != 0 && c.point_id < storage.total_vector_count && is_live(
            c.point_id,
            storage.deleted@,
            point_deleted,
        )
}

/// Some candidate selects a query that does not exist.
pub open spec fn has_stray_query(
    candidates: Seq<FactorizedExactCandidate>,
    query_count: int,
) -> bool {
    exists|i: int|
        0 <= i < candidates.len() && !mask_in_range(
            (#[trigger] candidates[i]).query_mask,
            query_count,
        )
}

/// Consolidated candidates select existing queries only when the candidates do, each selects at
/// least one, and there are no more of them than accepted ones.
proof fn lemma_consolidated_masks(
    candidates: Seq<FactorizedExactCandidate>,
    accepts: spec_fn(FactorizedExactCandidate) -> bool,
    query_count: int,
)
    requires
        !has_stray_query(candidates, query_count),
        forall|c: FactorizedExactCandidate| accepts(c) ==> c.query_mask != 0,
    ensures
        forall|i: int|
            0 <= i < consolidated(candidates, accepts).len() ==> (#[trigger] consolidated(
                candidates,
                accepts,
            )[i]).query_mask != 0 && mask_in_range(
                consolidated(candidates, accepts)[i].query_mask,
                query_count,
            ),
        consolidated(candidates, accepts).len() <= accepted_count(candidates, accepts)
            <= candidates.len(),
    decreases candidates.len(),
{
    if candidates.len() > 0 {
        let rest = candidates.drop_last();
        let last = candidates.last();
        let previous = consolidated(rest, accepts);
        let list = consolidated(candidates, accepts);
        assert(!has_stray_query(rest, query_count)) by {
            if has_stray_query(rest, query_count) {
                let i = choose|i: int|
                    0 <= i < rest.len() && !mask_in_range(
                        (#[trigger] rest[i]).query_mask,
                        query_count,
                    );
                assert(!mask_in_range(candidates[i].query_mask, query_count));
            }
        }
        assert(mask_in_range(last.query_mask, query_count)) by {
            assert(candidates[candidates.len() - 1] == last);
        }
        lemma_consolidated_masks(rest, accepts, query_count);
        if accepts(last) {
            assert forall|i: int| 0 <= i < list.len() implies (#[trigger] list[i]).query_mask != 0
                && mask_in_range(list[i].query_mask, query_count) by {
                if i < previous.len() {
                    let mask = previous[i].query_mask;
                    lemma_or64(mask, last.query_mask);
                    lemma_zero_iff64(mask);
                    lemma_zero_iff64(mask | last.query_mask);
                    let q = lemma_nonzero64(mask);
                    assert(bit64(mask | last.query_mask, q));
                }
            }
        }
    }
}

/// Tell whether a mask selects a query at or above `query_count`.
fn has_stray_bit(mask: u64, query_count: usize) -> (r: bool)
    requires
        1 <= query_count <= 64,
    ensures
        r == !mask_in_range(mask, query_count as int),
{
    let valid_query_mask: u64 = if query_count == 64 {
        u64::MAX
    } else {
        proof {
            lemma_low_mask64(query_count as u64);
        }
        (1u64 << query_count as u64) - 1
    };
    proof {
        lemma_full64();
        let stray = mask & !valid_query_mask;
        lemma_not64(valid_query_mask);
        lemma_and64(mask, !valid_query_mask);
        lemma_zero_iff64(stray);
        if query_count == 64 {
            assert(forall|q: int| #[trigger] bit64(mask, q) ==> q < 64);
        } else {
            lemma_low_mask64(query_count as u64);
        }
        assert forall|q: int| #[trigger] bit64(stray, q) == (bit64(mask, q) && q >= query_count) by {
            assert(bit64(stray, q) == (bit64(mask, q) && bit64(!valid_query_mask, q)));
        }
        if stray != 0 {
            let q = lemma_nonzero64(stray);
            assert(bit64(mask, q) && q >= query_count);
        } else {
            assert forall|q: int| #[trigger] bit64(mask, q) implies q < query_count by {
                assert(!bit64(stray, q));
            }
        }
    }
    mask & !valid_query_mask != 0
}

/// Drop what cannot be scored and unite the candidates of one point.
fn consolidate_candidates<S: Fn() -> bool>(
    storage: &VectorStorage,
    candidates: Vec<FactorizedExactCandidate>,
    query_count: usize,
    point_deleted: &[bool],
    is_stopped: &S,
) -> (r: OperationResult<(Vec<FactorizedExactCandidate>, usize)>)
    requires
        1 <= query_count <= 64,
        can_poll(is_stopped),
    ensures
        cancelled(r) ==> may_stop(is_stopped) && candidates@.len() > 0,
        always_stopped(is_stopped) && candidates@.len() > 0 ==> cancelled(r),
        !cancelled(r) ==> if has_stray_query(candidates@, query_count as int) {
            failed(r, "candidate query mask contains an out-of-range query bit"@)
        } else {
            r matches Ok((live, duplicates)) && live@ == consolidated(
                candidates@,
                scorable(*storage, point_deleted@),
            ) && duplicates == accepted_count(candidates@, scorable(*storage, point_deleted@))
                - live@.len() && distinct_points(live@)
        },
{
    let ordered = is_ordinal_ordered(&candidates);
    let mut positions: HashMap<PointOffsetType, usize> = HashMap::new();
    let mut live: Vec<FactorizedExactCandidate> = Vec::with_capacity(candidates.len());
    let mut duplicates: usize = 0;
    let ghost accepts = scorable(*storage, point_deleted@);
    let mut i: usize = 0;
    proof {
        assert(candidates@.take(0) =~= Seq::empty());
    }
    while i < candidates.len()
        invariant
            i <= candidates@.len(),
            1 <= query_count <= 64,
            can_poll(is_stopped),
            ordered == ordinal_order(candidates@),
            accepts == scorable(*storage, point_deleted@),
            always_stopped(is_stopped) ==> i == 0,
            !has_stray_query(candidates@.take(i as int), query_count as int),
            live@ == consolidated(candidates@.take(i as int), accepts),
            live@.len() <= i,
            duplicates + live@.len() == accepted_count(candidates@.take(i as int), accepts),
            accepted_count(candidates@.take(i as int), accepts) <= i,
            distinct_points(live@),
            ordered ==> ordinal_order(live@),
            ordered ==> forall|a: int, b: int|
                0 <= a < live@.len() && i <= b < candidates@.len() ==> (
                #[trigger] live@[a]).point_id <= (#[trigger] candidates@[b]).point_id,
            !ordered ==> positions_match(live@, positions@),
        decreases candidates@.len() - i,
    {
        if i % 4096 == 0 {
            match check_process_stopped(is_stopped) {
                Ok(_) => {},
                Err(error) => {
                    return Err(error);
                },
            }
        }
        let candidate: FactorizedExactCandidate = candidates[i];
        proof {
            assert(candidates@.take(i + 1).drop_last() =~= candidates@.take(i as int));
            assert(candidates@.take(i + 1).last() == candidate);
        }
        if has_stray_bit(candidate.query_mask, query_count) {
            proof {
                assert(!mask_in_range(candidates@[i as int].query_mask, query_count as int));
            }
            return Err(
                OperationError::service_error(
                    "candidate query mask contains an out-of-range query bit",
                ),
            );
        }
        proof {
            if has_stray_query(candidates@.take(i + 1), query_count as int) {
                let j = choose|j: int|
                    0 <= j < i + 1 && !mask_in_range(
                        (#[trigger] candidates@.take(i + 1)[j]).query_mask,
                        query_count as int,
                    );
                assert(candidates@.take(i as int)[j] == candidates@.take(i + 1)[j]);
                assert(false);
            }
        }
        if candidate.query_mask != 0 && (candidate.point_id as usize) < storage.total_vector_count
            && check_deleted_condition(
            candidate.point_id,
            storage.deleted.as_slice(),
            point_deleted,
        ) {
            let merged = if ordered {
                proof {
                    assert forall|a: int| 0 <= a < live@.len() implies (
                    #[trigger] live@[a]).point_id <= candidate.point_id by {
                        assert(candidates@[i as int] == candidate);
                    }
                }
                merge_adjacent(&mut live, candidate)
            } else {
                merge_by_position(&mut live, &mut positions, candidate)
            };
            if merged {
                duplicates = duplicates + 1;
            }
            proof {
                if ordered {
                    assert forall|a: int, b: int|
                        0 <= a < live@.len() && i + 1 <= b < candidates@.len() implies (
                    #[trigger] live@[a]).point_id <= (#[trigger] candidates@[b]).point_id by {
                        assert(candidates@[i as int].point_id <= candidates@[b].point_id);
                    }
                }
            }
        }
        i = i + 1;
    }
    proof {
        assert(candidates@.take(i as int) =~= candidates@);
    }
    Ok((live, duplicates))
}

/// What a plan holds that was built from candidates.
pub open spec fn built(
    plan: PlanView,
    storage: VectorStorage,
    candidates: Seq<FactorizedExactCandidate>,
    point_deleted: Seq<bool>,
    top: nat,
    config: CandidateMajorExactConfig,
) -> bool {
    let accepts = scorable(storage, point_deleted);
    let merged = consolidated(candidates, accepts);
    &&& plan.top == top
    &&& plan.vector_dim == storage.vector_dim
    &&& plan.input_candidates == candidates.len()
    &&& plan.duplicate_candidates_merged == accepted_count(candidates, accepts) - merged.len()
    &&& plan.ordinal_sort_applied == (merged.len() >= config.ordinal_ordering_threshold
        && !ordinal_order(merged))
    &&& plan.ordinal_ordered == (ordinal_order(merged) || plan.ordinal_sort_applied)
    &&& plan.candidates.to_multiset() == merged.to_multiset()
    &&& if plan.ordinal_sort_applied {
        ordinal_order(plan.candidates)
    } else {
        plan.candidates == merged
    }
    &&& plan.planned_score_pairs == score_pairs(merged)
    &&& if top == 0 {
        plan.tiles.len() == 0
    } else {
        balanced_tiles(
            plan.candidates,
            config.max_tiles as int,
            config.min_score_pairs_per_tile as int,
            plan.tiles,
        )
    }
    &&& plan.prepare_stats == no_prepare_stats()
}

/// The first fault of a batch and its queries.
pub open spec fn plan_fault(
    storage: VectorStorage,
    queries: Seq<&QueryVector>,
    planned_query_count: nat,
    config: CandidateMajorExactConfig,
) -> Option<Seq<char>> {
    match batch_fault(storage, queries.len(), planned_query_count, config) {
        Some(text) => Some(text),
        None => queries_fault(queries, storage.vector_dim as nat),
    }
}

/// What building a plan gives for a faultless batch that is not cancelled.
pub open spec fn plan_outcome<P: Fn(&Vec<VectorElementType>) -> Vec<VectorElementType>>(
    storage: VectorStorage,
    queries: Seq<&QueryVector>,
    candidates: Seq<FactorizedExactCandidate>,
    point_deleted: Seq<bool>,
    top: nat,
    config: CandidateMajorExactConfig,
    preprocess: &P,
    r: OperationResult<CandidateMajorExactPlan>,
) -> bool {
    if has_stray_query(candidates, queries.len() as int) {
        failed(r, "candidate query mask contains an out-of-range query bit"@)
    } else if score_pairs(consolidated(candidates, scorable(storage, point_deleted)))
        > usize::MAX {
        failed(r, "candidate score-pair count overflow"@)
    } else {
        &&& r matches Ok(plan)
        &&& plan.wf()
        &&& preprocessed(preprocess, queries, plan@.queries)
        &&& built(plan@, storage, candidates, point_deleted, top, config)
    }
}

/// Validate inputs, preprocess queries, consolidate candidates and construct balanced independent
/// score-pair tiles.
///
/// `preprocess` turns the vector of a query into the form that is compared with stored vectors.
pub fn build_candidate_major_exact_plan<
    P: Fn(&Vec<VectorElementType>) -> Vec<VectorElementType>,
    S: Fn() -> bool,
>(
    storage: &VectorStorage,
    queries: &[&QueryVector],
    factorized_plan: &FactorizedFilterPlan,
    candidates: Vec<FactorizedExactCandidate>,
    point_deleted: &[bool],
    top: usize,
    config: CandidateMajorExactConfig,
    preprocess: &P,
    is_stopped: &S,
) -> (r: OperationResult<CandidateMajorExactPlan>)
    requires
        forall|vector: &Vec<VectorElementType>| #[trigger] preprocess.requires((vector,)),
        can_poll(is_stopped),
    ensures
        match plan_fault(*storage, queries@, factorized_plan.spec_query_count(), config) {
            Some(text) => failed(r, text),
            None => {
                &&& cancelled(r) ==> may_stop(is_stopped) && candidates@.len() > 0
                &&& always_stopped(is_stopped) && candidates@.len() > 0 ==> cancelled(r)
                &&& cancelled(r) || plan_outcome(
                    *storage,
                    queries@,
                    candidates@,
                    point_deleted@,
                    top as nat,
                    config,
                    preprocess,
                    r,
                )
            },
        },
{
    match validate_batch_shape(storage, queries, factorized_plan, config) {
        Ok(_) => {},
        Err(error) => {
            return Err(error);
        },
    }
    let query_count: usize = queries.len();
    let vector_dim: usize = match dense_f32_dim(storage) {
        Ok(dim) => dim,
        Err(error) => {
            return Err(error);
        },
    };
    let preprocessed_queries = match preprocess_queries(queries, vector_dim, preprocess) {
        Ok(outputs) => outputs,
        Err(error) => {
            return Err(error);
        },
    };
    let input_candidates: usize = candidates.len();
    let ghost given = candidates@;
    let ghost accepts = scorable(*storage, point_deleted@);
    let consolidation = consolidate_candidates(
        storage,
        candidates,
        query_count,
        point_deleted,
        is_stopped,
    );
    let (merged, duplicate_candidates_merged) = match consolidation {
        Ok(pair) => pair,
        Err(error) => {
            return Err(error);
        },
    };
    proof {
        lemma_consolidated_masks(given, accepts, query_count as int);
    }
    let already_ordinal_ordered = is_ordinal_ordered(&merged);
    let should_order_by_ordinal = merged.len() >= config.ordinal_ordering_threshold;
    let ordinal_sort_applied = should_order_by_ordinal && !already_ordinal_ordered;
    let ghost before = merged@;
    let live_candidates = if ordinal_sort_applied {
        sort_by_point(&merged)
    } else {
        merged
    };
    let ordinal_ordered = already_ordinal_ordered || ordinal_sort_applied;
    proof {
        lemma_score_pairs_permutation(before, live_candidates@);
        lemma_reordered(before, live_candidates@);
    }
    let planned_score_pairs: usize = match count_score_pairs(&live_candidates) {
        Some(count) => count,
        None => {
            return Err(OperationError::service_error("candidate score-pair count overflow"));
        },
    };
    let tiles = if top == 0 {
        Vec::new()
    } else {
        build_score_pair_tiles(
            &live_candidates,
            planned_score_pairs,
            config.max_tiles,
            config.min_score_pairs_per_tile,
        )
    };
    let plan = CandidateMajorExactPlan {
        queries: preprocessed_queries,
        candidates: live_candidates,
        tiles,
        top,
        vector_dim,
        input_candidates,
        duplicate_candidates_merged,
        planned_score_pairs,
        ordinal_ordered,
        ordinal_sort_applied,
        prepare_stats: CandidateMajorExactPrepareStats::default(),
    };
    proof {
        assert forall|i: int| 0 <= i < plan@.candidates.len() implies (
        #[trigger] plan@.candidates[i]).query_mask != 0 && mask_in_range(
            plan@.candidates[i].query_mask,
            query_count as int,
        ) by {
            assert(before.contains(live_candidates@[i]));
            let j = choose|j: int| 0 <= j < before.len() && before[j] == live_candidates@[i];
            assert(before[j].query_mask != 0);
        }
        if top != 0 {
            lemma_no_pairs_no_candidates(live_candidates@);
            lemma_balanced_tiles(
                live_candidates@,
                config.max_tiles as int,
                config.min_score_pairs_per_tile as int,
                tiles@,
            );
        }
    }
    Ok(plan)
}

/// Candidates with non-empty masks stand for at least one pair each.
proof fn lemma_no_pairs_no_candidates(candidates: Seq<FactorizedExactCandidate>)
    requires
        forall|i: int| 0 <= i < candidates.len() ==> (#[trigger] candidates[i]).query_mask != 0,
    ensures
        score_pairs(candidates) >= candidates.len(),
    decreases candidates.len(),
{
    if candidates.len() > 0 {
        lemma_no_pairs_no_candidates(candidates.drop_last());
        lemma_ones_positive(candidates[candidates.len() - 1].query_mask);
    }
}

/// The results of one tile.
#[derive(Debug)]
pub struct CandidateMajorExactTileOutput {
    pub tile_ordinal: usize,
    pub results: Vec<Vec<ScoredPointOffset>>,
    pub vector_reads: usize,
    pub scored_pairs: usize,
}

/// The vector may be what is read for a point.
pub open spec fn reads_as<R: Fn(PointOffsetType) -> Vec<VectorElementType>>(
    read_vector: &R,
    point_id: PointOffsetType,
    vector: Seq<VectorElementType>,
) -> bool {
    exists|v: Vec<VectorElementType>|
        #[trigger] read_vector.ensures((point_id,), v) && v@ == vector
}

/// The score may be the similarity of a query and a vector.
pub open spec fn similar_as<M: Fn(&Vec<VectorElementType>, &Vec<VectorElementType>) -> ScoreType>(
    similarity: &M,
    query: Seq<VectorElementType>,
    vector: Seq<VectorElementType>,
    score: ScoreType,
) -> bool {
    exists|a: Vec<VectorElementType>, b: Vec<VectorElementType>|
        a@ == query && b@ == vector && #[trigger] similarity.ensures((&a, &b), score)
}

/// The score of every query and candidate position that was scored.
pub type ScoreTable = Map<(int, int), ScoreType>;

/// The candidate's vector was read once and compared with every query that selects it.
pub open spec fn candidate_scored<
    R: Fn(PointOffsetType) -> Vec<VectorElementType>,
    M: Fn(&Vec<VectorElementType>, &Vec<VectorElementType>) -> ScoreType,
>(
    read_vector: &R,
    similarity: &M,
    queries: Seq<Seq<VectorElementType>>,
    candidate: FactorizedExactCandidate,
    position: int,
    scores: ScoreTable,
) -> bool {
    exists|vector: Seq<VectorElementType>| #[trigger]
        reads_as(read_vector, candidate.point_id, vector) && forall|q: int|
            0 <= q < queries.len() && #[trigger] bit64(candidate.query_mask, q) ==> similar_as(
                similarity,
                queries[q],
                vector,
                scores[(q, position)],
            )
}

/// Every candidate of a range was scored.
pub open spec fn range_scored<
    R: Fn(PointOffsetType) -> Vec<VectorElementType>,
    M: Fn(&Vec<VectorElementType>, &Vec<VectorElementType>) -> ScoreType,
>(
    read_vector: &R,
    similarity: &M,
    queries: Seq<Seq<VectorElementType>>,
    candidates: Seq<FactorizedExactCandidate>,
    start: int,
    end: int,
    scores: ScoreTable,
) -> bool {
    forall|i: int|
        start <= i < end ==> candidate_scored(
            read_vector,
            similarity,
            queries,
            #[trigger] candidates[i],
            i,
            scores,
        )
}

/// The scored points of one query among the candidates of a range, in candidate order.
pub open spec fn query_points(
    candidates: Seq<FactorizedExactCandidate>,
    query: int,
    scores: ScoreTable,
    start: int,
    end: int,
) -> Seq<ScoredPointOffset>
    decreases end - start,
{
    if end <= start {
        Seq::empty()
    } else {
        let previous = query_points(candidates, query, scores, start, end - 1);
        if bit64(candidates[end - 1].query_mask, query) {
            previous.push(
                ScoredPointOffset {
                    idx: candidates[end - 1].point_id,
                    score: scores[(query, end - 1)],
                },
            )
        } else {
            previous
        }
    }
}

/// The best points of every query among the candidates of a range.
pub open spec fn best_points(
    candidates: Seq<FactorizedExactCandidate>,
    query_count: nat,
    scores: ScoreTable,
    start: int,
    end: int,
    top: nat,
) -> Seq<Seq<ScoredPointOffset>> {
    Seq::new(
        query_count,
        |q: int| top_ranked(query_points(candidates, q, scores, start, end), top),
    )
}

/// Points depend only on the scores of their own range.
pub proof fn lemma_query_points_scores(
    candidates: Seq<FactorizedExactCandidate>,
    query: int,
    a: ScoreTable,
    b: ScoreTable,
    start: int,
    end: int,
)
    requires
        forall|i: int|
            start <= i < end && bit64((#[trigger] candidates[i]).query_mask, query)
                ==> a[(query, i)] == b[(query, i)],
    ensures
        query_points(candidates, query, a, start, end) == query_points(
            candidates,
            query,
            b,
            start,
            end,
        ),
    decreases end - start,
{
    if end > start {
        lemma_query_points_scores(candidates, query, a, b, start, end - 1);
        assert(candidates[end - 1] == candidates[end - 1]);
    }
}

/// The points of adjacent ranges follow one another.
pub proof fn lemma_query_points_concat(
    candidates: Seq<FactorizedExactCandidate>,
    query: int,
    scores: ScoreTable,
    start: int,
    middle: int,
    end: int,
)
    requires
        start <= middle <= end,
    ensures
        query_points(candidates, query, scores, start, end) == query_points(
            candidates,
            query,
            scores,
            start,
            middle,
        ) + query_points(candidates, query, scores, middle, end),
    decreases end - middle,
{
    if middle < end {
        lemma_query_points_concat(candidates, query, scores, start, middle, end - 1);
        assert(query_points(candidates, query, scores, start, end) =~= query_points(
            candidates,
            query,
            scores,
            start,
            middle,
        ) + query_points(candidates, query, scores, middle, end));
    } else {
        assert(query_points(candidates, query, scores, middle, end) =~= Seq::empty());
        assert(query_points(candidates, query, scores, start, end) =~= query_points(
            candidates,
            query,
            scores,
            start,
            middle,
        ) + query_points(candidates, query, scores, middle, end));
    }
}

/// Empty result lists.
fn empty_results(len: usize) -> (results: Vec<Vec<ScoredPointOffset>>)
    ensures
        results@.len() == len,
        forall|i: int| 0 <= i < len ==> (#[trigger] list_views(results@)[i]).len() == 0,
{
    let mut results: Vec<Vec<ScoredPointOffset>> = Vec::with_capacity(len);
    while results.len() < len
        invariant
            results@.len() <= len,
            forall|i: int| 0 <= i < results@.len() ==> (#[trigger] results@[i])@.len() == 0,
        decreases len - results@.len(),
    {
        results.push(Vec::new());
    }
    results
}

/// Queues that keep up to `length` points each.
fn new_queues(len: usize, length: usize) -> (queues: Vec<FixedLengthPriorityQueue>)
    ensures
        queues@.len() == len,
        forall|q: int|
            0 <= q < len ==> {
                &&& (#[trigger] queues@[q]).wf()
                &&& queues@[q].length() == length
                &&& queues@[q]@ == Seq::<ScoredPointOffset>::empty()
            },
{
    let mut queues: Vec<FixedLengthPriorityQueue> = Vec::with_capacity(len);
    while queues.len() < len
        invariant
            queues@.len() <= len,
            forall|q: int|
                0 <= q < queues@.len() ==> {
                    &&& (#[trigger] queues@[q]).wf()
                    &&& queues@[q].length() == length
                    &&& queues@[q]@ == Seq::<ScoredPointOffset>::empty()
                },
        decreases len - queues@.len(),
    {
        queues.push(FixedLengthPriorityQueue::new(length));
    }
    queues
}

/// The kept points of every queue.
fn drain_queues(queues: Vec<FixedLengthPriorityQueue>) -> (results: Vec<Vec<ScoredPointOffset>>)
    ensures
        results@.len() == queues@.len(),
        forall|q: int|
            0 <= q < queues@.len() ==> #[trigger] list_views(results@)[q] == queues@[q]@,
{
    let ghost given = queues@;
    let mut rest = queues;
    let mut results: Vec<Vec<ScoredPointOffset>> = Vec::with_capacity(rest.len());
    while rest.len() > 0
        invariant
            results@.len() + rest@.len() == given.len(),
            rest@ == given.skip(results@.len() as int),
            forall|i: int| 0 <= i < results@.len() ==> (#[trigger] results@[i])@ == given[i]@,
        decreases rest@.len(),
    {
        let queue = rest.remove(0);
        results.push(queue.into_sorted_vec());
    }
    proof {
        assert forall|q: int| 0 <= q < given.len() implies #[trigger] list_views(results@)[q]
            == given[q]@ by {
            assert(list_views(results@)[q] == results@[q]@);
        }
    }
    results
}

/// What every queue holds while the queries of one candidate are served: the queries in `rest`
/// are still to be served.
spec fn queues_hold(
    queues: Seq<FixedLengthPriorityQueue>,
    candidates: Seq<FactorizedExactCandidate>,
    scores: ScoreTable,
    start: int,
    position: int,
    rest: u64,
    top: nat,
) -> bool {
    forall|q: int|
        0 <= q < queues.len() ==> {
            &&& (#[trigger] queues[q]).wf()
            &&& queues[q].length() == top
            &&& queues[q]@ == top_ranked(
                query_points(
                    candidates,
                    q,
                    scores,
                    start,
                    if bit64(rest, q) {
                        position
                    } else {
                        position + 1
                    },
                ),
                top,
            )
        }
}

fn score_tile_inner<
    R: Fn(PointOffsetType) -> Vec<VectorElementType>,
    M: Fn(&Vec<VectorElementType>, &Vec<VectorElementType>) -> ScoreType,
>(
    queries: &Vec<Vec<VectorElementType>>,
    candidates: &Vec<FactorizedExactCandidate>,
    start: usize,
    end: usize,
    top: usize,
    read_vector: &R,
    similarity: &M,
) -> (results: Vec<Vec<ScoredPointOffset>>)
    requires
        start <= end <= candidates@.len(),
        forall|i: int|
            0 <= i < candidates@.len() ==> mask_in_range(
                (#[trigger] candidates@[i]).query_mask,
                queries@.len() as int,
            ),
        forall|p: PointOffsetType| #[trigger] read_vector.requires((p,)),
        forall|a: &Vec<VectorElementType>, b: &Vec<VectorElementType>| #[trigger]
            similarity.requires((a, b)),
    ensures
        exists|scores: ScoreTable|
            #![trigger best_points(candidates@, queries@.len(), scores, start as int, end as int, top as nat)]
            {
                &&& top != 0 ==> range_scored(
                    read_vector,
                    similarity,
                    list_views(queries@),
                    candidates@,
                    start as int,
                    end as int,
                    scores,
                )
                &&& list_views(results@) == best_points(
                    candidates@,
                    queries@.len(),
                    scores,
                    start as int,
                    end as int,
                    top as nat,
                )
            },
{
    let ghost views = list_views(queries@);
    let ghost mut scores: ScoreTable = Map::empty();
    if top == 0 {
        let results = empty_results(queries.len());
        proof {
            assert(list_views(results@) =~= best_points(
                candidates@,
                queries@.len(),
                scores,
                start as int,
                end as int,
                0,
            )) by {
                assert forall|q: int| 0 <= q < queries@.len() implies list_views(results@)[q]
                    =~= best_points(
                    candidates@,
                    queries@.len(),
                    scores,
                    start as int,
                    end as int,
                    0,
                )[q] by {}
            }
        }
        return results;
    }
    let mut queues = new_queues(queries.len(), top);
    let mut i: usize = start;
    proof {
        assert forall|q: int| 0 <= q < queues@.len() implies (#[trigger] queues@[q])@ == top_ranked(
            query_points(candidates@, q, scores, start as int, start as int),
            top as nat,
        ) by {
            assert(query_points(candidates@, q, scores, start as int, start as int)
                =~= Seq::empty());
        }
    }
    while i < end
        invariant
            start <= i <= end <= candidates@.len(),
            top != 0,
            views == list_views(queries@),
            queues@.len() == queries@.len(),
            forall|j: int|
                0 <= j < candidates@.len() ==> mask_in_range(
                    (#[trigger] candidates@[j]).query_mask,
                    queries@.len() as int,
                ),
            forall|p: PointOffsetType| #[trigger] read_vector.requires((p,)),
            forall|a: &Vec<VectorElementType>, b: &Vec<VectorElementType>| #[trigger]
                similarity.requires((a, b)),
            range_scored(
                read_vector,
                similarity,
                views,
                candidates@,
                start as int,
                i as int,
                scores,
            ),
            forall|q: int|
                0 <= q < queues@.len() ==> {
                    &&& (#[trigger] queues@[q]).wf()
                    &&& queues@[q].length() == top
                    &&& queues@[q]@ == top_ranked(
                        query_points(candidates@, q, scores, start as int, i as int),
                        top as nat,
                    )
                },
        decreases end - i,
    {
        let candidate: FactorizedExactCandidate = candidates[i];
        let vector = read_vector(candidate.point_id);
        let mut query_mask: u64 = candidate.query_mask;
        let ghost earlier = scores;
        proof {
            assert(reads_as(read_vector, candidate.point_id, vector@));
            assert forall|q: int| 0 <= q < queues@.len() && !bit64(query_mask, q) implies
                query_points(candidates@, q, scores, start as int, i + 1) == query_points(
                candidates@,
                q,
                scores,
                start as int,
                i as int,
            ) by {}
        }
        while query_mask != 0
            invariant
                start <= i < end <= candidates@.len(),
                candidate == candidates@[i as int],
                views == list_views(queries@),
                queues@.len() == queries@.len(),
                mask_in_range(candidate.query_mask, queries@.len() as int),
                forall|q: int| #[trigger] bit64(query_mask, q) ==> bit64(candidate.query_mask, q),
                forall|a: &Vec<VectorElementType>, b: &Vec<VectorElementType>| #[trigger]
                    similarity.requires((a, b)),
                forall|q: int, j: int|
                    j != i ==> #[trigger] scores[(q, j)] == earlier[(q, j)],
                forall|q: int|
                    0 <= q < queries@.len() && #[trigger] bit64(candidate.query_mask, q) && !bit64(
                        query_mask,
                        q,
                    ) ==> similar_as(similarity, views[q], vector@, scores[(q, i as int)]),
                queues_hold(
                    queues@,
                    candidates@,
                    scores,
                    start as int,
                    i as int,
                    query_mask,
                    top as nat,
                ),
            decreases query_mask,
        {
            proof {
                lemma_clear_lowest64(query_mask);
            }
            let query_index: usize = query_mask.trailing_zeros() as usize;
            let ghost before_mask = query_mask;
            query_mask = query_mask & (query_mask - 1);
            proof {
                assert(bit64(candidate.query_mask, query_index as int));
            }
            let score: ScoreType = similarity(&queries[query_index], &vector);
            let point = ScoredPointOffset { idx: candidate.point_id, score };
            let ghost before_scores = scores;
            let ghost before_queues = queues@;
            proof {
                scores = scores.insert((query_index as int, i as int), score);
                assert(similar_as(similarity, views[query_index as int], vector@, score)) by {
                    assert(views[query_index as int] == queries@[query_index as int]@);
                }
            }
            queues[query_index].push(point);
            proof {
                assert forall|q: int| 0 <= q < queues@.len() implies {
                    &&& (#[trigger] queues@[q]).wf()
                    &&& queues@[q].length() == top
                    &&& queues@[q]@ == top_ranked(
                        query_points(
                            candidates@,
                            q,
                            scores,
                            start as int,
                            if bit64(query_mask, q) {
                                i as int
                            } else {
                                i + 1
                            },
                        ),
                        top as nat,
                    )
                } by {
                    assert(before_queues[q].wf());
                    let last = if bit64(before_mask, q) {
                        i as int
                    } else {
                        i + 1
                    };
                    if q == query_index {
                        lemma_query_points_scores(
                            candidates@,
                            q,
                            before_scores,
                            scores,
                            start as int,
                            i as int,
                        );
                        lemma_top_ranked_push(
                            query_points(candidates@, q, scores, start as int, i as int),
                            point,
                            top as nat,
                        );
                    } else {
                        assert(queues@[q] == before_queues[q]);
                        lemma_query_points_scores(
                            candidates@,
                            q,
                            before_scores,
                            scores,
                            start as int,
                            last,
                        );
                    }
                }
            }
        }
        proof {
            lemma_zero64();
            assert(candidate_scored(
                read_vector,
                similarity,
                views,
                candidates@[i as int],
                i as int,
                scores,
            ));
            assert forall|j: int| start <= j < i + 1 implies candidate_scored(
                read_vector,
                similarity,
                views,
                #[trigger] candidates@[j],
                j,
                scores,
            ) by {
                if j < i {
                    assert(candidate_scored(
                        read_vector,
                        similarity,
                        views,
                        candidates@[j],
                        j,
                        earlier,
                    ));
                    let v = choose|v: Seq<VectorElementType>| #[trigger]
                        reads_as(read_vector, candidates@[j].point_id, v) && forall|q: int|
                            0 <= q < views.len() && #[trigger] bit64(candidates@[j].query_mask, q)
                                ==> similar_as(similarity, views[q], v, earlier[(q, j)]);
                    assert forall|q: int|
                        0 <= q < views.len() && #[trigger] bit64(
                            candidates@[j].query_mask,
                            q,
                        ) implies similar_as(similarity, views[q], v, scores[(q, j)]) by {
                        assert(scores[(q, j)] == earlier[(q, j)]);
                    }
                }
            }
        }
        i = i + 1;
    }
    let results = drain_queues(queues);
    proof {
        assert(list_views(results@) =~= best_points(
            candidates@,
            queries@.len(),
            scores,
            start as int,
            end as int,
            top as nat,
        ));
    }
    results
}

/// What is wrong with scoring a tile on a storage, if anything.
pub open spec fn tile_fault(
    plan: PlanView,
    tile_ordinal: nat,
    storage: VectorStorage,
) -> Option<Seq<char>> {
    match storage_fault(storage) {
        Some(text) => Some(text),
        None => if storage.vector_dim != plan.vector_dim {
            Some("candidate-major exact plan vector dimension differs from storage"@)
        } else if tile_ordinal >= plan.tiles.len() {
            Some("candidate-major exact tile ordinal is out of range"@)
        } else {
            None
        },
    }
}

/// The output of a tile holds the best points of every query among the candidates of the tile.
pub open spec fn tile_scored<
    R: Fn(PointOffsetType) -> Vec<VectorElementType>,
    M: Fn(&Vec<VectorElementType>, &Vec<VectorElementType>) -> ScoreType,
>(
    plan: PlanView,
    tile_ordinal: int,
    read_vector: &R,
    similarity: &M,
    scores: ScoreTable,
    output: CandidateMajorExactTileOutput,
) -> bool {
    let tile = plan.tiles[tile_ordinal];
    &&& output.tile_ordinal == tile_ordinal
    &&& output.vector_reads == tile.end - tile.start
    &&& output.scored_pairs == pairs_in(plan.candidates, tile.start as int, tile.end as int)
    &&& range_scored(
        read_vector,
        similarity,
        plan.queries,
        plan.candidates,
        tile.start as int,
        tile.end as int,
        scores,
    )
    &&& list_views(output.results@) == best_points(
        plan.candidates,
        plan.queries.len(),
        scores,
        tile.start as int,
        tile.end as int,
        plan.top,
    )
}

/// What a counter shows after pairs were scored.
pub open spec fn counted(
    before: HardwareCounterCell,
    storage: VectorStorage,
    scored_pairs: nat,
    vector_reads: nat,
) -> HardwareCounterCell {
    HardwareCounterCell {
        cpu_multiplier: (storage.vector_dim * VECTOR_ELEMENT_SIZE) as usize,
        vector_io_read_multiplier: if storage.on_disk {
            (storage.vector_dim * VECTOR_ELEMENT_SIZE) as usize
        } else {
            0
        },
        cpu: min_int(before.cpu + scored_pairs, usize::MAX as int) as usize,
        vector_io_read: min_int(
            before.vector_io_read + vector_reads,
            usize::MAX as int,
        ) as usize,
        ..before
    }
}

/// Count the pairs of a range.
fn count_range_pairs(
    candidates: &Vec<FactorizedExactCandidate>,
    start: usize,
    end: usize,
) -> (pairs: usize)
    requires
        start <= end <= candidates@.len(),
        score_pairs(candidates@) <= usize::MAX,
    ensures
        pairs == pairs_in(candidates@, start as int, end as int),
{
    let ghost n = candidates@.len() as int;
    let mut pairs: usize = 0;
    let mut i: usize = start;
    proof {
        assert(candidates@.subrange(start as int, start as int) =~= Seq::empty());
    }
    while i < end
        invariant
            start <= i <= end <= n,
            n == candidates@.len(),
            score_pairs(candidates@) <= usize::MAX,
            pairs == pairs_in(candidates@, start as int, i as int),
        decreases end - i,
    {
        proof {
            lemma_pairs_of_one(candidates@, i as int);
            lemma_pairs_in(candidates@, start as int, i as int, i + 1);
            lemma_pairs_in(candidates@, 0, start as int, n);
            lemma_pairs_in(candidates@, start as int, i + 1, n);
            assert(candidates@.subrange(0, n) =~= candidates@);
        }
        pairs = pairs + count_ones64(candidates[i].query_mask);
        i = i + 1;
    }
    pairs
}

/// Score one tile. This is the worker-level entry point for parallel execution.
///
/// `read_vector` reads the stored vector of a point, and `similarity` compares a preprocessed
/// query with a stored vector. Higher scores are better.
pub fn score_candidate_major_exact_tile<
    R: Fn(PointOffsetType) -> Vec<VectorElementType>,
    M: Fn(&Vec<VectorElementType>, &Vec<VectorElementType>) -> ScoreType,
    S: Fn() -> bool,
>(
    plan: &CandidateMajorExactPlan,
    tile_ordinal: usize,
    storage: &VectorStorage,
    read_vector: &R,
    similarity: &M,
    hardware_counter: &mut HardwareCounterCell,
    is_stopped: &S,
) -> (r: OperationResult<CandidateMajorExactTileOutput>)
    requires
        plan.wf(),
        storage.wf(),
        forall|p: PointOffsetType| #[trigger] read_vector.requires((p,)),
        forall|a: &Vec<VectorElementType>, b: &Vec<VectorElementType>| #[trigger]
            similarity.requires((a, b)),
        can_poll(is_stopped),
    ensures
        cancelled(r) ==> may_stop(is_stopped),
        always_stopped(is_stopped) ==> cancelled(r),
        !cancelled(r) ==> checked(tile_fault(plan@, tile_ordinal as nat, *storage), r),
        match r {
            Ok(output) => {
                &&& exists|scores: ScoreTable|
                    tile_scored(
                        plan@,
                        tile_ordinal as int,
                        read_vector,
                        similarity,
                        scores,
                        output,
                    )
                &&& *final(hardware_counter) == counted(
                    *old(hardware_counter),
                    *storage,
                    output.scored_pairs as nat,
                    output.vector_reads as nat,
                )
            },
            Err(_) => *final(hardware_counter) == *old(hardware_counter),
        },
{
    match check_process_stopped(is_stopped) {
        Ok(_) => {},
        Err(error) => {
            return Err(error);
        },
    }
    match validate_storage_shape(storage) {
        Ok(_) => {},
        Err(error) => {
            return Err(error);
        },
    }
    match dense_f32_dim(storage) {
        Ok(dim) => {
            if dim != plan.vector_dim {
                return Err(
                    OperationError::service_error(
                        "candidate-major exact plan vector dimension differs from storage",
                    ),
                );
            }
        },
        Err(error) => {
            return Err(error);
        },
    }
    if tile_ordinal >= plan.tiles.len() {
        return Err(
            OperationError::service_error("candidate-major exact tile ordinal is out of range"),
        );
    }
    let start: usize = plan.tiles[tile_ordinal].start;
    let end: usize = plan.tiles[tile_ordinal].end;
    proof {
        assert(plan@.tiles[tile_ordinal as int].start < plan@.tiles[tile_ordinal as int].end
            <= plan@.candidates.len());
        assert forall|i: int| 0 <= i < plan.candidates@.len() implies mask_in_range(
            (#[trigger] plan.candidates@[i]).query_mask,
            plan.queries@.len() as int,
        ) by {
            assert(plan@.candidates[i].query_mask != 0);
        }
    }
    let scored_pairs: usize = count_range_pairs(&plan.candidates, start, end);
    let vector_reads: usize = end - start;
    let vector_bytes: usize = plan.vector_dim * VECTOR_ELEMENT_SIZE;
    hardware_counter.cpu_multiplier = vector_bytes;
    hardware_counter.vector_io_read_multiplier = if storage.on_disk {
        vector_bytes
    } else {
        0
    };
    hardware_counter.incr_cpu(scored_pairs);
    hardware_counter.incr_vector_io_read(vector_reads);
    let results = score_tile_inner(
        &plan.queries,
        &plan.candidates,
        start,
        end,
        plan.top,
        read_vector,
        similarity,
    );
    let output = CandidateMajorExactTileOutput { tile_ordinal, results, vector_reads, scored_pairs };
    proof {
        let scores = choose|scores: ScoreTable|
            #![trigger best_points(plan.candidates@, plan.queries@.len(), scores, start as int, end as int, plan.top as nat)]
            {
                &&& plan.top != 0 ==> range_scored(
                    read_vector,
                    similarity,
                    list_views(plan.queries@),
                    plan.candidates@,
                    start as int,
                    end as int,
                    scores,
                )
                &&& list_views(results@) == best_points(
                    plan.candidates@,
                    plan.queries@.len(),
                    scores,
                    start as int,
                    end as int,
                    plan.top as nat,
                )
            };
        assert(plan@.top != 0);
        assert(tile_scored(
            plan@,
            tile_ordinal as int,
            read_vector,
            similarity,
            scores,
            output,
        ));
        assert(vector_bytes == storage.vector_dim * VECTOR_ELEMENT_SIZE);
        assert(*hardware_counter == counted(
            *old(hardware_counter),
            *storage,
            scored_pairs as nat,
            vector_reads as nat,
        ));
    }
    Ok(output)
}

/// Breakdown emitted after all tile outputs are merged.
#[derive(Clone, Copy, Debug, PartialEq, Eq, Structural)]
pub struct CandidateMajorExactStats {
    pub input_candidates: usize,
    pub duplicate_candidates_merged: usize,
    pub vector_reads: usize,
    pub scored_pairs: usize,
    pub tiles: usize,
    pub ordinal_ordered: bool,
    pub ordinal_sort_applied: bool,
}

/// Final results of a batch.
#[derive(Debug)]
pub struct CandidateMajorExactOutput {
    pub results: Vec<Vec<ScoredPointOffset>>,
    pub stats: CandidateMajorExactStats,
}

/// The output at a position names a tile that does not exist or that was already named.
pub open spec fn misplaced(outputs: Seq<CandidateMajorExactTileOutput>, i: int) -> bool {
    ||| outputs[i].tile_ordinal >= outputs.len()
    ||| exists|j: int| 0 <= j < i && (#[trigger] outputs[j]).tile_ordinal == outputs[i].tile_ordinal
}

/// The output at a position is the first misplaced one.
pub open spec fn first_misplaced(outputs: Seq<CandidateMajorExactTileOutput>, i: int) -> bool {
    &&& 0 <= i < outputs.len()
    &&& misplaced(outputs, i)
    &&& forall|j: int| 0 <= j < i ==> !#[trigger] misplaced(outputs, j)
}

/// No output is misplaced.
pub open spec fn well_placed(outputs: Seq<CandidateMajorExactTileOutput>) -> bool {
    forall|i: int| 0 <= i < outputs.len() ==> !#[trigger] misplaced(outputs, i)
}

/// Position of the output of a tile.
pub open spec fn position_of_tile(
    outputs: Seq<CandidateMajorExactTileOutput>,
    tile_ordinal: int,
) -> int {
    choose|i: int|
        0 <= i < outputs.len() && (#[trigger] outputs[i]).tile_ordinal == tile_ordinal
}

/// The outputs in tile order.
pub open spec fn in_tile_order(
    outputs: Seq<CandidateMajorExactTileOutput>,
) -> Seq<CandidateMajorExactTileOutput> {
    Seq::new(outputs.len(), |t: int| outputs[position_of_tile(outputs, t)])
}

/// Vector reads of all outputs.
pub open spec fn total_reads(outputs: Seq<CandidateMajorExactTileOutput>) -> nat
    decreases outputs.len(),
{
    if outputs.len() == 0 {
        0
    } else {
        total_reads(outputs.drop_last()) + outputs.last().vector_reads as nat
    }
}

/// Scored pairs of all outputs.
pub open spec fn total_pairs(outputs: Seq<CandidateMajorExactTileOutput>) -> nat
    decreases outputs.len(),
{
    if outputs.len() == 0 {
        0
    } else {
        total_pairs(outputs.drop_last()) + outputs.last().scored_pairs as nat
    }
}

/// The points of one query in all outputs, one output after the other.
pub open spec fn gathered_points(
    outputs: Seq<CandidateMajorExactTileOutput>,
    query: int,
) -> Seq<ScoredPointOffset>
    decreases outputs.len(),
{
    if outputs.len() == 0 {
        Seq::empty()
    } else {
        gathered_points(outputs.drop_last(), query) + list_views(
            outputs.last().results@,
        )[query]
    }
}

/// What is wrong with the first faulty output in tile order, if there is one.
pub open spec fn outputs_fault(
    outputs: Seq<CandidateMajorExactTileOutput>,
    query_count: nat,
) -> Option<Seq<char>>
    decreases outputs.len(),
{
    if outputs.len() == 0 {
        None
    } else {
        match outputs_fault(outputs.drop_last(), query_count) {
            Some(text) => Some(text),
            None => if outputs.last().results@.len() != query_count {
                Some("candidate-major exact tile query result count differs from plan"@)
            } else if total_reads(outputs) > usize::MAX {
                Some("merged vector-read count overflow"@)
            } else if total_pairs(outputs) > usize::MAX {
                Some("merged score-pair count overflow"@)
            } else {
                None
            },
        }
    }
}

/// Once a prefix has a faulty output, so has the whole list.
proof fn lemma_outputs_fault_prefix(
    outputs: Seq<CandidateMajorExactTileOutput>,
    n: int,
    query_count: nat,
)
    requires
        0 <= n <= outputs.len(),
        outputs_fault(outputs.take(n), query_count) is Some,
    ensures
        outputs_fault(outputs, query_count) == outputs_fault(outputs.take(n), query_count),
    decreases outputs.len() - n,
{
    if n < outputs.len() {
        assert(outputs.take(n + 1).drop_last() =~= outputs.take(n));
        lemma_outputs_fault_prefix(outputs, n + 1, query_count);
    } else {
        assert(outputs.take(n) =~= outputs);
    }
}

/// What merging gives for outputs that are in tile order.
pub open spec fn merged_in_order(
    plan: PlanView,
    outputs: Seq<CandidateMajorExactTileOutput>,
    r: OperationResult<CandidateMajorExactOutput>,
) -> bool {
    match outputs_fault(outputs, plan.queries.len()) {
        Some(text) => failed(r, text),
        None => if plan.top != 0 && (total_reads(outputs) != plan.candidates.len() || total_pairs(
            outputs,
        ) != plan.planned_score_pairs) {
            failed(r, "candidate-major exact tile outputs do not cover the complete plan"@)
        } else {
            &&& r matches Ok(output)
            &&& output.results@.len() == plan.queries.len()
            &&& forall|q: int|
                0 <= q < plan.queries.len() ==> #[trigger] list_views(output.results@)[q]
                    == top_ranked(gathered_points(outputs, q), plan.top)
            &&& output.stats.input_candidates == plan.input_candidates
            &&& output.stats.duplicate_candidates_merged == plan.duplicate_candidates_merged
            &&& output.stats.vector_reads == total_reads(outputs)
            &&& output.stats.scored_pairs == total_pairs(outputs)
            &&& output.stats.tiles == plan.tiles.len()
            &&& output.stats.ordinal_ordered == plan.ordinal_ordered
            &&& output.stats.ordinal_sort_applied == plan.ordinal_sort_applied
        },
    }
}

/// What merging gives for outputs in any order.
pub open spec fn merge_outcome(
    plan: PlanView,
    outputs: Seq<CandidateMajorExactTileOutput>,
    r: OperationResult<CandidateMajorExactOutput>,
) -> bool {
    if outputs.len() != plan.tiles.len() {
        failed(r, "candidate-major exact tile output count differs from plan"@)
    } else if well_placed(outputs) {
        merged_in_order(plan, in_tile_order(outputs), r)
    } else {
        exists|i: int|
            #![trigger first_misplaced(outputs, i)]
            first_misplaced(outputs, i) && failed(
                r,
                if outputs[i].tile_ordinal >= outputs.len() {
                    "candidate-major exact tile output ordinal is out of range"@
                } else {
                    "candidate-major exact tile output ordinal is duplicated"@
                },
            )
    }
}

/// Well-placed outputs name every tile.
proof fn lemma_well_placed(outputs: Seq<CandidateMajorExactTileOutput>, tile_ordinal: int)
    requires
        well_placed(outputs),
        0 <= tile_ordinal < outputs.len(),
        outputs.len() <= usize::MAX,
    ensures
        0 <= position_of_tile(outputs, tile_ordinal) < outputs.len(),
        outputs[position_of_tile(outputs, tile_ordinal)].tile_ordinal == tile_ordinal,
        forall|i: int|
            0 <= i < outputs.len() && (#[trigger] outputs[i]).tile_ordinal == tile_ordinal ==> i
                == position_of_tile(outputs, tile_ordinal),
{
    let ordinals = outputs.map_values(|output: CandidateMajorExactTileOutput| output.tile_ordinal);
    assert forall|i: int, j: int| 0 <= i < j < ordinals.len() implies ordinals[i]
        != ordinals[j] by {
        assert(!misplaced(outputs, j));
        assert(outputs[i].tile_ordinal == ordinals[i]);
    }
    assert forall|i: int| 0 <= i < ordinals.len() implies #[trigger] ordinals[i]
        < outputs.len() by {
        assert(!misplaced(outputs, i));
    }
    lemma_distinct_bound(ordinals, outputs.len());
    assert(ordinals.contains(tile_ordinal as usize));
    let i = choose|i: int| 0 <= i < ordinals.len() && ordinals[i] == tile_ordinal as usize;
    assert(outputs[i].tile_ordinal == tile_ordinal);
    let found = position_of_tile(outputs, tile_ordinal);
    assert forall|k: int|
        0 <= k < outputs.len() && (#[trigger] outputs[k]).tile_ordinal == tile_ordinal implies k
        == found by {
        if k < found {
            assert(ordinals[k] != ordinals[found]);
        } else if found < k {
            assert(ordinals[found] != ordinals[k]);
        }
    }
}

/// Two merges gave the same: equal results and statistics, or errors with the same text.
pub open spec fn merged_alike(
    r: OperationResult<CandidateMajorExactOutput>,
    s: OperationResult<CandidateMajorExactOutput>,
) -> bool {
    match r {
        Ok(x) => {
            &&& s matches Ok(y)
            &&& list_views(x.results@) == list_views(y.results@)
            &&& x.stats == y.stats
        },
        Err(_) => exists|text: Seq<char>| #[trigger] failed(r, text) && failed(s, text),
    }
}

/// Some output names a tile that does not exist.
pub open spec fn names_no_tile(outputs: Seq<CandidateMajorExactTileOutput>) -> bool {
    exists|i: int| 0 <= i < outputs.len() && (#[trigger] outputs[i]).tile_ordinal >= outputs.len()
}

/// Two outputs name the same tile.
pub open spec fn names_tile_twice(outputs: Seq<CandidateMajorExactTileOutput>) -> bool {
    exists|i: int, j: int|
        0 <= i < j < outputs.len() && (#[trigger] outputs[i]).tile_ordinal == (
        #[trigger] outputs[j]).tile_ordinal < outputs.len()
}

/// Outputs are misplaced exactly where one names no tile or two name the same.
proof fn lemma_misplaced_kinds(outputs: Seq<CandidateMajorExactTileOutput>)
    ensures
        well_placed(outputs) <==> !names_no_tile(outputs) && !names_tile_twice(outputs),
        forall|i: int|
            first_misplaced(outputs, i) ==> if (#[trigger] outputs[i]).tile_ordinal
                >= outputs.len() {
                names_no_tile(outputs)
            } else {
                names_tile_twice(outputs)
            },
{
    if well_placed(outputs) {
        assert forall|i: int| 0 <= i < outputs.len() implies (#[trigger] outputs[i]).tile_ordinal
            < outputs.len() by {
            assert(!misplaced(outputs, i));
        }
        assert forall|i: int, j: int| 0 <= i < j < outputs.len() implies (
        #[trigger] outputs[i]).tile_ordinal != (#[trigger] outputs[j]).tile_ordinal by {
            assert(!misplaced(outputs, j));
        }
    }
}

/// A value at two positions counts twice.
proof fn lemma_counts_twice<A>(list: Seq<A>, i: int, j: int)
    requires
        0 <= i < j < list.len(),
        list[i] == list[j],
    ensures
        list.to_multiset().count(list[i]) >= 2,
    decreases list.len(),
{
    broadcast use vstd::seq_lib::group_to_multiset_ensures;

    let previous = list.drop_last();
    assert(previous.push(list.last()) =~= list);
    if j < previous.len() {
        lemma_counts_twice(previous, i, j);
    } else {
        assert(previous[i] == list[i]);
        assert(previous.contains(list[i]));
    }
}

/// A value that counts twice is at two positions.
proof fn lemma_found_twice<A>(list: Seq<A>, value: A) -> (r: (int, int))
    requires
        list.to_multiset().count(value) >= 2,
    ensures
        0 <= r.0 < r.1 < list.len(),
        list[r.0] == value,
        list[r.1] == value,
    decreases list.len(),
{
    broadcast use vstd::seq_lib::group_to_multiset_ensures;

    if list.len() == 0 {
        assert(!list.contains(value));
        (0, 0)
    } else {
        let previous = list.drop_last();
        assert(previous.push(list.last()) =~= list);
        if list.last() == value {
            assert(previous.to_multiset().count(value) >= 1);
            assert(previous.contains(value));
            let i = choose|i: int| 0 <= i < previous.len() && previous[i] == value;
            (i, list.len() - 1)
        } else {
            lemma_found_twice(previous, value)
        }
    }
}

/// Which kinds of misplaced outputs there are does not depend on the order.
proof fn lemma_kinds_reordered(
    a: Seq<CandidateMajorExactTileOutput>,
    b: Seq<CandidateMajorExactTileOutput>,
)
    requires
        a.to_multiset() == b.to_multiset(),
    ensures
        a.len() == b.len(),
        names_no_tile(b) ==> names_no_tile(a),
        names_tile_twice(b) ==> names_tile_twice(a),
{
    broadcast use vstd::seq_lib::group_to_multiset_ensures;

    assert(a.len() == a.to_multiset().len());
    assert(b.len() == b.to_multiset().len());
    assert forall|i: int| 0 <= i < b.len() implies a.contains(#[trigger] b[i]) by {
        assert(b.contains(b[i]));
        assert(b.to_multiset().count(b[i]) > 0);
    }
    if names_no_tile(b) {
        let i = choose|i: int|
            0 <= i < b.len() && (#[trigger] b[i]).tile_ordinal >= b.len();
        assert(a.contains(b[i]));
        let x = choose|x: int| 0 <= x < a.len() && a[x] == b[i];
        assert(a[x].tile_ordinal >= a.len());
    }
    if names_tile_twice(b) {
        let (i, j) = choose|i: int, j: int|
            0 <= i < j < b.len() && (#[trigger] b[i]).tile_ordinal == (
            #[trigger] b[j]).tile_ordinal < b.len();
        if b[i] == b[j] {
            lemma_counts_twice(b, i, j);
            let (x, y) = lemma_found_twice(a, b[i]);
            assert(a[x].tile_ordinal == a[y].tile_ordinal);
        } else {
            assert(a.contains(b[i]) && a.contains(b[j]));
            let x = choose|x: int| 0 <= x < a.len() && a[x] == b[i];
            let y = choose|y: int| 0 <= y < a.len() && a[y] == b[j];
            if x < y {
                assert(a[x].tile_ordinal == a[y].tile_ordinal);
            } else {
                assert(a[y].tile_ordinal == a[x].tile_ordinal);
            }
        }
    }
}

/// Well-placed outputs in tile order are the same in whichever order they came.
proof fn lemma_tile_order(
    a: Seq<CandidateMajorExactTileOutput>,
    b: Seq<CandidateMajorExactTileOutput>,
)
    requires
        well_placed(a),
        well_placed(b),
        a.to_multiset() == b.to_multiset(),
        a.len() <= usize::MAX,
    ensures
        in_tile_order(a) == in_tile_order(b),
{
    broadcast use vstd::seq_lib::group_to_multiset_ensures;

    assert(a.len() == a.to_multiset().len());
    assert(b.len() == b.to_multiset().len());
    assert forall|i: int| 0 <= i < b.len() implies a.contains(#[trigger] b[i]) by {
        assert(b.contains(b[i]));
        assert(b.to_multiset().count(b[i]) > 0);
    }
    assert forall|t: int| 0 <= t < a.len() implies in_tile_order(a)[t] == in_tile_order(b)[t] by {
        lemma_well_placed(a, t);
        lemma_well_placed(b, t);
        let y = position_of_tile(b, t);
        assert(a.contains(b[y]));
        let x = choose|x: int| 0 <= x < a.len() && a[x] == b[y];
        assert(a[x].tile_ordinal == t);
    }
    assert(in_tile_order(a) =~= in_tile_order(b));
}

/// Tile outputs may arrive in any order: whether merging succeeds, and what it then gives, depends
/// only on which outputs there are. So does the error, unless one output names no tile and two
/// others name the same one. Then the error tells which of the two came first.
pub proof fn lemma_completion_order_is_irrelevant(
    plan: PlanView,
    a: Seq<CandidateMajorExactTileOutput>,
    b: Seq<CandidateMajorExactTileOutput>,
    r: OperationResult<CandidateMajorExactOutput>,
    s: OperationResult<CandidateMajorExactOutput>,
)
    requires
        a.to_multiset() == b.to_multiset(),
        a.len() <= usize::MAX,
        merge_outcome(plan, a, r),
        merge_outcome(plan, b, s),
    ensures
        r is Ok <==> s is Ok,
        !(names_no_tile(a) && names_tile_twice(a)) || a.len() != plan.tiles.len() ==> merged_alike(
            r,
            s,
        ),
{
    lemma_kinds_reordered(a, b);
    lemma_kinds_reordered(b, a);
    lemma_misplaced_kinds(a);
    lemma_misplaced_kinds(b);
    if a.len() != plan.tiles.len() {
        assert(failed(r, "candidate-major exact tile output count differs from plan"@));
    } else if well_placed(a) {
        lemma_tile_order(a, b);
        if r is Ok && s is Ok {
            assert(list_views(r->Ok_0.results@) =~= list_views(s->Ok_0.results@));
        }
    } else {
        let i = choose|i: int|
            #![trigger first_misplaced(a, i)]
            first_misplaced(a, i) && failed(
                r,
                if a[i].tile_ordinal >= a.len() {
                    "candidate-major exact tile output ordinal is out of range"@
                } else {
                    "candidate-major exact tile output ordinal is duplicated"@
                },
            );
        let j = choose|j: int|
            #![trigger first_misplaced(b, j)]
            first_misplaced(b, j) && failed(
                s,
                if b[j].tile_ordinal >= b.len() {
                    "candidate-major exact tile output ordinal is out of range"@
                } else {
                    "candidate-major exact tile output ordinal is duplicated"@
                },
            );
        assert(a[i].tile_ordinal >= a.len() ==> names_no_tile(a));
        assert(b[j].tile_ordinal >= b.len() ==> names_no_tile(b));
    }
}

/// Find the position of the output of every tile.
fn place_outputs(outputs: &Vec<CandidateMajorExactTileOutput>) -> (r: OperationResult<Vec<usize>>)
    ensures
        if well_placed(outputs@) {
            r matches Ok(slots) && slots@.len() == outputs@.len() && forall|t: int|
                0 <= t < slots@.len() ==> (#[trigger] slots@[t]) == position_of_tile(outputs@, t)
        } else {
            exists|i: int|
                #![trigger first_misplaced(outputs@, i)]
                first_misplaced(outputs@, i) && failed(
                    r,
                    if outputs@[i].tile_ordinal >= outputs@.len() {
                        "candidate-major exact tile output ordinal is out of range"@
                    } else {
                        "candidate-major exact tile output ordinal is duplicated"@
                    },
                )
        },
{
    let n: usize = outputs.len();
    let mut slots: Vec<Option<usize>> = Vec::with_capacity(n);
    while slots.len() < n
        invariant
            slots@.len() <= n,
            forall|t: int| 0 <= t < slots@.len() ==> #[trigger] slots@[t] is None,
        decreases n - slots@.len(),
    {
        slots.push(None);
    }
    let mut i: usize = 0;
    while i < n
        invariant
            i <= n,
            n == outputs@.len(),
            slots@.len() == n,
            forall|j: int| 0 <= j < i ==> !#[trigger] misplaced(outputs@, j),
            forall|t: int|
                0 <= t < n ==> (match #[trigger] slots@[t] {
                    Some(p) => p < i && outputs@[p as int].tile_ordinal == t,
                    None => forall|j: int|
                        0 <= j < i ==> (#[trigger] outputs@[j]).tile_ordinal != t,
                }),
        decreases n - i,
    {
        let ordinal: usize = outputs[i].tile_ordinal;
        if ordinal >= n {
            proof {
                assert(misplaced(outputs@, i as int));
                assert(first_misplaced(outputs@, i as int));
            }
            return Err(
                OperationError::service_error(
                    "candidate-major exact tile output ordinal is out of range",
                ),
            );
        }
        if let Some(_p) = slots[ordinal] {
            proof {
                assert(outputs@[_p as int].tile_ordinal == outputs@[i as int].tile_ordinal);
                assert(misplaced(outputs@, i as int));
                assert(first_misplaced(outputs@, i as int));
            }
            return Err(
                OperationError::service_error(
                    "candidate-major exact tile output ordinal is duplicated",
                ),
            );
        }
        let ghost before = slots@;
        slots.set(ordinal, Some(i));
        proof {
            assert(before[ordinal as int] is None);
            assert(!misplaced(outputs@, i as int));
            assert forall|t: int| 0 <= t < n implies (match #[trigger] slots@[t] {
                Some(p) => p < i + 1 && outputs@[p as int].tile_ordinal == t,
                None => forall|j: int|
                    0 <= j < i + 1 ==> (#[trigger] outputs@[j]).tile_ordinal != t,
            }) by {
                if t != ordinal {
                    assert(slots@[t] == before[t]);
                }
            }
        }
        i = i + 1;
    }
    let mut positions: Vec<usize> = Vec::with_capacity(n);
    while positions.len() < n
        invariant
            n == outputs@.len(),
            slots@.len() == n,
            positions@.len() <= n,
            well_placed(outputs@),
            forall|t: int|
                0 <= t < n ==> (match #[trigger] slots@[t] {
                    Some(p) => p < n && outputs@[p as int].tile_ordinal == t,
                    None => forall|j: int|
                        0 <= j < n ==> (#[trigger] outputs@[j]).tile_ordinal != t,
                }),
            forall|t: int|
                0 <= t < positions@.len() ==> (#[trigger] positions@[t]) == position_of_tile(
                    outputs@,
                    t,
                ),
        decreases n - positions@.len(),
    {
        let t: usize = positions.len();
        proof {
            lemma_well_placed(outputs@, t as int);
        }
        match slots[t] {
            Some(p) => {
                positions.push(p);
            },
            None => {
                return Err(
                    OperationError::service_error("candidate-major exact tile output is missing"),
                );
            },
        }
    }
    Ok(positions)
}

/// Merge independently scored tiles. Tile outputs may arrive in any order.
pub fn merge_candidate_major_exact_tiles(
    plan: &CandidateMajorExactPlan,
    tile_outputs: Vec<CandidateMajorExactTileOutput>,
) -> (r: OperationResult<CandidateMajorExactOutput>)
    ensures
        merge_outcome(plan@, tile_outputs@, r),
{
    if tile_outputs.len() != plan.tiles.len() {
        return Err(
            OperationError::service_error(
                "candidate-major exact tile output count differs from plan",
            ),
        );
    }
    let slots = match place_outputs(&tile_outputs) {
        Ok(slots) => slots,
        Err(error) => {
            return Err(error);
        },
    };
    let query_count: usize = plan.queries.len();
    let limit: usize = max_usize(plan.top, 1);
    let mut queues = new_queues(query_count, limit);
    let mut vector_reads: usize = 0;
    let mut scored_pairs: usize = 0;
    let ghost ordered = in_tile_order(tile_outputs@);
    let mut t: usize = 0;
    proof {
        assert(ordered.take(0) =~= Seq::empty());
        assert forall|q: int| 0 <= q < query_count implies (#[trigger] queues@[q])@ == top_ranked(
            gathered_points(ordered.take(0), q),
            limit as nat,
        ) by {}
    }
    while t < slots.len()
        invariant
            t <= slots@.len() == tile_outputs@.len(),
            ordered == in_tile_order(tile_outputs@),
            well_placed(tile_outputs@),
            tile_outputs@.len() == plan@.tiles.len(),
            query_count == plan@.queries.len(),
            queues@.len() == query_count,
            forall|i: int|
                0 <= i < slots@.len() ==> (#[trigger] slots@[i]) == position_of_tile(
                    tile_outputs@,
                    i,
                ),
            outputs_fault(ordered.take(t as int), query_count as nat) is None,
            vector_reads == total_reads(ordered.take(t as int)),
            scored_pairs == total_pairs(ordered.take(t as int)),
            forall|q: int|
                0 <= q < query_count ==> {
                    &&& (#[trigger] queues@[q]).wf()
                    &&& queues@[q].length() == limit
                    &&& queues@[q]@ == top_ranked(
                        gathered_points(ordered.take(t as int), q),
                        limit as nat,
                    )
                },
        decreases slots@.len() - t,
    {
        proof {
            lemma_well_placed(tile_outputs@, t as int);
            assert(ordered.take(t + 1).drop_last() =~= ordered.take(t as int));
            assert(ordered.take(t + 1).last() == ordered[t as int]);
            assert(slots@[t as int] == position_of_tile(tile_outputs@, t as int));
            if outputs_fault(ordered.take(t + 1), query_count as nat) is Some {
                lemma_outputs_fault_prefix(ordered, t + 1, query_count as nat);
            }
        }
        let output = &tile_outputs[slots[t]];
        if output.results.len() != query_count {
            return Err(
                OperationError::service_error(
                    "candidate-major exact tile query result count differs from plan",
                ),
            );
        }
        vector_reads =
        match vector_reads.checked_add(output.vector_reads) {
            Some(sum) => sum,
            None => {
                return Err(OperationError::service_error("merged vector-read count overflow"));
            },
        };
        scored_pairs =
        match scored_pairs.checked_add(output.scored_pairs) {
            Some(sum) => sum,
            None => {
                return Err(OperationError::service_error("merged score-pair count overflow"));
            },
        };
        let mut q: usize = 0;
        while q < query_count
            invariant
                q <= query_count,
                queues@.len() == query_count,
                output.results@.len() == query_count,
                t < ordered.len(),
                *output == ordered[t as int],
                ordered.take(t + 1).drop_last() == ordered.take(t as int),
                ordered.take(t + 1).last() == ordered[t as int],
                ordered.take(t + 1).len() > 0,
                forall|p: int|
                    0 <= p < query_count ==> {
                        &&& (#[trigger] queues@[p]).wf()
                        &&& queues@[p].length() == limit
                        &&& queues@[p]@ == top_ranked(
                            gathered_points(
                                ordered.take(
                                    if p < q {
                                        t + 1
                                    } else {
                                        t as int
                                    },
                                ),
                                p,
                            ),
                            limit as nat,
                        )
                    },
            decreases query_count - q,
        {
            let ghost before = queues@;
            proof {
                let head = gathered_points(ordered.take(t as int), q as int);
                let added = output.results@[q as int]@;
                assert(list_views(output.results@)[q as int] == added);
                lemma_gather(head, added, limit as nat);
                assert(gathered_points(ordered.take(t + 1), q as int) == head + added);
            }
            push_all(&mut queues[q], &output.results[q]);
            proof {
                assert forall|p: int| 0 <= p < query_count implies {
                    &&& (#[trigger] queues@[p]).wf()
                    &&& queues@[p].length() == limit
                    &&& queues@[p]@ == top_ranked(
                        gathered_points(
                            ordered.take(
                                if p < q + 1 {
                                    t + 1
                                } else {
                                    t as int
                                },
                            ),
                            p,
                        ),
                        limit as nat,
                    )
                } by {
                    if p != q {
                        assert(queues@[p] == before[p]);
                    }
                }
            }
            q = q + 1;
        }
        t = t + 1;
    }
    proof {
        assert(ordered.take(t as int) =~= ordered);
    }
    if plan.top != 0 && (vector_reads != plan.candidates.len() || scored_pairs
        != plan.planned_score_pairs) {
        return Err(
            OperationError::service_error(
                "candidate-major exact tile outputs do not cover the complete plan",
            ),
        );
    }
    let results = if plan.top == 0 {
        empty_results(query_count)
    } else {
        drain_queues(queues)
    };
    proof {
        if plan.top == 0 {
            assert forall|q: int| 0 <= q < query_count implies #[trigger] list_views(results@)[q]
                == top_ranked(gathered_points(ordered, q), 0) by {
                assert(list_views(results@)[q] =~= top_ranked(gathered_points(ordered, q), 0));
            }
        }
    }
    Ok(
        CandidateMajorExactOutput {
            results,
            stats: CandidateMajorExactStats {
                input_candidates: plan.input_candidates,
                duplicate_candidates_merged: plan.duplicate_candidates_merged,
                vector_reads,
                scored_pairs,
                tiles: plan.tiles.len(),
                ordinal_ordered: plan.ordinal_ordered,
                ordinal_sort_applied: plan.ordinal_sort_applied,
            },
        },
    )
}

/// The best of some points extended by more points are the best of all of them.
proof fn lemma_gather(head: Seq<ScoredPointOffset>, added: Seq<ScoredPointOffset>, k: nat)
    ensures
        first_k(ranked_extend(top_ranked(head, k), added), k) == top_ranked(head + added, k),
{
    lemma_ranked(head);
    lemma_extend_concat(Seq::empty(), head, added);
    lemma_extend_first_k_base(ranked(head), added, k);
}

/// Ranking a ranking changes nothing.
proof fn lemma_top_ranked_twice(points: Seq<ScoredPointOffset>, k: nat)
    ensures
        top_ranked(top_ranked(points, k), k) == top_ranked(points, k),
{
    lemma_ranked(points);
    lemma_ranked_of_descending(top_ranked(points, k));
}

/// Groups whose bests are known can be extended by the best of another group.
proof fn lemma_extend_group(
    gathered: Seq<ScoredPointOffset>,
    points: Seq<ScoredPointOffset>,
    added: Seq<ScoredPointOffset>,
    k: nat,
)
    requires
        top_ranked(gathered, k) == top_ranked(points, k),
    ensures
        top_ranked(gathered + top_ranked(added, k), k) == top_ranked(points + added, k),
{
    lemma_top_ranked_concat(gathered, top_ranked(added, k), k);
    lemma_top_ranked_twice(added, k);
    lemma_top_ranked_concat(points, added, k);
}

/// The table with the scores of one range taken from another table.
spec fn overlay(table: ScoreTable, scores: ScoreTable, start: int, end: int) -> ScoreTable {
    Map::new(
        |key: (int, int)| true,
        |key: (int, int)|
            if start <= key.1 < end {
                scores[key]
            } else {
                table[key]
            },
    )
}

/// A candidate is scored by every table that agrees on its position.
proof fn lemma_candidate_scored<
    R: Fn(PointOffsetType) -> Vec<VectorElementType>,
    M: Fn(&Vec<VectorElementType>, &Vec<VectorElementType>) -> ScoreType,
>(
    read_vector: &R,
    similarity: &M,
    queries: Seq<Seq<VectorElementType>>,
    candidate: FactorizedExactCandidate,
    position: int,
    a: ScoreTable,
    b: ScoreTable,
)
    requires
        candidate_scored(read_vector, similarity, queries, candidate, position, a),
        forall|q: int| #[trigger] a[(q, position)] == b[(q, position)],
    ensures
        candidate_scored(read_vector, similarity, queries, candidate, position, b),
{
    let vector = choose|vector: Seq<VectorElementType>| #[trigger]
        reads_as(read_vector, candidate.point_id, vector) && forall|q: int|
            0 <= q < queries.len() && #[trigger] bit64(candidate.query_mask, q) ==> similar_as(
                similarity,
                queries[q],
                vector,
                a[(q, position)],
            );
    assert forall|q: int|
        0 <= q < queries.len() && #[trigger] bit64(candidate.query_mask, q) implies similar_as(
        similarity,
        queries[q],
        vector,
        b[(q, position)],
    ) by {
        assert(a[(q, position)] == b[(q, position)]);
    }
}

/// The outputs of the first tiles, in tile order, with the scores of all of them in one table.
spec fn tiles_scored<
    R: Fn(PointOffsetType) -> Vec<VectorElementType>,
    M: Fn(&Vec<VectorElementType>, &Vec<VectorElementType>) -> ScoreType,
>(
    plan: PlanView,
    read_vector: &R,
    similarity: &M,
    table: ScoreTable,
    outputs: Seq<CandidateMajorExactTileOutput>,
    covered: int,
) -> bool {
    &&& 0 <= covered <= plan.candidates.len()
    &&& covered == (if outputs.len() == 0 {
        0int
    } else {
        plan.tiles[outputs.len() - 1].end as int
    })
    &&& range_scored(
        read_vector,
        similarity,
        plan.queries,
        plan.candidates,
        0,
        covered,
        table,
    )
    &&& forall|t: int|
        0 <= t < outputs.len() ==> (#[trigger] outputs[t]).tile_ordinal == t
            && outputs[t].results@.len() == plan.queries.len()
    &&& total_reads(outputs) == covered
    &&& total_pairs(outputs) == pairs_in(plan.candidates, 0, covered)
    &&& forall|q: int|
        0 <= q < plan.queries.len() ==> top_ranked(
            #[trigger] gathered_points(outputs, q),
            plan.top,
        ) == top_ranked(query_points(plan.candidates, q, table, 0, covered), plan.top)
}

/// A table overlaid with the scores of the next range scores everything up to its end.
proof fn lemma_overlay_scored<
    R: Fn(PointOffsetType) -> Vec<VectorElementType>,
    M: Fn(&Vec<VectorElementType>, &Vec<VectorElementType>) -> ScoreType,
>(
    read_vector: &R,
    similarity: &M,
    queries: Seq<Seq<VectorElementType>>,
    candidates: Seq<FactorizedExactCandidate>,
    start: int,
    end: int,
    table: ScoreTable,
    scores: ScoreTable,
)
    requires
        0 <= start <= end,
        range_scored(read_vector, similarity, queries, candidates, 0, start, table),
        range_scored(read_vector, similarity, queries, candidates, start, end, scores),
    ensures
        range_scored(
            read_vector,
            similarity,
            queries,
            candidates,
            0,
            end,
            overlay(table, scores, start, end),
        ),
{
    let next = overlay(table, scores, start, end);
    assert forall|i: int| 0 <= i < end implies candidate_scored(
        read_vector,
        similarity,
        queries,
        #[trigger] candidates[i],
        i,
        next,
    ) by {
        if i < start {
            lemma_candidate_scored(
                read_vector,
                similarity,
                queries,
                candidates[i],
                i,
                table,
                next,
            );
        } else {
            lemma_candidate_scored(
                read_vector,
                similarity,
                queries,
                candidates[i],
                i,
                scores,
                next,
            );
        }
    }
}

/// The best points of a query after one more range.
proof fn lemma_overlay_points(
    candidates: Seq<FactorizedExactCandidate>,
    query: int,
    start: int,
    end: int,
    table: ScoreTable,
    scores: ScoreTable,
    gathered: Seq<ScoredPointOffset>,
    k: nat,
)
    requires
        0 <= start <= end,
        top_ranked(gathered, k) == top_ranked(query_points(candidates, query, table, 0, start), k),
    ensures
        top_ranked(
            gathered + top_ranked(query_points(candidates, query, scores, start, end), k),
            k,
        ) == top_ranked(
            query_points(candidates, query, overlay(table, scores, start, end), 0, end),
            k,
        ),
{
    let next = overlay(table, scores, start, end);
    let points = query_points(candidates, query, table, 0, start);
    let added = query_points(candidates, query, scores, start, end);
    lemma_query_points_scores(candidates, query, table, next, 0, start);
    lemma_query_points_scores(candidates, query, scores, next, start, end);
    lemma_query_points_concat(candidates, query, next, 0, start, end);
    lemma_extend_group(gathered, points, added, k);
}

/// One more scored tile.
proof fn lemma_add_tile<
    R: Fn(PointOffsetType) -> Vec<VectorElementType>,
    M: Fn(&Vec<VectorElementType>, &Vec<VectorElementType>) -> ScoreType,
>(
    plan: PlanView,
    read_vector: &R,
    similarity: &M,
    table: ScoreTable,
    outputs: Seq<CandidateMajorExactTileOutput>,
    covered: int,
    scores: ScoreTable,
    output: CandidateMajorExactTileOutput,
) -> (next: ScoreTable)
    requires
        plan.wf(),
        plan.top != 0,
        outputs.len() < plan.tiles.len(),
        tiles_scored(plan, read_vector, similarity, table, outputs, covered),
        tile_scored(plan, outputs.len() as int, read_vector, similarity, scores, output),
    ensures
        tiles_scored(
            plan,
            read_vector,
            similarity,
            next,
            outputs.push(output),
            plan.tiles[outputs.len() as int].end as int,
        ),
{
    let t = outputs.len() as int;
    let start = plan.tiles[t].start as int;
    let end = plan.tiles[t].end as int;
    assert(start == covered);
    let next = overlay(table, scores, start, end);
    let all = outputs.push(output);
    assert(all.drop_last() =~= outputs);
    lemma_overlay_scored(
        read_vector,
        similarity,
        plan.queries,
        plan.candidates,
        start,
        end,
        table,
        scores,
    );
    let lists = list_views(output.results@);
    assert(output.results@.len() == lists.len());
    assert forall|i: int| 0 <= i < all.len() implies (#[trigger] all[i]).tile_ordinal == i
        && all[i].results@.len() == plan.queries.len() by {
        if i < t {
            assert(all[i] == outputs[i]);
        }
    }
    lemma_pairs_in(plan.candidates, 0, start, end);
    assert forall|q: int| 0 <= q < plan.queries.len() implies top_ranked(
        #[trigger] gathered_points(all, q),
        plan.top,
    ) == top_ranked(query_points(plan.candidates, q, next, 0, end), plan.top) by {
        let gathered = gathered_points(outputs, q);
        lemma_overlay_points(
            plan.candidates,
            q,
            start,
            end,
            table,
            scores,
            gathered,
            plan.top,
        );
        assert(lists[q] == top_ranked(
            query_points(plan.candidates, q, scores, start, end),
            plan.top,
        ));
        assert(gathered_points(all, q) == gathered + lists[q]);
    }
    next
}

/// Outputs that are in tile order already stay as they are and have no fault while their counts
/// fit.
proof fn lemma_already_in_order(
    outputs: Seq<CandidateMajorExactTileOutput>,
    query_count: nat,
)
    requires
        outputs.len() <= usize::MAX,
        forall|t: int|
            0 <= t < outputs.len() ==> (#[trigger] outputs[t]).tile_ordinal == t
                && outputs[t].results@.len() == query_count,
        total_reads(outputs) <= usize::MAX,
        total_pairs(outputs) <= usize::MAX,
    ensures
        well_placed(outputs),
        in_tile_order(outputs) == outputs,
        outputs_fault(outputs, query_count) is None,
{
    assert forall|i: int| 0 <= i < outputs.len() implies !#[trigger] misplaced(outputs, i) by {
        assert(outputs[i].tile_ordinal == i);
    }
    assert forall|t: int| 0 <= t < outputs.len() implies in_tile_order(outputs)[t]
        == outputs[t] by {
        lemma_well_placed(outputs, t);
        assert(outputs[t].tile_ordinal == t);
    }
    assert(in_tile_order(outputs) =~= outputs);
    lemma_no_outputs_fault(outputs, query_count);
}

proof fn lemma_no_outputs_fault(outputs: Seq<CandidateMajorExactTileOutput>, query_count: nat)
    requires
        forall|t: int|
            0 <= t < outputs.len() ==> (#[trigger] outputs[t]).results@.len() == query_count,
        total_reads(outputs) <= usize::MAX,
        total_pairs(outputs) <= usize::MAX,
    ensures
        outputs_fault(outputs, query_count) is None,
    decreases outputs.len(),
{
    if outputs.len() > 0 {
        assert(outputs[outputs.len() - 1].results@.len() == query_count);
        assert forall|t: int| 0 <= t < outputs.drop_last().len() implies (
        #[trigger] outputs.drop_last()[t]).results@.len() == query_count by {
            assert(outputs[t].results@.len() == query_count);
        }
        lemma_no_outputs_fault(outputs.drop_last(), query_count);
    }
}

/// The output of a search: every query gets the best of its own candidates, whatever the tiles.
pub open spec fn searched<
    R: Fn(PointOffsetType) -> Vec<VectorElementType>,
    M: Fn(&Vec<VectorElementType>, &Vec<VectorElementType>) -> ScoreType,
>(
    plan: PlanView,
    read_vector: &R,
    similarity: &M,
    scores: ScoreTable,
    output: CandidateMajorExactOutput,
) -> bool {
    &&& plan.top != 0 ==> range_scored(
        read_vector,
        similarity,
        plan.queries,
        plan.candidates,
        0,
        plan.candidates.len() as int,
        scores,
    )
    &&& list_views(output.results@) == best_points(
        plan.candidates,
        plan.queries.len(),
        scores,
        0,
        plan.candidates.len() as int,
        plan.top,
    )
    &&& output.stats.input_candidates == plan.input_candidates
    &&& output.stats.duplicate_candidates_merged == plan.duplicate_candidates_merged
    &&& output.stats.vector_reads == (if plan.top == 0 {
        0
    } else {
        plan.candidates.len()
    })
    &&& output.stats.scored_pairs == (if plan.top == 0 {
        0
    } else {
        plan.planned_score_pairs
    })
    &&& output.stats.tiles == plan.tiles.len()
    &&& output.stats.ordinal_ordered == plan.ordinal_ordered
    &&& output.stats.ordinal_sort_applied == plan.ordinal_sort_applied
}

/// What a search gives for a faultless batch that is not cancelled.
pub open spec fn search_outcome<
    P: Fn(&Vec<VectorElementType>) -> Vec<VectorElementType>,
    R: Fn(PointOffsetType) -> Vec<VectorElementType>,
    M: Fn(&Vec<VectorElementType>, &Vec<VectorElementType>) -> ScoreType,
>(
    storage: VectorStorage,
    queries: Seq<&QueryVector>,
    candidates: Seq<FactorizedExactCandidate>,
    point_deleted: Seq<bool>,
    top: nat,
    config: CandidateMajorExactConfig,
    preprocess: &P,
    read_vector: &R,
    similarity: &M,
    r: OperationResult<CandidateMajorExactOutput>,
) -> bool {
    if has_stray_query(candidates, queries.len() as int) {
        failed(r, "candidate query mask contains an out-of-range query bit"@)
    } else if score_pairs(consolidated(candidates, scorable(storage, point_deleted)))
        > usize::MAX {
        failed(r, "candidate score-pair count overflow"@)
    } else {
        &&& r matches Ok(output)
        &&& exists|plan: PlanView, scores: ScoreTable|
            {
                &&& preprocessed(preprocess, queries, plan.queries)
                &&& built(plan, storage, candidates, point_deleted, top, config)
                &&& #[trigger] searched(plan, read_vector, similarity, scores, output)
            }
    }
}

/// How many candidates the first tiles cover.
spec fn covered_by(plan: PlanView, tile_count: int) -> int {
    if tile_count == 0 {
        0
    } else {
        plan.tiles[tile_count - 1].end as int
    }
}

/// The counter after the first tiles were scored.
pub open spec fn tiles_counted(
    before: HardwareCounterCell,
    storage: VectorStorage,
    plan: PlanView,
    tile_count: int,
) -> HardwareCounterCell {
    if tile_count == 0 {
        before
    } else {
        let covered = plan.tiles[tile_count - 1].end;
        counted(before, storage, pairs_in(plan.candidates, 0, covered as int), covered as nat)
    }
}

/// The search ended with an error after some tiles were scored, if it came that far.
pub open spec fn ended_early(
    before: HardwareCounterCell,
    after: HardwareCounterCell,
    storage: VectorStorage,
    candidates: Seq<FactorizedExactCandidate>,
    point_deleted: Seq<bool>,
    top: nat,
    config: CandidateMajorExactConfig,
) -> bool {
    after == before || exists|plan: PlanView, n: int|
        {
            &&& built(plan, storage, candidates, point_deleted, top, config)
            &&& 0 <= n < plan.tiles.len()
            &&& after == #[trigger] tiles_counted(before, storage, plan, n)
        }
}

/// Score every tile in order.
fn score_all_tiles<
    R: Fn(PointOffsetType) -> Vec<VectorElementType>,
    M: Fn(&Vec<VectorElementType>, &Vec<VectorElementType>) -> ScoreType,
    S: Fn() -> bool,
>(
    plan: &CandidateMajorExactPlan,
    storage: &VectorStorage,
    read_vector: &R,
    similarity: &M,
    hardware_counter: &mut HardwareCounterCell,
    is_stopped: &S,
) -> (r: OperationResult<Vec<CandidateMajorExactTileOutput>>)
    requires
        plan.wf(),
        storage.wf(),
        storage_fault(*storage) is None,
        plan@.vector_dim == storage.vector_dim,
        forall|p: PointOffsetType| #[trigger] read_vector.requires((p,)),
        forall|a: &Vec<VectorElementType>, b: &Vec<VectorElementType>| #[trigger]
            similarity.requires((a, b)),
        can_poll(is_stopped),
    ensures
        cancelled(r) || r is Ok,
        cancelled(r) ==> may_stop(is_stopped) && plan@.tiles.len() > 0,
        r matches Ok(outputs) ==> {
            &&& outputs@.len() == plan@.tiles.len()
            &&& exists|table: ScoreTable|
                tiles_scored(
                    plan@,
                    read_vector,
                    similarity,
                    table,
                    outputs@,
                    covered_by(plan@, outputs@.len() as int),
                )
            &&& *final(hardware_counter) == (if outputs@.len() == 0 {
                *old(hardware_counter)
            } else {
                counted(
                    *old(hardware_counter),
                    *storage,
                    total_pairs(outputs@),
                    total_reads(outputs@),
                )
            })
        },
        r is Err ==> exists|n: int|
            0 <= n < plan@.tiles.len() && *final(hardware_counter) == #[trigger] tiles_counted(
                *old(hardware_counter),
                *storage,
                plan@,
                n,
            ),
{
    let ghost view = plan@;
    let tile_count: usize = plan.tile_count();
    let mut outputs: Vec<CandidateMajorExactTileOutput> = Vec::with_capacity(tile_count);
    let ghost mut table: ScoreTable = Map::empty();
    proof {
        assert(view.candidates.subrange(0, 0) =~= Seq::empty());
        assert(tiles_scored(view, read_vector, similarity, table, outputs@, 0));
    }
    while outputs.len() < tile_count
        invariant
            view == plan@,
            plan.wf(),
            storage.wf(),
            tile_count == view.tiles.len(),
            outputs@.len() <= tile_count,
            storage_fault(*storage) is None,
            view.vector_dim == storage.vector_dim,
            forall|p: PointOffsetType| #[trigger] read_vector.requires((p,)),
            forall|a: &Vec<VectorElementType>, b: &Vec<VectorElementType>| #[trigger]
                similarity.requires((a, b)),
            can_poll(is_stopped),
            tiles_scored(
                view,
                read_vector,
                similarity,
                table,
                outputs@,
                covered_by(view, outputs@.len() as int),
            ),
            *hardware_counter == (if outputs@.len() == 0 {
                *old(hardware_counter)
            } else {
                counted(
                    *old(hardware_counter),
                    *storage,
                    total_pairs(outputs@),
                    total_reads(outputs@),
                )
            }),
        decreases tile_count - outputs@.len(),
    {
        let ordinal: usize = outputs.len();
        let ghost before = outputs@;
        match score_candidate_major_exact_tile(
            plan,
            ordinal,
            storage,
            read_vector,
            similarity,
            hardware_counter,
            is_stopped,
        ) {
            Ok(output) => {
                proof {
                    let scores = choose|scores: ScoreTable|
                        tile_scored(
                            view,
                            ordinal as int,
                            read_vector,
                            similarity,
                            scores,
                            output,
                        );
                    table = lemma_add_tile(
                        view,
                        read_vector,
                        similarity,
                        table,
                        before,
                        covered_by(view, ordinal as int),
                        scores,
                        output,
                    );
                    assert(before.push(output).drop_last() =~= before);
                    assert(before.len() == 0 ==> total_reads(before) == 0 && total_pairs(before)
                        == 0);
                }
                outputs.push(output);
            },
            Err(error) => {
                proof {
                    assert(*hardware_counter == tiles_counted(
                        *old(hardware_counter),
                        *storage,
                        view,
                        ordinal as int,
                    ));
                }
                return Err(error);
            },
        }
    }
    Ok(outputs)
}

/// Merging all tiles gives every query the best of its own candidates.
proof fn lemma_merged_tiles<
    R: Fn(PointOffsetType) -> Vec<VectorElementType>,
    M: Fn(&Vec<VectorElementType>, &Vec<VectorElementType>) -> ScoreType,
>(
    plan: PlanView,
    read_vector: &R,
    similarity: &M,
    table: ScoreTable,
    outputs: Seq<CandidateMajorExactTileOutput>,
    r: OperationResult<CandidateMajorExactOutput>,
)
    requires
        plan.wf(),
        outputs.len() == plan.tiles.len(),
        outputs.len() <= usize::MAX,
        tiles_scored(
            plan,
            read_vector,
            similarity,
            table,
            outputs,
            covered_by(plan, outputs.len() as int),
        ),
        merge_outcome(plan, outputs, r),
    ensures
        r is Ok,
        searched(plan, read_vector, similarity, table, r->Ok_0),
        (r->Ok_0).stats.scored_pairs == total_pairs(outputs),
        (r->Ok_0).stats.vector_reads == total_reads(outputs),
{
    let n = plan.candidates.len() as int;
    let covered = covered_by(plan, outputs.len() as int);
    assert(plan.top != 0 ==> covered == n);
    assert(plan.candidates.subrange(0, n) =~= plan.candidates);
    assert(plan.candidates.subrange(0, 0) =~= Seq::empty());
    lemma_pairs_in(plan.candidates, 0, covered, n);
    lemma_already_in_order(outputs, plan.queries.len());
    assert(r is Ok);
    let output = r->Ok_0;
    let best = best_points(plan.candidates, plan.queries.len(), table, 0, n, plan.top);
    assert(list_views(output.results@) =~= best) by {
        assert forall|q: int| 0 <= q < plan.queries.len() implies list_views(output.results@)[q]
            == best[q] by {
            assert(list_views(output.results@)[q] == top_ranked(
                gathered_points(outputs, q),
                plan.top,
            ));
            if plan.top == 0 {
                assert(list_views(output.results@)[q] =~= best[q]);
            }
        }
    }
}

/// Monolithic convenience wrapper. Collection scheduling can instead build a plan, score tiles on
/// separate workers, and merge them.
pub fn search_candidate_major_exact_cosine<
    P: Fn(&Vec<VectorElementType>) -> Vec<VectorElementType>,
    R: Fn(PointOffsetType) -> Vec<VectorElementType>,
    M: Fn(&Vec<VectorElementType>, &Vec<VectorElementType>) -> ScoreType,
    S: Fn() -> bool,
>(
    storage: &VectorStorage,
    queries: &[&QueryVector],
    factorized_plan: &FactorizedFilterPlan,
    candidates: Vec<FactorizedExactCandidate>,
    point_deleted: &[bool],
    top: usize,
    config: CandidateMajorExactConfig,
    preprocess: &P,
    read_vector: &R,
    similarity: &M,
    hardware_counter: &mut HardwareCounterCell,
    is_stopped: &S,
) -> (r: OperationResult<CandidateMajorExactOutput>)
    requires
        storage.wf(),
        forall|vector: &Vec<VectorElementType>| #[trigger] preprocess.requires((vector,)),
        forall|p: PointOffsetType| #[trigger] read_vector.requires((p,)),
        forall|a: &Vec<VectorElementType>, b: &Vec<VectorElementType>| #[trigger]
            similarity.requires((a, b)),
        can_poll(is_stopped),
    ensures
        match plan_fault(*storage, queries@, factorized_plan.spec_query_count(), config) {
            Some(text) => failed(r, text),
            None => {
                &&& cancelled(r) ==> may_stop(is_stopped) && candidates@.len() > 0
                &&& always_stopped(is_stopped) && candidates@.len() > 0 ==> cancelled(r)
                &&& cancelled(r) || search_outcome(
                    *storage,
                    queries@,
                    candidates@,
                    point_deleted@,
                    top as nat,
                    config,
                    preprocess,
                    read_vector,
                    similarity,
                    r,
                )
            },
        },
        r matches Ok(output) ==> *final(hardware_counter) == (if output.stats.tiles == 0 {
            *old(hardware_counter)
        } else {
            counted(
                *old(hardware_counter),
                *storage,
                output.stats.scored_pairs as nat,
                output.stats.vector_reads as nat,
            )
        }),
        r is Err ==> ended_early(
            *old(hardware_counter),
            *final(hardware_counter),
            *storage,
            candidates@,
            point_deleted@,
            top as nat,
            config,
        ),
{
    let ghost given = candidates@;
    let plan = match build_candidate_major_exact_plan(
        storage,
        queries,
        factorized_plan,
        candidates,
        point_deleted,
        top,
        config,
        preprocess,
        is_stopped,
    ) {
        Ok(plan) => plan,
        Err(error) => {
            return Err(error);
        },
    };
    let ghost view = plan@;
    proof {
        if given.len() == 0 {
            assert(consolidated(given, scorable(*storage, point_deleted@)) =~= Seq::empty());
            lemma_reordered(
                consolidated(given, scorable(*storage, point_deleted@)),
                view.candidates,
            );
        }
    }
    let outputs = match score_all_tiles(
        &plan,
        storage,
        read_vector,
        similarity,
        hardware_counter,
        is_stopped,
    ) {
        Ok(outputs) => outputs,
        Err(error) => {
            return Err(error);
        },
    };
    let ghost scored = outputs@;
    let r = merge_candidate_major_exact_tiles(&plan, outputs);
    proof {
        let table = choose|table: ScoreTable|
            tiles_scored(
                view,
                read_vector,
                similarity,
                table,
                scored,
                covered_by(view, scored.len() as int),
            );
        lemma_merged_tiles(view, read_vector, similarity, table, scored, r);
        assert(searched(view, read_vector, similarity, table, r->Ok_0));
    }
    r
}

/// A scan of a mask array lists every point with a non-empty mask once, in ordinal order.
pub proof fn lemma_scan_candidates(masks: Seq<u64>, n: nat)
    requires
        n <= masks.len(),
        n <= PointOffsetType::MAX + 1,
    ensures
        ordinal_order(scan_candidates(masks, n)),
        distinct_points(scan_candidates(masks, n)),
        forall|i: int|
            0 <= i < scan_candidates(masks, n).len() ==> {
                &&& (#[trigger] scan_candidates(masks, n)[i]).point_id < n
                &&& scan_candidates(masks, n)[i].query_mask
                    == masks[scan_candidates(masks, n)[i].point_id as int]
                &&& scan_candidates(masks, n)[i].query_mask != 0
            },
        forall|p: PointOffsetType|
            p < n && masks[p as int] != 0 ==> #[trigger] has_point(scan_candidates(masks, n), p),
    decreases n,
{
    if n > 0 {
        let m = (n - 1) as nat;
        lemma_scan_candidates(masks, m);
        let shorter = scan_candidates(masks, m);
        let list = scan_candidates(masks, n);
        assert forall|p: PointOffsetType| p < n && masks[p as int] != 0 implies
            #[trigger] has_point(list, p) by {
            if p < m {
                assert(has_point(shorter, p));
                let i = choose|i: int|
                    0 <= i < shorter.len() && (#[trigger] shorter[i]).point_id == p;
                assert(list[i].point_id == p);
            } else {
                assert(list[shorter.len() as int].point_id == p);
            }
        }
    }
}

/// Following the touched points lists those with a non-empty mask.
pub proof fn lemma_touched_candidates(masks: Seq<u64>, touched: Seq<PointOffsetType>)
    ensures
        forall|i: int|
            0 <= i < touched_candidates(masks, touched).len() ==> {
                &&& touched.contains((#[trigger] touched_candidates(masks, touched)[i]).point_id)
                &&& touched_candidates(masks, touched)[i].query_mask
                    == masks[touched_candidates(masks, touched)[i].point_id as int]
                &&& touched_candidates(masks, touched)[i].query_mask != 0
            },
        forall|p: PointOffsetType|
            touched.contains(p) && masks[p as int] != 0 ==> #[trigger] has_point(
                touched_candidates(masks, touched),
                p,
            ),
    decreases touched.len(),
{
    if touched.len() > 0 {
        let rest = touched.drop_last();
        lemma_touched_candidates(masks, rest);
        let shorter = touched_candidates(masks, rest);
        let list = touched_candidates(masks, touched);
        assert forall|i: int| 0 <= i < list.len() implies {
            &&& touched.contains((#[trigger] list[i]).point_id)
            &&& list[i].query_mask == masks[list[i].point_id as int]
            &&& list[i].query_mask != 0
        } by {
            if i < shorter.len() {
                assert(list[i] == shorter[i]);
                assert(rest.contains(shorter[i].point_id));
                let k = choose|k: int| 0 <= k < rest.len() && rest[k] == shorter[i].point_id;
                assert(touched[k] == shorter[i].point_id);
            } else {
                assert(touched[touched.len() - 1] == list[i].point_id);
            }
        }
        assert forall|p: PointOffsetType| touched.contains(p) && masks[p as int] != 0 implies
            #[trigger] has_point(list, p) by {
            let k = choose|k: int| 0 <= k < touched.len() && touched[k] == p;
            if k < rest.len() {
                assert(rest[k] == p);
                assert(has_point(shorter, p));
                let i = choose|i: int|
                    0 <= i < shorter.len() && (#[trigger] shorter[i]).point_id == p;
                assert(list[i].point_id == p);
            } else {
                assert(list[shorter.len() as int].point_id == p);
            }
        }
    }
}

} // verus!
