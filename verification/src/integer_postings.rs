//! Postings of integer payload values for a batch of queries.

use vstd::prelude::*;

use crate::bits::{bit64, lemma_or64, lemma_zero64};
use crate::filter::IntPayloadType;
use crate::types::PointOffsetType;

verus! {

/// One integer value and the queries that ask for it.
#[derive(Clone, Copy, Debug, PartialEq, Eq, Structural)]
pub struct IntegerPostingAtom {
    pub value: IntPayloadType,
    pub query_mask: u64,
}

impl IntegerPostingAtom {
    /// A value for the queries of a mask.
    pub fn new(value: IntPayloadType, query_mask: u64) -> (atom: Self)
        ensures
            atom == (IntegerPostingAtom { value, query_mask }),
    {
        IntegerPostingAtom { value, query_mask }
    }
}

/// The points that hold one value, and the queries that ask for it.
#[derive(Debug)]
pub struct IntegerPosting {
    pub query_mask: u64,
    pub point_ids: Vec<PointOffsetType>,
}

/// The postings of all asked values.
#[derive(Debug)]
pub struct IntegerPostingBatch {
    pub postings: Vec<IntegerPosting>,
    /// No point holds more than one value.
    pub single_valued: bool,
}

/// Every point of one posting with the mask of the posting.
pub open spec fn posting_pairs(posting: IntegerPosting, n: int) -> Seq<(PointOffsetType, u64)> {
    Seq::new(n as nat, |k: int| (posting.point_ids@[k], posting.query_mask))
}

/// Every point of every posting with the mask of its posting, in order.
pub open spec fn all_pairs(postings: Seq<IntegerPosting>) -> Seq<(PointOffsetType, u64)>
    decreases postings.len(),
{
    if postings.len() == 0 {
        Seq::empty()
    } else {
        all_pairs(postings.drop_last()) + posting_pairs(
            postings.last(),
            postings.last().point_ids@.len() as int,
        )
    }
}

/// A prefix has no more pairs than the whole.
pub proof fn lemma_all_pairs_prefix(postings: Seq<IntegerPosting>, n: int)
    requires
        0 <= n <= postings.len(),
    ensures
        all_pairs(postings.take(n)).len() <= all_pairs(postings).len(),
    decreases postings.len() - n,
{
    if n < postings.len() {
        assert(postings.take(n + 1).drop_last() =~= postings.take(n));
        lemma_all_pairs_prefix(postings, n + 1);
    } else {
        assert(postings.take(n) =~= postings);
    }
}

/// The united masks of a point.
pub open spec fn posting_mask(pairs: Seq<(PointOffsetType, u64)>, point_id: int) -> u64
    decreases pairs.len(),
{
    if pairs.len() == 0 {
        0
    } else {
        let previous = posting_mask(pairs.drop_last(), point_id);
        if pairs.last().0 == point_id {
            previous | pairs.last().1
        } else {
            previous
        }
    }
}

/// The united masks select a query exactly when some pair of the point does.
pub proof fn lemma_posting_mask(
    pairs: Seq<(PointOffsetType, u64)>,
    point_id: int,
    query: int,
)
    ensures
        bit64(posting_mask(pairs, point_id), query) <==> (exists|k: int|
            0 <= k < pairs.len() && (#[trigger] pairs[k]).0 == point_id && bit64(
                pairs[k].1,
                query,
            )),
    decreases pairs.len(),
{
    lemma_zero64();
    if pairs.len() > 0 {
        let rest = pairs.drop_last();
        lemma_posting_mask(rest, point_id, query);
        lemma_or64(posting_mask(rest, point_id), pairs.last().1);
        if exists|k: int|
            0 <= k < rest.len() && (#[trigger] rest[k]).0 == point_id && bit64(rest[k].1, query) {
            let k = choose|k: int|
                0 <= k < rest.len() && (#[trigger] rest[k]).0 == point_id && bit64(
                    rest[k].1,
                    query,
                );
            assert(pairs[k] == rest[k]);
        }
        if exists|k: int|
            0 <= k < pairs.len() && (#[trigger] pairs[k]).0 == point_id && bit64(
                pairs[k].1,
                query,
            ) {
            let k = choose|k: int|
                0 <= k < pairs.len() && (#[trigger] pairs[k]).0 == point_id && bit64(
                    pairs[k].1,
                    query,
                );
            if k < rest.len() {
                assert(rest[k] == pairs[k]);
            }
        }
        assert(pairs[pairs.len() - 1] == pairs.last());
    }
}

/// The first `cap` points that were met with no mask so far, in order.
pub open spec fn touched_points(
    pairs: Seq<(PointOffsetType, u64)>,
    cap: nat,
) -> Seq<PointOffsetType>
    decreases pairs.len(),
{
    if pairs.len() == 0 {
        Seq::empty()
    } else {
        let rest = pairs.drop_last();
        let previous = touched_points(rest, cap);
        if posting_mask(rest, pairs.last().0 as int) == 0 && previous.len() < cap {
            previous.push(pairs.last().0)
        } else {
            previous
        }
    }
}

/// While fewer than `cap` points were touched, every point with a mask was.
pub proof fn lemma_touched_points(
    pairs: Seq<(PointOffsetType, u64)>,
    cap: nat,
    point_id: PointOffsetType,
)
    requires
        touched_points(pairs, cap).len() < cap,
        posting_mask(pairs, point_id as int) != 0,
    ensures
        touched_points(pairs, cap).contains(point_id),
    decreases pairs.len(),
{
    if pairs.len() > 0 {
        let rest = pairs.drop_last();
        let previous = touched_points(rest, cap);
        let now = touched_points(pairs, cap);
        if posting_mask(rest, point_id as int) != 0 {
            lemma_touched_points(rest, cap, point_id);
            let i = choose|i: int| 0 <= i < previous.len() && previous[i] == point_id;
            assert(now[i] == point_id);
        } else {
            assert(pairs.last().0 == point_id);
            assert(now[previous.len() as int] == point_id);
        }
    }
}

/// Every touched point is a point of some pair.
pub proof fn lemma_touched_points_range(
    pairs: Seq<(PointOffsetType, u64)>,
    cap: nat,
    bound: int,
)
    requires
        forall|k: int| 0 <= k < pairs.len() ==> (#[trigger] pairs[k]).0 < bound,
    ensures
        forall|i: int|
            0 <= i < touched_points(pairs, cap).len() ==> #[trigger] touched_points(pairs, cap)[i]
                < bound,
        touched_points(pairs, cap).len() <= cap,
    decreases pairs.len(),
{
    if pairs.len() > 0 {
        let rest = pairs.drop_last();
        assert forall|k: int| 0 <= k < rest.len() implies (#[trigger] rest[k]).0 < bound by {
            assert(pairs[k] == rest[k]);
        }
        lemma_touched_points_range(rest, cap, bound);
        assert(pairs[pairs.len() - 1].0 < bound);
    }
}

} // verus!
