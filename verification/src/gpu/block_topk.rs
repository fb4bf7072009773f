//! Best points of candidates that were scored in tiles.

use vstd::prelude::*;

use crate::arith::{ceil_div, lemma_ceil_div, min_int};
use crate::top_k::{
    descending, first_k, lemma_ranked, lemma_ranked_of_descending, lemma_top_ranked_concat,
    lemma_top_ranked_push, ranked, top_ranked, FixedLengthPriorityQueue,
};
use crate::types::{PointOffsetType, ScoredPointOffset};

verus! {

/// A tile gives this many points.
pub const BLOCK_TOPK_LIMIT: usize = 16;

/// Number of candidates of a tile.
pub const BLOCK_TOPK_TILE_CANDIDATES: usize = 128;

/// Ordinal of a place without a point.
pub const NO_POINT: PointOffsetType = 4294967295;

/// The places that hold a point.
pub open spec fn present(points: Seq<ScoredPointOffset>) -> Seq<ScoredPointOffset>
    decreases points.len(),
{
    if points.len() == 0 {
        Seq::empty()
    } else if points.last().idx != NO_POINT {
        present(points.drop_last()).push(points.last())
    } else {
        present(points.drop_last())
    }
}

/// The best points of a range of places.
pub fn collect_top(points: &Vec<ScoredPointOffset>, from: usize, to: usize, top: usize) -> (r: Vec<
    ScoredPointOffset,
>)
    requires
        from <= to <= points@.len(),
    ensures
        r@ == top_ranked(present(points@.subrange(from as int, to as int)), top as nat),
{
    let ghost list = points@.subrange(from as int, to as int);
    let mut queue = FixedLengthPriorityQueue::new(top);
    let mut i: usize = from;
    proof {
        assert(top_ranked(present(list.take(0)), top as nat) =~= Seq::empty());
    }
    while i < to
        invariant
            from <= i <= to <= points@.len(),
            list == points@.subrange(from as int, to as int),
            queue.wf(),
            queue.length() == top,
            queue@ == top_ranked(present(list.take(i - from)), top as nat),
        decreases to - i,
    {
        let point = points[i];
        proof {
            assert(list.take(i + 1 - from).drop_last() =~= list.take(i - from));
            assert(list.take(i + 1 - from).last() == point);
            lemma_top_ranked_push(present(list.take(i - from)), point, top as nat);
        }
        if point.idx != NO_POINT {
            queue.push(point);
        }
        i = i + 1;
    }
    proof {
        assert(list.take(to - from) =~= list);
    }
    queue.into_sorted_vec()
}

/// Places of two parts.
pub proof fn lemma_present_concat(a: Seq<ScoredPointOffset>, b: Seq<ScoredPointOffset>)
    ensures
        present(a + b) == present(a) + present(b),
    decreases b.len(),
{
    if b.len() == 0 {
        assert(a + b =~= a);
        assert(present(a) + present(b) =~= present(a));
    } else {
        assert((a + b).drop_last() =~= a + b.drop_last());
        lemma_present_concat(a, b.drop_last());
        assert(present(a + b) =~= present(a) + present(b));
    }
}

/// Number of tiles.
pub open spec fn tile_count(candidates: nat) -> nat {
    ceil_div(candidates as int, BLOCK_TOPK_TILE_CANDIDATES as int) as nat
}

/// The candidates of a tile.
pub open spec fn tile_of(points: Seq<ScoredPointOffset>, tile: int) -> Seq<ScoredPointOffset> {
    points.subrange(
        tile * BLOCK_TOPK_TILE_CANDIDATES,
        min_int((tile + 1) * BLOCK_TOPK_TILE_CANDIDATES, points.len() as int),
    )
}

/// Where the places of a tile start.
pub open spec fn block_start(tile: int) -> int {
    tile * BLOCK_TOPK_LIMIT
}

/// The places of every tile hold the best points of the tile.
pub open spec fn holds_tile_tops(
    places: Seq<ScoredPointOffset>,
    points: Seq<ScoredPointOffset>,
) -> bool {
    &&& places.len() == tile_count(points.len()) * BLOCK_TOPK_LIMIT
    &&& forall|tile: int|
        0 <= tile < tile_count(points.len()) ==> present(
            places.subrange(#[trigger] block_start(tile), block_start(tile + 1)),
        ) == top_ranked(tile_of(points, tile), BLOCK_TOPK_LIMIT as nat)
}

/// The best of the best are the best.
pub(crate) proof fn lemma_top_of_top(points: Seq<ScoredPointOffset>, wide: nat, k: nat)
    requires
        k <= wide,
    ensures
        top_ranked(top_ranked(points, wide), k) == top_ranked(points, k),
{
    lemma_ranked(points);
    let kept = top_ranked(points, wide);
    assert(descending(kept));
    lemma_ranked_of_descending(kept);
    assert(first_k(kept, k) =~= first_k(ranked(points), k));
}

/// Taking the best points of every tile loses nothing: the best points of all places are the best
/// points of all candidates, as long as no more are wanted than a tile gives.
pub proof fn lemma_tiles_are_exact(
    places: Seq<ScoredPointOffset>,
    points: Seq<ScoredPointOffset>,
    top: nat,
)
    requires
        holds_tile_tops(places, points),
        top <= BLOCK_TOPK_LIMIT,
    ensures
        top_ranked(present(places), top) == top_ranked(points, top),
{
    let n = tile_count(points.len()) as int;
    lemma_ceil_div(points.len() as int, BLOCK_TOPK_TILE_CANDIDATES as int);
    lemma_first_tiles(places, points, top, n);
    assert(places.subrange(0, block_start(n)) =~= places);
    assert(points.take(
        min_int(n * BLOCK_TOPK_TILE_CANDIDATES, points.len() as int),
    ) =~= points);
}

/// The best points of the first tiles.
proof fn lemma_first_tiles(
    places: Seq<ScoredPointOffset>,
    points: Seq<ScoredPointOffset>,
    top: nat,
    n: int,
)
    requires
        holds_tile_tops(places, points),
        top <= BLOCK_TOPK_LIMIT,
        0 <= n <= tile_count(points.len()),
    ensures
        top_ranked(present(places.subrange(0, block_start(n))), top) == top_ranked(
            points.take(min_int(n * BLOCK_TOPK_TILE_CANDIDATES, points.len() as int)),
            top,
        ),
    decreases n,
{
    let width = BLOCK_TOPK_TILE_CANDIDATES as int;
    let len = points.len() as int;
    lemma_ceil_div(len, width);
    if n == 0 {
        assert(places.subrange(0, block_start(0)) =~= Seq::empty());
        assert(points.take(0) =~= Seq::empty());
    } else {
        let m = n - 1;
        lemma_first_tiles(places, points, top, m);
        let first = places.subrange(0, block_start(m));
        let last = places.subrange(block_start(m), block_start(n));
        assert(places.subrange(0, block_start(n)) =~= first + last);
        lemma_present_concat(first, last);
        let a = points.take(min_int(m * width, len));
        let b = tile_of(points, m);
        assert(m * width <= len);
        assert(points.take(min_int(n * width, len)) =~= a + b);
        lemma_top_ranked_concat(present(first), present(last), top);
        lemma_top_ranked_concat(a, b, top);
        assert(block_start(m + 1) == block_start(n));
        assert(present(last) == top_ranked(b, BLOCK_TOPK_LIMIT as nat));
        lemma_top_of_top(b, BLOCK_TOPK_LIMIT as nat, top);
    }
}

} // verus!
