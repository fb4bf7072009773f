//! Plain value types shared by the search modules.
use vstd::prelude::*;

verus! {

/// Ordinal of a point inside a segment.
pub type PointOffsetType = u32;

/// Order key of a similarity score: a larger key is a better score.
pub type ScoreType = i32;

/// A point ordinal together with the order key of its score.
#[derive(Clone, Copy, Debug, PartialEq, Eq, Structural)]
pub struct ScoredPointOffset {
    pub idx: PointOffsetType,
    pub score: ScoreType,
}

} // verus!
