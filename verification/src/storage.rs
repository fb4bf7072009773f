//! What the search logic reads of a vector storage and of a query vector.

use vstd::prelude::*;

use crate::types::PointOffsetType;

verus! {

/// Bit pattern of one component of a dense vector.
pub type VectorElementType = u32;

/// Size of one component in bytes.
pub const VECTOR_ELEMENT_SIZE: usize = 4;

/// Distance function of a storage.
#[derive(Clone, Copy, Debug, PartialEq, Eq, Structural)]
pub enum Distance {
    Cosine,
    Euclid,
    Dot,
    Manhattan,
}

/// Representation of the components in a storage.
#[derive(Clone, Copy, Debug, PartialEq, Eq, Structural)]
pub enum VectorStorageDatatype {
    Float32,
    Float16,
    Uint8,
}

/// How a storage keeps its vectors.
#[derive(Clone, Copy, Debug, PartialEq, Eq, Structural)]
pub enum VectorStorageKind {
    DenseVolatile,
    DenseMemmap,
    DenseUring,
    DenseAppendableMemmap,
    EmptyDense,
    /// Multi-vectors, sparse vectors, or dense vectors of narrower components.
    Other,
}

/// Description of a vector storage.
#[derive(Debug)]
pub struct VectorStorage {
    pub kind: VectorStorageKind,
    pub distance: Distance,
    pub datatype: VectorStorageDatatype,
    /// Components per vector.
    pub vector_dim: usize,
    /// Number of stored vectors, deleted ones included.
    pub total_vector_count: usize,
    /// Deletion flags of the vectors. A flag that is not there is not set.
    pub deleted: Vec<bool>,
    pub on_disk: bool,
}

impl VectorStorage {
    /// One vector fits in memory.
    pub open spec fn wf(&self) -> bool {
        self.vector_dim * VECTOR_ELEMENT_SIZE <= usize::MAX
    }

    /// The storage keeps one dense vector of full-width components per point.
    pub open spec fn is_dense_f32(&self) -> bool {
        self.kind != VectorStorageKind::Other
    }
}

/// The vector of a query.
#[derive(Debug)]
pub enum VectorInternal {
    Dense(Vec<VectorElementType>),
    Sparse,
    MultiDense,
}

/// What a query is near to and far from.
#[derive(Debug)]
pub struct ContextPair {
    pub positive: VectorInternal,
    pub negative: VectorInternal,
}

/// A query for points near a target, in a context.
#[derive(Debug)]
pub struct DiscoverQuery {
    pub target: VectorInternal,
    pub pairs: Vec<ContextPair>,
}

/// A query against a vector storage.
#[derive(Debug)]
pub enum QueryVector {
    Nearest(VectorInternal),
    Discover(DiscoverQuery),
    Context(Vec<ContextPair>),
    /// Recommendation and feedback queries.
    Other,
}

/// Elements of a vector.
pub ghost enum VectorView {
    Dense(Seq<VectorElementType>),
    Sparse,
    MultiDense,
}

impl View for VectorInternal {
    type V = VectorView;

    open spec fn view(&self) -> VectorView {
        match *self {
            VectorInternal::Dense(elements) => VectorView::Dense(elements@),
            VectorInternal::Sparse => VectorView::Sparse,
            VectorInternal::MultiDense => VectorView::MultiDense,
        }
    }
}

impl VectorInternal {
    /// A vector with the same elements.
    fn copied(&self) -> (r: VectorInternal)
        ensures
            r@ == self@,
    {
        match self {
            VectorInternal::Dense(elements) => {
                let mut list: Vec<VectorElementType> = Vec::new();
                let mut i: usize = 0;
                while i < elements.len()
                    invariant
                        i <= elements@.len(),
                        list@ == elements@.take(i as int),
                    decreases elements@.len() - i,
                {
                    list.push(elements[i]);
                    proof {
                        assert(elements@.take(i + 1) =~= elements@.take(i as int).push(
                            elements@[i as int],
                        ));
                    }
                    i = i + 1;
                }
                proof {
                    assert(elements@.take(i as int) =~= elements@);
                }
                VectorInternal::Dense(list)
            },
            VectorInternal::Sparse => VectorInternal::Sparse,
            VectorInternal::MultiDense => VectorInternal::MultiDense,
        }
    }
}

/// Vectors of a list of pairs.
pub open spec fn pair_views(pairs: Seq<ContextPair>) -> Seq<(VectorView, VectorView)> {
    pairs.map_values(|pair: ContextPair| (pair.positive@, pair.negative@))
}

impl DiscoverQuery {
    /// The context of the query, without its target.
    pub fn context(&self) -> (r: QueryVector)
        ensures
            is_context_of(r, *self),
    {
        let mut pairs: Vec<ContextPair> = Vec::new();
        let mut i: usize = 0;
        while i < self.pairs.len()
            invariant
                i <= self.pairs@.len(),
                pairs@.len() == i,
                forall|j: int|
                    0 <= j < i ==> (#[trigger] pairs@[j]).positive@ == self.pairs@[j].positive@
                        && pairs@[j].negative@ == self.pairs@[j].negative@,
            decreases self.pairs@.len() - i,
        {
            pairs.push(
                ContextPair {
                    positive: self.pairs[i].positive.copied(),
                    negative: self.pairs[i].negative.copied(),
                },
            );
            i = i + 1;
        }
        proof {
            assert(pair_views(pairs@) =~= pair_views(self.pairs@));
        }
        QueryVector::Context(pairs)
    }
}

/// The query asks for points in the same context.
pub open spec fn is_context_of(query: QueryVector, discover: DiscoverQuery) -> bool {
    query matches QueryVector::Context(pairs) && pair_views(pairs@) == pair_views(discover.pairs@)
}

/// The point is deleted neither as a vector nor as a point.
///
/// A vector without a flag counts as present. A point without a flag counts as deleted.
pub open spec fn is_live(
    point: PointOffsetType,
    vec_deleted: Seq<bool>,
    point_deleted: Seq<bool>,
) -> bool {
    &&& !(point < vec_deleted.len() && vec_deleted[point as int])
    &&& point < point_deleted.len()
    &&& !point_deleted[point as int]
}

/// Tell whether a point is deleted neither as a vector nor as a point.
pub fn check_deleted_condition(
    point: PointOffsetType,
    vec_deleted: &[bool],
    point_deleted: &[bool],
) -> (r: bool)
    ensures
        r == is_live(point, vec_deleted@, point_deleted@),
{
    let i: usize = point as usize;
    if i < vec_deleted.len() && vec_deleted[i] {
        return false;
    }
    i < point_deleted.len() && !point_deleted[i]
}

} // verus!
