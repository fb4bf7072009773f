//! Settings of an index and of a search.

use vstd::prelude::*;

verus! {

/// Settings of a graph index.
#[derive(Clone, Copy, Debug, PartialEq, Eq, Structural)]
pub struct HnswGraphConfig {
    /// Number of links per point above the lowest layer.
    pub m: usize,
    /// Number of links per point on the lowest layer.
    pub m0: usize,
    /// Number of points that a search keeps.
    pub ef: usize,
    /// Fewer points are scanned, not searched.
    pub full_scan_threshold: usize,
    /// Number of additional links per point for payload values.
    pub payload_m: Option<usize>,
    pub indexed_vector_count: Option<usize>,
}

impl HnswGraphConfig {
    /// There are no links.
    pub open spec fn spec_is_disabled(&self) -> bool {
        self.m == 0 && (self.payload_m is None || self.payload_m == Some(0usize))
    }

    /// There are no links, so that only plain search can find points.
    pub fn is_disabled(&self) -> (r: bool)
        ensures
            r == self.spec_is_disabled(),
    {
        self.m == 0 && match self.payload_m {
            Some(payload_m) => payload_m == 0,
            None => true,
        }
    }

    /// Number of indexed vectors. All points count when it is unknown.
    pub fn indexed_vector_count(&self, num_points: usize) -> (count: usize)
        ensures
            count == (match self.indexed_vector_count {
                Some(count) => count,
                None => num_points,
            }),
    {
        match self.indexed_vector_count {
            Some(count) => count,
            None => num_points,
        }
    }
}

/// Use of quantized vectors in a search.
#[derive(Clone, Copy, Debug, PartialEq, Eq, Structural)]
pub struct QuantizationSearchParams {
    pub ignore: bool,
    pub rescore: Option<bool>,
    /// Bit pattern of the factor.
    pub oversampling: Option<u64>,
}

/// Use of the second search algorithm for filtered searches.
#[derive(Clone, Copy, Debug, PartialEq, Eq, Structural)]
pub struct AcornSearchParams {
    pub enable: bool,
    /// Bit pattern of the largest share of points that a filter may select.
    pub max_selectivity: Option<u64>,
}

/// Settings of a search.
#[derive(Clone, Copy, Debug, PartialEq, Eq, Structural)]
pub struct SearchParams {
    pub hnsw_ef: Option<usize>,
    pub exact: bool,
    pub quantization: Option<QuantizationSearchParams>,
    pub acorn: Option<AcornSearchParams>,
}

/// The search must be exact.
pub open spec fn is_exact(params: Option<SearchParams>) -> bool {
    params matches Some(params) && params.exact
}

/// Settings of plain search: an exact search does not use quantized vectors.
pub open spec fn plain_params(params: Option<SearchParams>) -> Option<SearchParams> {
    match params {
        Some(params) => if params.exact {
            Some(
                SearchParams {
                    quantization: Some(
                        QuantizationSearchParams {
                            ignore: true,
                            rescore: Some(false),
                            oversampling: None,
                        },
                    ),
                    ..params
                },
            )
        } else {
            Some(params)
        },
        None => None,
    }
}

/// The search must be exact.
pub fn exact_wanted(params: Option<SearchParams>) -> (r: bool)
    ensures
        r == is_exact(params),
{
    match params {
        Some(params) => params.exact,
        None => false,
    }
}

/// Settings of plain search.
pub fn params_for_plain(params: Option<SearchParams>) -> (r: Option<SearchParams>)
    ensures
        r == plain_params(params),
{
    match params {
        Some(params) => {
            let mut changed = params;
            if params.exact {
                changed.quantization = Some(
                    QuantizationSearchParams {
                        ignore: true,
                        rescore: Some(false),
                        oversampling: None,
                    },
                );
            }
            Some(changed)
        },
        None => None,
    }
}

/// Bounds on the number of points that a filter selects, and the expected number.
#[derive(Clone, Copy, Debug, PartialEq, Eq, Structural)]
pub struct CardinalityEstimation {
    pub min: usize,
    pub exp: usize,
    pub max: usize,
}

/// Use of a device in searches.
#[derive(Clone, Copy, Debug, PartialEq, Eq, Structural)]
pub struct GpuSearchConfig {
    pub enabled: bool,
    /// Filtered graph searches may use the device.
    pub router_enabled: bool,
    pub min_candidates: usize,
    pub max_candidates: usize,
    /// Filtered graph searches use the device from this number of candidates on.
    pub graph_min_candidates: usize,
}

/// What a search is counted as.
#[derive(Clone, Copy, Debug, PartialEq, Eq, Structural)]
pub enum SearchTimer {
    UnfilteredPlain,
    FilteredPlain,
    UnfilteredHnsw,
    SmallCardinality,
    LargeCardinality,
    ExactFiltered,
    ExactUnfiltered,
}

} // verus!
