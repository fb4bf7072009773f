//! Filtered vector search inside one segment: batch filter factorization, candidate-major exact
//! scoring, device-side search bookkeeping, and the tables they read.
pub mod arith;
pub mod bits;
pub mod buffer_telemetry;
pub mod counter;
pub mod entries;
pub mod error;
pub mod exact_laws;
pub mod factorized_exact;
pub mod factorized_filter;
pub mod filter;
pub mod filter_laws;
pub mod gpu;
pub mod graph;
pub mod hnsw;
pub mod integer_postings;
pub mod map_index;
pub mod map_laws;
pub mod posting_laws;
pub mod segment;
pub mod segment_laws;
pub mod sparse_laws;
pub mod sparse_reader;
pub mod storage;
pub mod text;
pub mod top_k;
pub mod types;
