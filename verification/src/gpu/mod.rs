pub mod block_topk;
pub mod coalescing_laws;
pub mod commands;
pub mod exact_context;
pub mod exact_device_laws;
pub mod exact_search;
pub mod filter_cache;
pub mod filtered_graph_search;
pub mod graph_laws;
pub mod heterogeneous_exact_batch;
pub mod heterogeneous_laws;
pub mod links;
pub mod links_download;
pub mod request_laws;
pub mod resident;
pub mod search_commands;
pub mod search_device;
pub mod search_laws;
pub mod search_stats;
pub mod stats_laws;
pub mod submission;
pub mod visibility;
