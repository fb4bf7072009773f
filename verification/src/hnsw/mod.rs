pub mod exact_laws;
pub mod filter_cache_laws;
pub mod filters;
pub mod graph_search;
pub mod index;
pub mod params;
pub mod plain_search;
pub mod routing;
pub mod routing_laws;
pub mod search_laws;
