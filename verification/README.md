# vector_segment

Verified building blocks of a vector search segment: batches of filtered exact searches,
graph search with an optional compute device, and the accounting around them.

- `src/` is the library. Every function is verified with Verus against its contract.
  - `factorized_filter`, `integer_postings`, `factorized_exact`, `segment`: a batch of queries with
    different filters over one payload key is factorized into atoms, candidates are collected with
    a mask of the queries that want them, scored tile by tile, and merged.
  - `map_index`, `sparse_reader`: reading a persisted index from payload values to points.
  - `hnsw`: the choice between plain search, graph search and search on a device.
  - `gpu`: links of a graph on a device, exact and filtered graph search as lists of device
    commands, what stays on a device between searches, and queries that are submitted together.
  - `exact_laws`, `posting_laws`, `gpu::search_laws`: what holds of searches as a whole, such as that
    every query gets the best of its own points whatever the tiles, buffers and orders are.
  - `buffer_telemetry`: a ledger of device buffers.
- `tests/` runs the library, with devices and storages that live in the tests.
- `app/` is what surrounds the library in a service: locks, clocks, settings, logs and
  floating point.

Scores are ordered by integer keys and vectors are handled as bit patterns, so that the library
does not compute with floating-point numbers. Whatever a device, a clock or a storage does is
handed in as a function, and contracts hold for every answer that it may give.

Two functions are trusted: `map_index::count_unique` calls `itertools`, and
`sparse_reader::read_le_u64` calls `zerocopy`.
