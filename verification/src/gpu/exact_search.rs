//! Exact search over candidates, shared by the searches of a segment.

use vstd::prelude::*;

use crate::error::{failed, OperationError, OperationResult};
use crate::gpu::block_topk::BLOCK_TOPK_LIMIT;
use crate::gpu::commands::WORD_SIZE;
use crate::gpu::exact_context::{
    batch_outcome, batch_ran, can_run, context_buffers, copied, count_batch, query_elements,
    resident_steps, since, timed, uses_block_topk, visibility_words, with_record, BatchRecord,
    ExactBuffer, ExactCommand, ExactReply, ExactSubmission, GpuExactSearchContext, ResidentBuffer, BLOCK_TOPK_MIN_CANDIDATES,
    GPU_EXACT_SUBMISSION_BATCH_LIMIT,
};
use crate::gpu::resident::{
    GpuResidentCandidateCache, GpuResidentVisibilityCache, GpuResidentVisibilityEntry,
    ResidentCandidatesView, SharedCandidates,
};
use crate::gpu::search_commands::{steps, GpuVectorStorage};
use crate::gpu::search_stats::{
    attempt_recorded, call_recorded, coalesced_recorded, drained,
    GpuExactSearchBreakdown, GpuExactSearchStats,
};
use crate::gpu::submission::{
    batch_position, response_to, responses, BatchView, GpuSubmissionBatchKey,
    GpuSubmissionBatchState, GpuSubmissionResponse, PendingGpuQuery, PendingGpuSubmission,
    PendingView, QueryView,
};
use crate::gpu::visibility::{hides_deleted, pack_deleted_words, GpuVisibilitySnapshot};
use crate::storage::{VectorElementType, VectorStorage, VectorStorageDatatype};
use crate::types::{PointOffsetType, ScoredPointOffset};

verus! {

/// Exact search on a device: contexts that run one search each, and what stays on the device
/// between searches.
#[derive(Debug)]
pub struct GpuExactSearchCache {
    contexts: Vec<GpuExactSearchContext>,
    resident_candidates: GpuResidentCandidateCache,
    resident_visibility: GpuResidentVisibilityCache,
    submissions: GpuSubmissionBatchState,
    candidate_capacity: usize,
    context_count: usize,
    batch_max_queries: usize,
    batch_window_us: u64,
    stats: GpuExactSearchStats,
}

/// State of the cache.
#[verifier::ext_equal]
pub ghost struct ExactCacheView {
    /// Contexts that no search uses.
    pub contexts: Seq<GpuExactSearchContext>,
    pub candidates: ResidentCandidatesView,
    pub visibility: GpuResidentVisibilityCache,
    pub submissions: PendingView,
    pub candidate_capacity: usize,
    pub context_count: usize,
    pub batch_max_queries: usize,
    pub batch_window_us: u64,
    pub stats: GpuExactSearchStats,
}

impl View for GpuExactSearchCache {
    type V = ExactCacheView;

    closed spec fn view(&self) -> ExactCacheView {
        ExactCacheView {
            contexts: self.contexts@,
            candidates: self.resident_candidates@,
            visibility: self.resident_visibility,
            submissions: self.submissions@,
            candidate_capacity: self.candidate_capacity,
            context_count: self.context_count,
            batch_max_queries: self.batch_max_queries,
            batch_window_us: self.batch_window_us,
            stats: self.stats,
        }
    }
}

/// Vectors were put on the device, and sizes can be computed.
pub open spec fn usable_storage(storage: GpuVectorStorage) -> bool {
    &&& storage.dim <= storage.vector_capacity
    &&& storage.vector_capacity * GPU_EXACT_SUBMISSION_BATCH_LIMIT * WORD_SIZE <= usize::MAX
}

/// Why the capacities or the vectors are refused.
pub open spec fn setup_fault(
    vectors: VectorStorage,
    candidate_capacity: usize,
    context_count: usize,
    batch_max_queries: usize,
) -> Option<Seq<char>> {
    if candidate_capacity == 0 || context_count == 0 || batch_max_queries == 0 || batch_max_queries
        > GPU_EXACT_SUBMISSION_BATCH_LIMIT {
        Some("GPU exact capacities must be positive"@)
    } else if vectors.datatype != VectorStorageDatatype::Float32 {
        Some("GPU exact currently supports float32 dense vectors only"@)
    } else {
        None
    }
}

/// The contexts of a new cache.
pub open spec fn new_contexts(
    storage: GpuVectorStorage,
    candidate_capacity: usize,
    context_count: nat,
) -> Seq<GpuExactSearchContext> {
    Seq::new(
        context_count,
        |i: int|
            GpuExactSearchContext {
                storage,
                candidate_capacity,
                visibility_capacity_words: visibility_words(storage.num_vectors as nat) as usize,
                queue_index: i as usize,
            },
    )
}

/// A buffer that stays on the device was made like this.
pub open spec fn uploaded<U: Fn(Vec<ExactCommand>) -> OperationResult<u64>>(
    upload: &U,
    label: Seq<char>,
    staging: ExactBuffer,
    words: Seq<u32>,
    reply: OperationResult<u64>,
) -> bool {
    exists|commands: Vec<ExactCommand>|
        {
            &&& #[trigger] upload.ensures((commands,), reply)
            &&& steps(commands@) == resident_steps(label, staging, words)
        }
}

/// The buffer of the candidates of a search.
pub open spec fn candidates_prepared<U: Fn(Vec<ExactCommand>) -> OperationResult<u64>>(
    upload: &U,
    candidates: SharedCandidates,
    reuse: bool,
    before: ResidentCandidatesView,
    after: ResidentCandidatesView,
    r: OperationResult<Option<ResidentBuffer>>,
) -> bool {
    if !reuse {
        after == before && r == Ok::<Option<ResidentBuffer>, OperationError>(None)
    } else if before.entries.contains_key(candidates.address) {
        after == before && r == Ok::<Option<ResidentBuffer>, OperationError>(
            Some(ResidentBuffer { id: before.entries[candidates.address].1, hit: true }),
        )
    } else {
        exists|reply: OperationResult<u64>|
            {
                &&& #[trigger] uploaded(
                    upload,
                    "Resident exact filtered candidate IDs"@,
                    ExactBuffer::CandidateStaging,
                    candidates.points@,
                    reply,
                )
                &&& match reply {
                    Ok(id) => r == Ok::<Option<ResidentBuffer>, OperationError>(
                        Some(ResidentBuffer { id, hit: false }),
                    ) && after == before.remembered(candidates.address, candidates.points@, id),
                    Err(error) => r == Err::<Option<ResidentBuffer>, OperationError>(error)
                        && after == before,
                }
            }
    }
}

/// The buffer of the deletions of a search.
pub open spec fn visibility_prepared<U: Fn(Vec<ExactCommand>) -> OperationResult<u64>>(
    context: GpuExactSearchContext,
    upload: &U,
    visibility: Option<GpuVisibilitySnapshot>,
    before: GpuResidentVisibilityCache,
    after: GpuResidentVisibilityCache,
    r: OperationResult<Option<ResidentBuffer>>,
) -> bool {
    match visibility {
        None => after == before && r == Ok::<Option<ResidentBuffer>, OperationError>(None),
        Some(snapshot) => if !snapshot.spec_is_valid() {
            after == before && failed(r, "GPU visibility snapshot identity is invalid"@)
        } else {
            match before.spec_get(snapshot.generation, snapshot.point_count) {
                Some(id) => after == before && r == Ok::<Option<ResidentBuffer>, OperationError>(
                    Some(ResidentBuffer { id, hit: true }),
                ),
                None => exists|words: Seq<u32>, reply: OperationResult<u64>|
                    {
                        &&& hides_deleted(
                            words,
                            snapshot.deleted@,
                            snapshot.point_count as int,
                        )
                        &&& #[trigger] visibility_uploaded(context, upload, words, reply)
                        &&& match reply {
                            Ok(id) => r == Ok::<Option<ResidentBuffer>, OperationError>(
                                Some(ResidentBuffer { id, hit: false }),
                            ) && after.entry == Some(
                                GpuResidentVisibilityEntry {
                                    generation: snapshot.generation,
                                    bit_len: snapshot.point_count,
                                    buffer: id,
                                },
                            ),
                            Err(error) => r == Err::<Option<ResidentBuffer>, OperationError>(
                                error,
                            ) && after == before,
                        }
                    },
            }
        },
    }
}

/// Visibility words were put on the device, or there are too many of them.
pub open spec fn visibility_uploaded<U: Fn(Vec<ExactCommand>) -> OperationResult<u64>>(
    context: GpuExactSearchContext,
    upload: &U,
    words: Seq<u32>,
    reply: OperationResult<u64>,
) -> bool {
    if words.len() == 0 || words.len() > context.visibility_capacity_words {
        failed(reply, "GPU visibility word capacity exceeded"@)
    } else {
        uploaded(
            upload,
            "Resident exact filtered visibility"@,
            ExactBuffer::VisibilityStaging,
            words,
            reply,
        )
    }
}

/// What a search that got a context gives and changes.
pub open spec fn search_outcome<
    U: Fn(Vec<ExactCommand>) -> OperationResult<u64>,
    R: Fn(&ExactSubmission) -> OperationResult<ExactReply>,
    C: Fn() -> u64,
>(
    upload: &U,
    run: &R,
    clock: &C,
    queries: Seq<Seq<VectorElementType>>,
    candidates: SharedCandidates,
    top: nat,
    reuse: bool,
    visibility: Option<GpuVisibilitySnapshot>,
    before: ExactCacheView,
    after: ExactCacheView,
    r: OperationResult<Option<Vec<Vec<ScoredPointOffset>>>>,
) -> bool {
    exists|resident: OperationResult<Option<ResidentBuffer>>|
        {
            &&& #[trigger] candidates_prepared(
                upload,
                candidates,
                reuse,
                before.candidates,
                after.candidates,
                resident,
            )
            &&& match resident {
                Err(error) => {
                    &&& r == Err::<Option<Vec<Vec<ScoredPointOffset>>>, OperationError>(error)
                    &&& after.visibility == before.visibility
                    &&& after.stats == attempt_recorded(before.stats, true)
                },
                Ok(resident) => search_with_candidates(
                    upload,
                    run,
                    clock,
                    queries,
                    candidates,
                    top,
                    resident,
                    visibility,
                    before,
                    after,
                    r,
                ),
            }
        }
}

/// What a search gives and changes when its candidates are ready.
pub open spec fn search_with_candidates<
    U: Fn(Vec<ExactCommand>) -> OperationResult<u64>,
    R: Fn(&ExactSubmission) -> OperationResult<ExactReply>,
    C: Fn() -> u64,
>(
    upload: &U,
    run: &R,
    clock: &C,
    queries: Seq<Seq<VectorElementType>>,
    candidates: SharedCandidates,
    top: nat,
    resident: Option<ResidentBuffer>,
    visibility: Option<GpuVisibilitySnapshot>,
    before: ExactCacheView,
    after: ExactCacheView,
    r: OperationResult<Option<Vec<Vec<ScoredPointOffset>>>>,
) -> bool {
    exists|hidden: OperationResult<Option<ResidentBuffer>>|
        {
            &&& #[trigger] visibility_prepared(
                before.contexts.last(),
                upload,
                visibility,
                before.visibility,
                after.visibility,
                hidden,
            )
            &&& match hidden {
                Err(error) => {
                    &&& r == Err::<Option<Vec<Vec<ScoredPointOffset>>>, OperationError>(error)
                    &&& after.stats == attempt_recorded(before.stats, true)
                },
                Ok(hidden) => exists|candidate_ns: u64, visibility_ns: u64|
                    {
                        &&& #[trigger] searched(
                            before.contexts.last(),
                            run,
                            clock,
                            queries,
                            candidates.points@,
                            top,
                            resident,
                            hidden,
                            candidate_ns,
                            visibility_ns,
                            attempt_recorded(before.stats, true),
                            after.stats,
                            r,
                        )
                        &&& timed(clock, candidate_ns)
                        &&& timed(clock, visibility_ns)
                    },
            }
        }
}

/// What a search gives and counts when all its buffers are ready.
pub open spec fn searched<
    R: Fn(&ExactSubmission) -> OperationResult<ExactReply>,
    C: Fn() -> u64,
>(
    context: GpuExactSearchContext,
    run: &R,
    clock: &C,
    queries: Seq<Seq<VectorElementType>>,
    candidates: Seq<PointOffsetType>,
    top: nat,
    resident: Option<ResidentBuffer>,
    hidden: Option<ResidentBuffer>,
    candidate_ns: u64,
    visibility_ns: u64,
    before: GpuExactSearchStats,
    after: GpuExactSearchStats,
    r: OperationResult<Option<Vec<Vec<ScoredPointOffset>>>>,
) -> bool {
    exists|inner: OperationResult<Vec<Vec<ScoredPointOffset>>>|
        {
            &&& #[trigger] batch_outcome(
                context,
                run,
                clock,
                queries,
                candidates,
                top,
                resident,
                hidden,
                candidate_ns,
                visibility_ns,
                before,
                after,
                inner,
            )
            &&& found(inner, r)
        }
}

/// The results of a search that got a context.
pub open spec fn found(
    inner: OperationResult<Vec<Vec<ScoredPointOffset>>>,
    r: OperationResult<Option<Vec<Vec<ScoredPointOffset>>>>,
) -> bool {
    match inner {
        Ok(results) => r == Ok::<Option<Vec<Vec<ScoredPointOffset>>>, OperationError>(
            Some(results),
        ),
        Err(error) => r == Err::<Option<Vec<Vec<ScoredPointOffset>>>, OperationError>(error),
    }
}

/// Nothing but the counters, and what stays on the device, is different.
pub open spec fn keeps_setup(before: ExactCacheView, after: ExactCacheView) -> bool {
    &&& after.contexts == before.contexts
    &&& after.submissions == before.submissions
    &&& after.candidate_capacity == before.candidate_capacity
    &&& after.context_count == before.context_count
    &&& after.batch_max_queries == before.batch_max_queries
    &&& after.batch_window_us == before.batch_window_us
}

/// Nothing but the counters is different.
pub open spec fn keeps_all_but_stats(before: ExactCacheView, after: ExactCacheView) -> bool {
    after == (ExactCacheView { stats: after.stats, ..before })
}

impl GpuExactSearchCache {
    /// The parts are well-formed.
    pub closed spec fn wf(&self) -> bool {
        &&& self.resident_candidates.wf()
        &&& self.submissions.wf()
        &&& forall|i: int| 0 <= i < self.contexts@.len() ==> (#[trigger] self.contexts@[i]).wf()
    }

    /// The limits on what stays on the device hold.
    pub proof fn lemma_bounded(&self)
        requires
            self.wf(),
        ensures
            self@.candidates.bounded(),
    {
        self.resident_candidates.lemma_bounded();
    }

    /// Many candidates that stay on the device and few results: such searches can be submitted
    /// together.
    pub fn supports_submission_batch(
        candidate_count: usize,
        top: usize,
        reuse_candidate_buffer: bool,
    ) -> (r: bool)
        ensures
            r == uses_block_topk(candidate_count as nat, top as nat, reuse_candidate_buffer),
    {
        reuse_candidate_buffer && candidate_count >= BLOCK_TOPK_MIN_CANDIDATES && top
            <= BLOCK_TOPK_LIMIT
    }

    /// Set up a cache. `load` puts the vectors on the device. The commands make the buffers of
    /// every context.
    pub fn new<L: Fn() -> OperationResult<GpuVectorStorage>>(
        vectors: &VectorStorage,
        candidate_capacity: usize,
        context_count: usize,
        batch_max_queries: usize,
        batch_window_us: u64,
        load: &L,
    ) -> (r: OperationResult<(Self, Vec<Vec<ExactCommand>>)>)
        requires
            (candidate_capacity + 127) * WORD_SIZE <= usize::MAX,
            load.requires(()),
            forall|storage: GpuVectorStorage| #[trigger]
                load.ensures((), Ok(storage)) ==> usable_storage(storage),
        ensures
            match setup_fault(*vectors, candidate_capacity, context_count, batch_max_queries) {
                Some(text) => failed(r, text),
                None => match r {
                    Err(error) => load.ensures((), Err(error)),
                    Ok((cache, commands)) => exists|storage: GpuVectorStorage|
                        {
                            &&& #[trigger] load.ensures((), Ok(storage))
                            &&& cache.wf()
                            &&& cache@ == (ExactCacheView {
                                contexts: new_contexts(
                                    storage,
                                    candidate_capacity,
                                    context_count as nat,
                                ),
                                candidates: ResidentCandidatesView::empty(),
                                visibility: GpuResidentVisibilityCache { entry: None },
                                submissions: PendingView { next_id: 0, pending: Map::empty() },
                                candidate_capacity,
                                context_count,
                                batch_max_queries,
                                batch_window_us,
                                stats: cache@.stats,
                            })
                            &&& cache@.stats == drained(cache@.stats)
                            &&& cache@.stats.total_queries == 0
                            &&& commands@.len() == context_count
                            &&& forall|i: int|
                                0 <= i < context_count ==> steps((#[trigger] commands@[i])@)
                                    == context_buffers(storage, candidate_capacity as nat)
                        },
                },
            },
    {
        if candidate_capacity == 0 || context_count == 0 || batch_max_queries == 0
            || batch_max_queries > GPU_EXACT_SUBMISSION_BATCH_LIMIT {
            return Err(OperationError::service_error("GPU exact capacities must be positive"));
        }
        if vectors.datatype != VectorStorageDatatype::Float32 {
            return Err(
                OperationError::service_error(
                    "GPU exact currently supports float32 dense vectors only",
                ),
            );
        }
        let storage = match load() {
            Ok(storage) => storage,
            Err(error) => {
                return Err(error);
            },
        };
        let ghost all = new_contexts(storage, candidate_capacity, context_count as nat);
        let mut contexts: Vec<GpuExactSearchContext> = Vec::new();
        let mut commands: Vec<Vec<ExactCommand>> = Vec::new();
        let mut queue_index: usize = 0;
        while queue_index < context_count
            invariant
                queue_index <= context_count,
                (candidate_capacity + 127) * WORD_SIZE <= usize::MAX,
                usable_storage(storage),
                all == new_contexts(storage, candidate_capacity, context_count as nat),
                contexts@ == all.take(queue_index as int),
                forall|i: int| 0 <= i < contexts@.len() ==> (#[trigger] contexts@[i]).wf(),
                commands@.len() == queue_index,
                forall|i: int|
                    0 <= i < queue_index ==> steps((#[trigger] commands@[i])@) == context_buffers(
                        storage,
                        candidate_capacity as nat,
                    ),
            decreases context_count - queue_index,
        {
            let (context, creation) = GpuExactSearchContext::new(
                storage,
                candidate_capacity,
                queue_index,
            );
            contexts.push(context);
            commands.push(creation);
            proof {
                assert(all.take(queue_index + 1) =~= all.take(queue_index as int).push(context));
            }
            queue_index = queue_index + 1;
        }
        proof {
            assert(all.take(queue_index as int) =~= all);
        }
        let cache = GpuExactSearchCache {
            contexts,
            resident_candidates: GpuResidentCandidateCache::default(),
            resident_visibility: GpuResidentVisibilityCache::default(),
            submissions: GpuSubmissionBatchState::default(),
            candidate_capacity,
            context_count,
            batch_max_queries,
            batch_window_us,
            stats: GpuExactSearchStats::default(),
        };
        Ok((cache, commands))
    }

    /// Forget what stays on the device.
    pub fn clear_resident_candidates(&mut self)
        requires
            old(self).wf(),
        ensures
            final(self).wf(),
            final(self)@ == (ExactCacheView {
                candidates: ResidentCandidatesView::empty(),
                visibility: GpuResidentVisibilityCache { entry: None },
                ..old(self)@
            }),
    {
        self.resident_candidates.clear();
        self.resident_visibility.clear();
    }

    /// Count the work around a search. A report is returned when one is due.
    pub fn record_outer_breakdown(
        &mut self,
        query_count: usize,
        predicate_ns: u64,
        visibility_ns: u64,
        cache_ns: u64,
        postprocess_ns: u64,
        filter_cache_hit: Option<bool>,
    ) -> (report: Option<GpuExactSearchBreakdown>)
        requires
            old(self).wf(),
        ensures
            final(self).wf(),
            keeps_all_but_stats(old(self)@, final(self)@),
            call_recorded(
                old(self)@.stats,
                query_count,
                predicate_ns,
                visibility_ns,
                cache_ns,
                postprocess_ns,
                filter_cache_hit,
                final(self)@.stats,
                report,
            ),
    {
        self.stats.record_outer(
            query_count,
            predicate_ns,
            visibility_ns,
            cache_ns,
            postprocess_ns,
            filter_cache_hit,
        )
    }

    /// Find the candidates on the device or put them there.
    fn prepare_candidates<U: Fn(Vec<ExactCommand>) -> OperationResult<u64>>(
        &mut self,
        context: &GpuExactSearchContext,
        candidates: &SharedCandidates,
        reuse_candidate_buffer: bool,
        upload: &U,
    ) -> (r: OperationResult<Option<ResidentBuffer>>)
        requires
            old(self).wf(),
            candidates.points@.len() * WORD_SIZE <= usize::MAX,
            forall|commands: Vec<ExactCommand>| #[trigger] upload.requires((commands,)),
        ensures
            final(self).wf(),
            final(self)@ == (ExactCacheView {
                candidates: final(self)@.candidates,
                ..old(self)@
            }),
            candidates_prepared(
                upload,
                *candidates,
                reuse_candidate_buffer,
                old(self)@.candidates,
                final(self)@.candidates,
                r,
            ),
    {
        if !reuse_candidate_buffer {
            return Ok(None);
        }
        match self.resident_candidates.get(candidates) {
            Some(id) => Ok(Some(ResidentBuffer { id, hit: true })),
            None => {
                let commands = context.upload_resident_candidates(candidates.points.as_slice());
                let ghost sent = commands;
                match upload(commands) {
                    Ok(id) => {
                        proof {
                            assert(upload.ensures((sent,), Ok(id)));
                            assert(uploaded(
                                upload,
                                "Resident exact filtered candidate IDs"@,
                                ExactBuffer::CandidateStaging,
                                candidates.points@,
                                Ok(id),
                            ));
                        }
                        self.resident_candidates.insert(candidates.share(), id);
                        Ok(Some(ResidentBuffer { id, hit: false }))
                    },
                    Err(error) => {
                        proof {
                            assert(upload.ensures((sent,), Err(error)));
                            assert(uploaded(
                                upload,
                                "Resident exact filtered candidate IDs"@,
                                ExactBuffer::CandidateStaging,
                                candidates.points@,
                                Err(error),
                            ));
                        }
                        Err(error)
                    },
                }
            },
        }
    }

    /// Find the deletions on the device or put them there.
    fn prepare_visibility<U: Fn(Vec<ExactCommand>) -> OperationResult<u64>>(
        &mut self,
        context: &GpuExactSearchContext,
        visibility: Option<GpuVisibilitySnapshot>,
        upload: &U,
    ) -> (r: OperationResult<Option<ResidentBuffer>>)
        requires
            old(self).wf(),
            context.wf(),
            forall|commands: Vec<ExactCommand>| #[trigger] upload.requires((commands,)),
        ensures
            final(self).wf(),
            final(self)@ == (ExactCacheView {
                visibility: final(self)@.visibility,
                ..old(self)@
            }),
            visibility_prepared(
                *context,
                upload,
                visibility,
                old(self)@.visibility,
                final(self)@.visibility,
                r,
            ),
    {
        let snapshot = match visibility {
            None => {
                return Ok(None);
            },
            Some(snapshot) => snapshot,
        };
        if !snapshot.is_valid() {
            return Err(
                OperationError::service_error("GPU visibility snapshot identity is invalid"),
            );
        }
        match self.resident_visibility.get(snapshot.generation, snapshot.point_count) {
            Some(id) => Ok(Some(ResidentBuffer { id, hit: true })),
            None => {
                let words = pack_deleted_words(snapshot.deleted, snapshot.point_count);
                proof {
                    crate::arith::lemma_ceil_div(
                        context.storage.num_vectors as int,
                        crate::gpu::visibility::WORD_BITS as int,
                    );
                }
                let commands = match context.upload_resident_visibility(words.as_slice()) {
                    Ok(commands) => commands,
                    Err(error) => {
                        proof {
                            assert(visibility_uploaded(*context, upload, words@, Err(error)));
                        }
                        return Err(error);
                    },
                };
                let ghost sent = commands;
                match upload(commands) {
                    Ok(id) => {
                        proof {
                            assert(upload.ensures((sent,), Ok(id)));
                            assert(visibility_uploaded(*context, upload, words@, Ok(id)));
                        }
                        self.resident_visibility.insert(
                            snapshot.generation,
                            snapshot.point_count,
                            id,
                        );
                        Ok(Some(ResidentBuffer { id, hit: false }))
                    },
                    Err(error) => {
                        proof {
                            assert(upload.ensures((sent,), Err(error)));
                            assert(visibility_uploaded(*context, upload, words@, Err(error)));
                        }
                        Err(error)
                    },
                }
            },
        }
    }
}

/// A search that has a context and its buffers. It is run while nothing else of the cache is needed.
#[derive(Clone, Copy, Debug, PartialEq, Eq, Structural)]
pub struct StartedSearch {
    pub context: GpuExactSearchContext,
    pub resident: Option<ResidentBuffer>,
    pub hidden: Option<ResidentBuffer>,
    pub resident_candidate_ns: u64,
    pub resident_visibility_ns: u64,
}

impl StartedSearch {
    /// Search candidates, and tell what to count.
    pub fn run<
        R: Fn(&ExactSubmission) -> OperationResult<ExactReply>,
        C: Fn() -> u64,
    >(
        &self,
        queries: &[&[VectorElementType]],
        candidates: &SharedCandidates,
        top: usize,
        run: &R,
        clock: &C,
    ) -> (r: (OperationResult<Vec<Vec<ScoredPointOffset>>>, Option<BatchRecord>))
        requires
            self.context.wf(),
            can_run(run),
            clock.requires(()),
        ensures
            batch_ran(
                self.context,
                run,
                clock,
                query_elements(queries@),
                candidates.points@,
                top as nat,
                self.resident,
                self.hidden,
                self.resident_candidate_ns,
                self.resident_visibility_ns,
                r.0,
                r.1,
            ),
    {
        self.context.run_batch(
            queries,
            candidates.points.as_slice(),
            top,
            self.resident,
            self.hidden,
            self.resident_candidate_ns,
            self.resident_visibility_ns,
            run,
            clock,
        )
    }
}

/// What starting a search gives and changes.
pub open spec fn search_started<
    U: Fn(Vec<ExactCommand>) -> OperationResult<u64>,
    C: Fn() -> u64,
>(
    upload: &U,
    clock: &C,
    candidates: SharedCandidates,
    reuse: bool,
    visibility: Option<GpuVisibilitySnapshot>,
    before: ExactCacheView,
    after: ExactCacheView,
    r: OperationResult<Option<StartedSearch>>,
) -> bool {
    if before.contexts.len() == 0 {
        &&& r == Ok::<Option<StartedSearch>, OperationError>(None)
        &&& after == (ExactCacheView { stats: attempt_recorded(before.stats, false), ..before })
    } else {
        exists|resident: OperationResult<Option<ResidentBuffer>>|
            {
                &&& #[trigger] candidates_prepared(
                    upload,
                    candidates,
                    reuse,
                    before.candidates,
                    after.candidates,
                    resident,
                )
                &&& match resident {
                    Err(error) => {
                        &&& r == Err::<Option<StartedSearch>, OperationError>(error)
                        &&& after == (ExactCacheView {
                            candidates: after.candidates,
                            stats: attempt_recorded(before.stats, true),
                            ..before
                        })
                    },
                    Ok(resident) => started_with_candidates(
                        upload,
                        clock,
                        resident,
                        visibility,
                        before,
                        after,
                        r,
                    ),
                }
            }
    }
}

/// What starting a search gives and changes when its candidates are ready.
pub open spec fn started_with_candidates<
    U: Fn(Vec<ExactCommand>) -> OperationResult<u64>,
    C: Fn() -> u64,
>(
    upload: &U,
    clock: &C,
    resident: Option<ResidentBuffer>,
    visibility: Option<GpuVisibilitySnapshot>,
    before: ExactCacheView,
    after: ExactCacheView,
    r: OperationResult<Option<StartedSearch>>,
) -> bool {
    exists|hidden: OperationResult<Option<ResidentBuffer>>|
        {
            &&& #[trigger] visibility_prepared(
                before.contexts.last(),
                upload,
                visibility,
                before.visibility,
                after.visibility,
                hidden,
            )
            &&& match hidden {
                Err(error) => {
                    &&& r == Err::<Option<StartedSearch>, OperationError>(error)
                    &&& after == (ExactCacheView {
                        candidates: after.candidates,
                        visibility: after.visibility,
                        stats: attempt_recorded(before.stats, true),
                        ..before
                    })
                },
                Ok(hidden) => {
                    &&& r matches Ok(Some(started))
                    &&& started.context == before.contexts.last()
                    &&& started.resident == resident
                    &&& started.hidden == hidden
                    &&& timed(clock, started.resident_candidate_ns)
                    &&& timed(clock, started.resident_visibility_ns)
                    &&& after == (ExactCacheView {
                        contexts: before.contexts.drop_last(),
                        candidates: after.candidates,
                        visibility: after.visibility,
                        stats: attempt_recorded(before.stats, true),
                        ..before
                    })
                },
            }
        }
}

impl GpuExactSearchCache {
    /// Get a context that no search uses.
    fn acquire(&mut self) -> (r: Option<GpuExactSearchContext>)
        requires
            old(self).wf(),
        ensures
            final(self).wf(),
            r is None <==> old(self)@.contexts.len() == 0,
            final(self)@ == (ExactCacheView {
                contexts: final(self)@.contexts,
                stats: attempt_recorded(old(self)@.stats, r is Some),
                ..old(self)@
            }),
            match r {
                Some(context) => {
                    &&& context.wf()
                    &&& context == old(self)@.contexts.last()
                    &&& final(self)@.contexts == old(self)@.contexts.drop_last()
                },
                None => final(self)@.contexts == old(self)@.contexts,
            },
    {
        match self.contexts.pop() {
            Some(context) => {
                self.stats.record_attempt(true);
                Some(context)
            },
            None => {
                self.stats.record_attempt(false);
                None
            },
        }
    }

    /// Give a context back.
    fn release(&mut self, context: GpuExactSearchContext)
        requires
            old(self).wf(),
            context.wf(),
        ensures
            final(self).wf(),
            final(self)@ == (ExactCacheView {
                contexts: old(self)@.contexts.push(context),
                ..old(self)@
            }),
    {
        self.contexts.push(context);
    }

    /// Get a context and the buffers for a search. There is none when all contexts are in use.
    ///
    /// `upload` makes a buffer that stays on the device and returns its name, and `clock` tells the
    /// time in nanoseconds. When a buffer cannot be made, the context is given back.
    pub fn start_search<
        U: Fn(Vec<ExactCommand>) -> OperationResult<u64>,
        C: Fn() -> u64,
    >(
        &mut self,
        candidates: &SharedCandidates,
        reuse_candidate_buffer: bool,
        visibility: Option<GpuVisibilitySnapshot>,
        upload: &U,
        clock: &C,
    ) -> (r: OperationResult<Option<StartedSearch>>)
        requires
            old(self).wf(),
            candidates.points@.len() * WORD_SIZE <= usize::MAX,
            forall|commands: Vec<ExactCommand>| #[trigger] upload.requires((commands,)),
            clock.requires(()),
        ensures
            final(self).wf(),
            r matches Ok(Some(started)) ==> started.context.wf(),
            search_started(
                upload,
                clock,
                *candidates,
                reuse_candidate_buffer,
                visibility,
                old(self)@,
                final(self)@,
                r,
            ),
    {
        let ghost before = self@;
        let context = match self.acquire() {
            Some(context) => context,
            None => {
                return Ok(None);
            },
        };
        let candidates_started: u64 = clock();
        let resident = match self.prepare_candidates(
            &context,
            candidates,
            reuse_candidate_buffer,
            upload,
        ) {
            Ok(resident) => resident,
            Err(error) => {
                self.release(context);
                proof {
                    assert(self@.contexts =~= before.contexts);
                    let outcome: OperationResult<Option<ResidentBuffer>> = Err(error);
                    assert(candidates_prepared(
                        upload,
                        *candidates,
                        reuse_candidate_buffer,
                        before.candidates,
                        self@.candidates,
                        outcome,
                    ));
                }
                return Err(error);
            },
        };
        let resident_candidate_ns: u64 = since(clock, candidates_started);
        let ghost prepared: OperationResult<Option<ResidentBuffer>> = Ok(resident);
        proof {
            assert(candidates_prepared(
                upload,
                *candidates,
                reuse_candidate_buffer,
                before.candidates,
                self@.candidates,
                prepared,
            ));
        }
        let visibility_started: u64 = clock();
        let hidden = match self.prepare_visibility(&context, visibility, upload) {
            Ok(hidden) => hidden,
            Err(error) => {
                self.release(context);
                proof {
                    assert(self@.contexts =~= before.contexts);
                    let outcome: OperationResult<Option<ResidentBuffer>> = Err(error);
                    assert(visibility_prepared(
                        before.contexts.last(),
                        upload,
                        visibility,
                        before.visibility,
                        self@.visibility,
                        outcome,
                    ));
                    assert(started_with_candidates(
                        upload,
                        clock,
                        resident,
                        visibility,
                        before,
                        self@,
                        Err(error),
                    ));
                    assert(candidates_prepared(
                        upload,
                        *candidates,
                        reuse_candidate_buffer,
                        before.candidates,
                        self@.candidates,
                        prepared,
                    ));
                }
                return Err(error);
            },
        };
        let resident_visibility_ns: u64 = since(clock, visibility_started);
        let started = StartedSearch {
            context,
            resident,
            hidden,
            resident_candidate_ns,
            resident_visibility_ns,
        };
        let r = Ok(Some(started));
        proof {
            let ready: OperationResult<Option<ResidentBuffer>> = Ok(hidden);
            assert(visibility_prepared(
                before.contexts.last(),
                upload,
                visibility,
                before.visibility,
                self@.visibility,
                ready,
            ));
            assert(started_with_candidates(
                upload,
                clock,
                resident,
                visibility,
                before,
                self@,
                r,
            ));
            assert(candidates_prepared(
                upload,
                *candidates,
                reuse_candidate_buffer,
                before.candidates,
                self@.candidates,
                prepared,
            ));
        }
        r
    }

    /// Count a search that was run, and give its context back.
    pub fn finish_search(&mut self, started: StartedSearch, record: Option<BatchRecord>)
        requires
            old(self).wf(),
            started.context.wf(),
        ensures
            final(self).wf(),
            final(self)@ == (ExactCacheView {
                contexts: old(self)@.contexts.push(started.context),
                stats: with_record(old(self)@.stats, record),
                ..old(self)@
            }),
    {
        count_batch(&mut self.stats, record);
        self.release(started.context);
    }

    /// Search candidates exactly. There is no result when all contexts are in use.
    ///
    /// `upload` makes a buffer that stays on the device and returns its name, `run` performs a
    /// submission, and `clock` tells the time in nanoseconds. The context is given back whatever
    /// happens.
    pub fn search_batch<
        U: Fn(Vec<ExactCommand>) -> OperationResult<u64>,
        R: Fn(&ExactSubmission) -> OperationResult<ExactReply>,
        C: Fn() -> u64,
    >(
        &mut self,
        queries: &[&[VectorElementType]],
        candidates: &SharedCandidates,
        top: usize,
        reuse_candidate_buffer: bool,
        visibility: Option<GpuVisibilitySnapshot>,
        upload: &U,
        run: &R,
        clock: &C,
    ) -> (r: OperationResult<Option<Vec<Vec<ScoredPointOffset>>>>)
        requires
            old(self).wf(),
            candidates.points@.len() * WORD_SIZE <= usize::MAX,
            forall|commands: Vec<ExactCommand>| #[trigger] upload.requires((commands,)),
            can_run(run),
            clock.requires(()),
        ensures
            final(self).wf(),
            keeps_setup(old(self)@, final(self)@),
            queries_searched(
                upload,
                run,
                clock,
                query_elements(queries@),
                *candidates,
                top as nat,
                reuse_candidate_buffer,
                visibility,
                old(self)@,
                final(self)@,
                r,
            ),
    {
        let ghost before = self@;
        let ghost elements = query_elements(queries@);
        let started = match self.start_search(
            candidates,
            reuse_candidate_buffer,
            visibility,
            upload,
            clock,
        ) {
            Ok(Some(started)) => started,
            Ok(None) => {
                return Ok(None);
            },
            Err(error) => {
                proof {
                    lemma_start_failed(
                        upload,
                        run,
                        clock,
                        elements,
                        *candidates,
                        top as nat,
                        reuse_candidate_buffer,
                        visibility,
                        before,
                        self@,
                        error,
                    );
                }
                return Err(error);
            },
        };
        let ghost middle = self@;
        let (inner, record) = started.run(queries, candidates, top, run, clock);
        self.finish_search(started, record);
        let r = match inner {
            Ok(results) => Ok(Some(results)),
            Err(error) => Err(error),
        };
        proof {
            assert(self@.contexts =~= before.contexts);
            lemma_search_finished(
                upload,
                run,
                clock,
                elements,
                *candidates,
                top as nat,
                reuse_candidate_buffer,
                visibility,
                before,
                middle,
                self@,
                started,
                inner,
                record,
                r,
            );
        }
        r
    }

    /// Search candidates exactly for one query.
    pub fn search<
        U: Fn(Vec<ExactCommand>) -> OperationResult<u64>,
        R: Fn(&ExactSubmission) -> OperationResult<ExactReply>,
        C: Fn() -> u64,
    >(
        &mut self,
        query: &[VectorElementType],
        candidates: &SharedCandidates,
        top: usize,
        reuse_candidate_buffer: bool,
        visibility: Option<GpuVisibilitySnapshot>,
        upload: &U,
        run: &R,
        clock: &C,
    ) -> (r: OperationResult<Option<Vec<ScoredPointOffset>>>)
        requires
            old(self).wf(),
            candidates.points@.len() * WORD_SIZE <= usize::MAX,
            forall|commands: Vec<ExactCommand>| #[trigger] upload.requires((commands,)),
            can_run(run),
            clock.requires(()),
        ensures
            final(self).wf(),
            keeps_setup(old(self)@, final(self)@),
            query_searched(
                upload,
                run,
                clock,
                query@,
                *candidates,
                top as nat,
                reuse_candidate_buffer,
                visibility,
                old(self)@,
                final(self)@,
                r,
            ),
    {
        let mut queries: Vec<&[VectorElementType]> = Vec::new();
        queries.push(query);
        proof {
            assert(query_elements(queries@) =~= seq![query@]);
        }
        let batch = self.search_batch(
            queries.as_slice(),
            candidates,
            top,
            reuse_candidate_buffer,
            visibility,
            upload,
            run,
            clock,
        );
        match batch {
            Ok(Some(results)) => {
                let mut rest = results;
                let r = match rest.pop() {
                    Some(points) => Ok(Some(points)),
                    None => Ok(Some(Vec::new())),
                };
                proof {
                    assert(only_result(batch, r));
                }
                r
            },
            Ok(None) => {
                let r = Ok(None);
                proof {
                    assert(only_result(batch, r));
                }
                r
            },
            Err(error) => {
                let r = Err(error);
                proof {
                    assert(only_result(batch, r));
                }
                r
            },
        }
    }

    /// Get a context for a search whose buffers are on the device already.
    pub fn start_resident(
        &mut self,
        candidate_buffer: u64,
        visibility_buffer: Option<u64>,
        resident_candidate_ns: u64,
        resident_visibility_ns: u64,
    ) -> (r: Option<StartedSearch>)
        requires
            old(self).wf(),
        ensures
            final(self).wf(),
            r is None <==> old(self)@.contexts.len() == 0,
            match r {
                None => final(self)@ == (ExactCacheView {
                    stats: attempt_recorded(old(self)@.stats, false),
                    ..old(self)@
                }),
                Some(started) => {
                    &&& started.context.wf()
                    &&& started == (StartedSearch {
                        context: old(self)@.contexts.last(),
                        resident: Some(ResidentBuffer { id: candidate_buffer, hit: true }),
                        hidden: match visibility_buffer {
                            Some(id) => Some(ResidentBuffer { id, hit: true }),
                            None => None,
                        },
                        resident_candidate_ns,
                        resident_visibility_ns,
                    })
                    &&& final(self)@ == (ExactCacheView {
                        contexts: old(self)@.contexts.drop_last(),
                        stats: attempt_recorded(old(self)@.stats, true),
                        ..old(self)@
                    })
                },
            },
    {
        match self.acquire() {
            Some(context) => {
                let hidden = match visibility_buffer {
                    Some(id) => Some(ResidentBuffer { id, hit: true }),
                    None => None,
                };
                Some(
                    StartedSearch {
                        context,
                        resident: Some(ResidentBuffer { id: candidate_buffer, hit: true }),
                        hidden,
                        resident_candidate_ns,
                        resident_visibility_ns,
                    },
                )
            },
            None => None,
        }
    }

    /// Search candidates that are on the device already, for several queries.
    fn execute_resident_batch<
        R: Fn(&ExactSubmission) -> OperationResult<ExactReply>,
        C: Fn() -> u64,
    >(
        &mut self,
        queries: &[&[VectorElementType]],
        candidates: &SharedCandidates,
        top: usize,
        candidate_buffer: u64,
        visibility_buffer: Option<u64>,
        resident_candidate_ns: u64,
        resident_visibility_ns: u64,
        run: &R,
        clock: &C,
    ) -> (r: OperationResult<Option<Vec<Vec<ScoredPointOffset>>>>)
        requires
            old(self).wf(),
            can_run(run),
            clock.requires(()),
        ensures
            final(self).wf(),
            keeps_all_but_stats(old(self)@, final(self)@),
            executed_resident(
                run,
                clock,
                query_elements(queries@),
                candidates.points@,
                top as nat,
                candidate_buffer,
                visibility_buffer,
                resident_candidate_ns,
                resident_visibility_ns,
                old(self)@.contexts,
                old(self)@.stats,
                final(self)@.stats,
                r,
            ),
    {
        let ghost before = self@;
        let ghost elements = query_elements(queries@);
        let started = match self.start_resident(
            candidate_buffer,
            visibility_buffer,
            resident_candidate_ns,
            resident_visibility_ns,
        ) {
            Some(started) => started,
            None => {
                return Ok(None);
            },
        };
        let ghost counted = self@.stats;
        let (inner, record) = started.run(queries, candidates, top, run, clock);
        self.finish_search(started, record);
        let r = match inner {
            Ok(results) => Ok(Some(results)),
            Err(error) => Err(error),
        };
        proof {
            assert(self@.contexts =~= before.contexts);
            assert(self@.stats == with_record(counted, record));
            assert(found(inner, r));
            assert(batch_outcome(
                started.context,
                run,
                clock,
                elements,
                candidates.points@,
                top as nat,
                started.resident,
                started.hidden,
                resident_candidate_ns,
                resident_visibility_ns,
                counted,
                self@.stats,
                inner,
            ));
            assert(searched(
                before.contexts.last(),
                run,
                clock,
                elements,
                candidates.points@,
                top as nat,
                started.resident,
                started.hidden,
                resident_candidate_ns,
                resident_visibility_ns,
                attempt_recorded(before.stats, true),
                self@.stats,
                r,
            ));
        }
        r
    }
}

/// A search that could not be started.
proof fn lemma_start_failed<
    U: Fn(Vec<ExactCommand>) -> OperationResult<u64>,
    R: Fn(&ExactSubmission) -> OperationResult<ExactReply>,
    C: Fn() -> u64,
>(
    upload: &U,
    run: &R,
    clock: &C,
    queries: Seq<Seq<VectorElementType>>,
    candidates: SharedCandidates,
    top: nat,
    reuse: bool,
    visibility: Option<GpuVisibilitySnapshot>,
    before: ExactCacheView,
    after: ExactCacheView,
    error: OperationError,
)
    requires
        search_started(
            upload,
            clock,
            candidates,
            reuse,
            visibility,
            before,
            after,
            Err(error),
        ),
    ensures
        before.contexts.len() > 0,
        keeps_setup(before, after),
        search_outcome(
            upload,
            run,
            clock,
            queries,
            candidates,
            top,
            reuse,
            visibility,
            before,
            after,
            Err(error),
        ),
{
    let resident = choose|resident: OperationResult<Option<ResidentBuffer>>|
        {
            &&& #[trigger] candidates_prepared(
                upload,
                candidates,
                reuse,
                before.candidates,
                after.candidates,
                resident,
            )
            &&& match resident {
                Err(failure) => {
                    &&& error == failure
                    &&& after == (ExactCacheView {
                        candidates: after.candidates,
                        stats: attempt_recorded(before.stats, true),
                        ..before
                    })
                },
                Ok(resident) => started_with_candidates(
                    upload,
                    clock,
                    resident,
                    visibility,
                    before,
                    after,
                    Err(error),
                ),
            }
        };
    if resident is Ok {
        assert(search_with_candidates(
            upload,
            run,
            clock,
            queries,
            candidates,
            top,
            resident->Ok_0,
            visibility,
            before,
            after,
            Err(error),
        ));
    }
}

/// A search that was started, run and finished.
proof fn lemma_search_finished<
    U: Fn(Vec<ExactCommand>) -> OperationResult<u64>,
    R: Fn(&ExactSubmission) -> OperationResult<ExactReply>,
    C: Fn() -> u64,
>(
    upload: &U,
    run: &R,
    clock: &C,
    queries: Seq<Seq<VectorElementType>>,
    candidates: SharedCandidates,
    top: nat,
    reuse: bool,
    visibility: Option<GpuVisibilitySnapshot>,
    before: ExactCacheView,
    middle: ExactCacheView,
    after: ExactCacheView,
    started: StartedSearch,
    inner: OperationResult<Vec<Vec<ScoredPointOffset>>>,
    record: Option<BatchRecord>,
    r: OperationResult<Option<Vec<Vec<ScoredPointOffset>>>>,
)
    requires
        search_started(
            upload,
            clock,
            candidates,
            reuse,
            visibility,
            before,
            middle,
            Ok(Some(started)),
        ),
        batch_ran(
            started.context,
            run,
            clock,
            queries,
            candidates.points@,
            top,
            started.resident,
            started.hidden,
            started.resident_candidate_ns,
            started.resident_visibility_ns,
            inner,
            record,
        ),
        after == (ExactCacheView {
            contexts: middle.contexts.push(started.context),
            stats: with_record(middle.stats, record),
            ..middle
        }),
        found(inner, r),
    ensures
        before.contexts.len() > 0,
        search_outcome(
            upload,
            run,
            clock,
            queries,
            candidates,
            top,
            reuse,
            visibility,
            before,
            after,
            r,
        ),
{
    let begun = Ok::<Option<StartedSearch>, OperationError>(Some(started));
    let resident = choose|resident: OperationResult<Option<ResidentBuffer>>|
        {
            &&& #[trigger] candidates_prepared(
                upload,
                candidates,
                reuse,
                before.candidates,
                middle.candidates,
                resident,
            )
            &&& resident is Ok
            &&& started_with_candidates(
                upload,
                clock,
                resident->Ok_0,
                visibility,
                before,
                middle,
                begun,
            )
        };
    let hidden = choose|hidden: OperationResult<Option<ResidentBuffer>>|
        {
            &&& #[trigger] visibility_prepared(
                before.contexts.last(),
                upload,
                visibility,
                before.visibility,
                middle.visibility,
                hidden,
            )
            &&& hidden == Ok::<Option<ResidentBuffer>, OperationError>(started.hidden)
        };
    assert(with_record(middle.stats, record) == after.stats);
    assert(batch_outcome(
        started.context,
        run,
        clock,
        queries,
        candidates.points@,
        top,
        started.resident,
        started.hidden,
        started.resident_candidate_ns,
        started.resident_visibility_ns,
        attempt_recorded(before.stats, true),
        after.stats,
        inner,
    ));
    assert(searched(
        before.contexts.last(),
        run,
        clock,
        queries,
        candidates.points@,
        top,
        started.resident,
        started.hidden,
        started.resident_candidate_ns,
        started.resident_visibility_ns,
        attempt_recorded(before.stats, true),
        after.stats,
        r,
    ));
    assert(visibility_prepared(
        before.contexts.last(),
        upload,
        visibility,
        before.visibility,
        after.visibility,
        hidden,
    ));
    assert(search_with_candidates(
        upload,
        run,
        clock,
        queries,
        candidates,
        top,
        resident->Ok_0,
        visibility,
        before,
        after,
        r,
    ));
    assert(candidates_prepared(
        upload,
        candidates,
        reuse,
        before.candidates,
        after.candidates,
        resident,
    ));
}

/// The result of a batch of one query.
pub open spec fn only_result(
    batch: OperationResult<Option<Vec<Vec<ScoredPointOffset>>>>,
    r: OperationResult<Option<Vec<ScoredPointOffset>>>,
) -> bool {
    match batch {
        Ok(Some(results)) => r matches Ok(Some(points)) && points@ == (if results@.len() > 0 {
            results@.last()@
        } else {
            Seq::empty()
        }),
        Ok(None) => r matches Ok(None),
        Err(error) => r == Err::<Option<Vec<ScoredPointOffset>>, OperationError>(error),
    }
}

/// What a search for several queries gives and changes. Without a free context there is no answer.
pub open spec fn queries_searched<
    U: Fn(Vec<ExactCommand>) -> OperationResult<u64>,
    R: Fn(&ExactSubmission) -> OperationResult<ExactReply>,
    C: Fn() -> u64,
>(
    upload: &U,
    run: &R,
    clock: &C,
    queries: Seq<Seq<VectorElementType>>,
    candidates: SharedCandidates,
    top: nat,
    reuse: bool,
    visibility: Option<GpuVisibilitySnapshot>,
    before: ExactCacheView,
    after: ExactCacheView,
    r: OperationResult<Option<Vec<Vec<ScoredPointOffset>>>>,
) -> bool {
    if before.contexts.len() == 0 {
        &&& r == Ok::<Option<Vec<Vec<ScoredPointOffset>>>, OperationError>(None)
        &&& after == (ExactCacheView { stats: attempt_recorded(before.stats, false), ..before })
    } else {
        search_outcome(
            upload,
            run,
            clock,
            queries,
            candidates,
            top,
            reuse,
            visibility,
            before,
            after,
            r,
        )
    }
}

/// What a search for one query gives and changes. Without a free context there is no answer.
pub open spec fn query_searched<
    U: Fn(Vec<ExactCommand>) -> OperationResult<u64>,
    R: Fn(&ExactSubmission) -> OperationResult<ExactReply>,
    C: Fn() -> u64,
>(
    upload: &U,
    run: &R,
    clock: &C,
    query: Seq<VectorElementType>,
    candidates: SharedCandidates,
    top: nat,
    reuse: bool,
    visibility: Option<GpuVisibilitySnapshot>,
    before: ExactCacheView,
    after: ExactCacheView,
    r: OperationResult<Option<Vec<ScoredPointOffset>>>,
) -> bool {
    if before.contexts.len() == 0 {
        &&& r == Ok::<Option<Vec<ScoredPointOffset>>, OperationError>(None)
        &&& after == (ExactCacheView { stats: attempt_recorded(before.stats, false), ..before })
    } else {
        exists|batch: OperationResult<Option<Vec<Vec<ScoredPointOffset>>>>|
            {
                &&& #[trigger] search_outcome(
                    upload,
                    run,
                    clock,
                    seq![query],
                    candidates,
                    top,
                    reuse,
                    visibility,
                    before,
                    after,
                    batch,
                )
                &&& only_result(batch, r)
            }
    }
}

/// What a search of candidates that are on the device gives and counts.
pub open spec fn executed_resident<
    R: Fn(&ExactSubmission) -> OperationResult<ExactReply>,
    C: Fn() -> u64,
>(
    run: &R,
    clock: &C,
    queries: Seq<Seq<VectorElementType>>,
    candidates: Seq<PointOffsetType>,
    top: nat,
    candidate_buffer: u64,
    visibility_buffer: Option<u64>,
    candidate_ns: u64,
    visibility_ns: u64,
    contexts: Seq<GpuExactSearchContext>,
    before: GpuExactSearchStats,
    after: GpuExactSearchStats,
    r: OperationResult<Option<Vec<Vec<ScoredPointOffset>>>>,
) -> bool {
    if contexts.len() == 0 {
        &&& r == Ok::<Option<Vec<Vec<ScoredPointOffset>>>, OperationError>(None)
        &&& after == attempt_recorded(before, false)
    } else {
        searched(
            contexts.last(),
            run,
            clock,
            queries,
            candidates,
            top,
            Some(ResidentBuffer { id: candidate_buffer, hit: true }),
            match visibility_buffer {
                Some(id) => Some(ResidentBuffer { id, hit: true }),
                None => None,
            },
            candidate_ns,
            visibility_ns,
            attempt_recorded(before, true),
            after,
            r,
        )
    }
}

/// What becomes of a query that may be submitted together with others.
#[derive(Clone, Copy, Debug, PartialEq, Eq, Structural)]
pub enum CoalescedSearch {
    /// The query is searched on its own.
    Alone,
    /// The query waits in a batch. Whoever opened the batch submits it.
    Waiting { key: GpuSubmissionBatchKey, batch_id: u64, is_leader: bool },
}

/// Queries of this kind can be submitted together.
pub open spec fn may_coalesce(
    cache: ExactCacheView,
    candidates: SharedCandidates,
    top: nat,
    reuse: bool,
) -> bool {
    &&& cache.batch_max_queries > 1
    &&& cache.batch_window_us != 0
    &&& uses_block_topk(candidates.points@.len(), top, reuse)
    &&& cache.candidates.entries.contains_key(candidates.address)
}

/// The buffer of the deletions of a waiting query.
pub open spec fn waiting_visibility(
    cache: ExactCacheView,
    visibility: Option<GpuVisibilitySnapshot>,
) -> Option<u64> {
    match visibility {
        Some(snapshot) => cache.visibility.spec_get(snapshot.generation, snapshot.point_count),
        None => None,
    }
}

/// What a waiting query has in common with the others of its batch.
pub open spec fn waiting_key(
    cache: ExactCacheView,
    candidates: SharedCandidates,
    top: usize,
    visibility: Option<GpuVisibilitySnapshot>,
) -> GpuSubmissionBatchKey {
    GpuSubmissionBatchKey {
        candidates: candidates.address,
        candidate_buffer: cache.candidates.entries[candidates.address].1,
        visibility_buffer: match waiting_visibility(cache, visibility) {
            Some(id) => id,
            None => 0,
        },
        top,
    }
}

/// The batch that a query opens when it finds no room.
pub open spec fn opened_batch(
    cache: ExactCacheView,
    candidates: SharedCandidates,
    visibility: Option<GpuVisibilitySnapshot>,
    query: QueryView,
) -> BatchView {
    BatchView {
        id: 0,
        address: candidates.address,
        points: candidates.points@,
        candidate_buffer: cache.candidates.entries[candidates.address].1,
        visibility_buffer: waiting_visibility(cache, visibility),
        queries: seq![query],
    }
}

/// The query joined a batch.
pub open spec fn joined_batch(
    query: QueryView,
    candidates: SharedCandidates,
    top: usize,
    visibility: Option<GpuVisibilitySnapshot>,
    before: ExactCacheView,
    after: ExactCacheView,
    r: CoalescedSearch,
) -> bool {
    let key = waiting_key(before, candidates, top, visibility);
    let is_leader = !before.submissions.has_room(key, before.batch_max_queries as nat);
    &&& after == (ExactCacheView {
        submissions: before.submissions.joined(
            key,
            opened_batch(before, candidates, visibility, query),
            before.batch_max_queries as nat,
        ),
        ..before
    })
    &&& r == (CoalescedSearch::Waiting {
        key,
        batch_id: if is_leader {
            before.submissions.fresh_id()
        } else {
            before.submissions.batches(key).last().id
        },
        is_leader,
    })
}

/// What becomes of a query: it is searched on its own, or it waits for others.
pub open spec fn coalesced<C: Fn() -> u64>(
    query: Seq<VectorElementType>,
    candidates: SharedCandidates,
    top: usize,
    reuse: bool,
    visibility: Option<GpuVisibilitySnapshot>,
    response: u64,
    clock: &C,
    before: ExactCacheView,
    after: ExactCacheView,
    r: OperationResult<CoalescedSearch>,
) -> bool {
    if !may_coalesce(before, candidates, top as nat, reuse) {
        &&& r == Ok::<CoalescedSearch, OperationError>(CoalescedSearch::Alone)
        &&& after == before
    } else if visibility is Some && !visibility->0.spec_is_valid() {
        &&& failed(r, "GPU visibility snapshot identity is invalid"@)
        &&& after == before
    } else if visibility is Some && waiting_visibility(before, visibility) is None {
        &&& r == Ok::<CoalescedSearch, OperationError>(CoalescedSearch::Alone)
        &&& after == before
    } else {
        r matches Ok(waiting) && exists|pending: QueryView|
            {
                &&& pending.query == query
                &&& pending.response == response
                &&& timed(clock, pending.resident_candidate_ns)
                &&& timed(clock, pending.resident_visibility_ns)
                &&& #[trigger] joined_batch(
                    pending,
                    candidates,
                    top,
                    visibility,
                    before,
                    after,
                    waiting,
                )
            }
    }
}

impl GpuExactSearchCache {
    /// Decide whether a query is searched on its own or waits for others. A query waits only when
    /// everything it needs is on the device. `response` names where its response goes.
    pub fn search_coalesced<C: Fn() -> u64>(
        &mut self,
        query: &[VectorElementType],
        candidates: &SharedCandidates,
        top: usize,
        reuse_candidate_buffer: bool,
        visibility: Option<GpuVisibilitySnapshot>,
        response: u64,
        clock: &C,
    ) -> (r: OperationResult<CoalescedSearch>)
        requires
            old(self).wf(),
            clock.requires(()),
        ensures
            final(self).wf(),
            coalesced(
                query@,
                *candidates,
                top,
                reuse_candidate_buffer,
                visibility,
                response,
                clock,
                old(self)@,
                final(self)@,
                r,
            ),
    {
        if self.batch_max_queries <= 1 || self.batch_window_us == 0
            || !Self::supports_submission_batch(
            candidates.points.len(),
            top,
            reuse_candidate_buffer,
        ) {
            return Ok(CoalescedSearch::Alone);
        }
        let candidates_started: u64 = clock();
        let candidate_buffer: u64 = match self.resident_candidates.get(candidates) {
            Some(id) => id,
            None => {
                return Ok(CoalescedSearch::Alone);
            },
        };
        let resident_candidate_ns: u64 = since(clock, candidates_started);
        let visibility_started: u64 = clock();
        let visibility_buffer: Option<u64> = match visibility {
            Some(snapshot) => {
                if !snapshot.is_valid() {
                    return Err(
                        OperationError::service_error(
                            "GPU visibility snapshot identity is invalid",
                        ),
                    );
                }
                self.resident_visibility.get(snapshot.generation, snapshot.point_count)
            },
            None => None,
        };
        let resident_visibility_ns: u64 = since(clock, visibility_started);
        if visibility.is_some() && visibility_buffer.is_none() {
            return Ok(CoalescedSearch::Alone);
        }
        let key = GpuSubmissionBatchKey {
            candidates: candidates.address,
            candidate_buffer,
            visibility_buffer: match visibility_buffer {
                Some(id) => id,
                None => 0,
            },
            top,
        };
        let pending = PendingGpuQuery {
            query: copied(query),
            resident_candidate_ns,
            resident_visibility_ns,
            response,
        };
        let ghost view = pending@;
        let max_queries: usize = self.batch_max_queries;
        let (batch_id, is_leader) = self.submissions.join(
            key,
            candidates.share(),
            candidate_buffer,
            visibility_buffer,
            pending,
            max_queries,
        );
        let waiting = CoalescedSearch::Waiting { key, batch_id, is_leader };
        proof {
            assert(joined_batch(
                view,
                *candidates,
                top,
                visibility,
                old(self)@,
                self@,
                waiting,
            ));
        }
        Ok(waiting)
    }

    /// Number of queries that wait in a batch.
    pub fn waiting_queries(&self, key: GpuSubmissionBatchKey, batch_id: u64) -> (r: Option<usize>)
        requires
            self.wf(),
        ensures
            match batch_position(self@.submissions.batches(key), batch_id) {
                Some(i) => r is Some && r->0 == self@.submissions.batches(key)[i].queries.len(),
                None => r is None,
            },
    {
        self.submissions.query_count(key, batch_id)
    }

    /// Take a batch that has waited out of the waiting ones, and count it.
    pub fn take_submission(
        &mut self,
        key: GpuSubmissionBatchKey,
        batch_id: u64,
        waited_ns: u64,
    ) -> (r: Option<PendingGpuSubmission>)
        requires
            old(self).wf(),
        ensures
            final(self).wf(),
            match batch_position(old(self)@.submissions.batches(key), batch_id) {
                Some(i) => {
                    &&& r is Some
                    &&& r->0@ == old(self)@.submissions.batches(key)[i]
                    &&& final(self)@ == (ExactCacheView {
                        submissions: old(self)@.submissions.without(key, i),
                        stats: coalesced_recorded(
                            old(self)@.stats,
                            r->0@.queries.len() as usize,
                            waited_ns,
                        ),
                        ..old(self)@
                    })
                },
                None => r is None && final(self)@ == old(self)@,
            },
    {
        match self.submissions.take(key, batch_id) {
            Some(submission) => {
                self.stats.record_coalesced(submission.queries.len(), waited_ns);
                proof {
                    assert(submission@.queries.len() == submission.queries@.len());
                }
                Some(submission)
            },
            None => None,
        }
    }

    /// Submit a batch that has waited, and give each of its queries a response. `describe` tells
    /// what an error says.
    pub fn lead_coalesced_submission<
        R: Fn(&ExactSubmission) -> OperationResult<ExactReply>,
        C: Fn() -> u64,
        D: Fn(&OperationError) -> String,
    >(
        &mut self,
        key: GpuSubmissionBatchKey,
        batch_id: u64,
        waited_ns: u64,
        run: &R,
        clock: &C,
        describe: &D,
    ) -> (r: Vec<(u64, GpuSubmissionResponse)>)
        requires
            old(self).wf(),
            batch_position(old(self)@.submissions.batches(key), batch_id) is Some,
            can_run(run),
            clock.requires(()),
            forall|error: &OperationError| #[trigger] describe.requires((error,)),
        ensures
            final(self).wf(),
            batch_led(
                run,
                clock,
                describe,
                key,
                batch_id,
                waited_ns,
                old(self)@,
                final(self)@,
                r@,
            ),
    {
        let ghost before = self@;
        let submission = match self.take_submission(key, batch_id, waited_ns) {
            Some(submission) => submission,
            None => {
                return Vec::new();
            },
        };
        let ghost batch = submission@;
        let ghost counted = self@.stats;
        let (resident_candidate_ns, resident_visibility_ns) = waited_in_all(&submission);
        let queries = submission_queries(&submission);
        let result = self.execute_resident_batch(
            queries.as_slice(),
            &submission.candidates,
            key.top,
            submission.candidate_buffer,
            submission.visibility_buffer,
            resident_candidate_ns,
            resident_visibility_ns,
            run,
            clock,
        );
        let ghost answered = result;
        let r = answers_to(&submission, result, describe);
        proof {
            assert(executed_resident(
                run,
                clock,
                batch_elements(batch),
                batch.points,
                key.top as nat,
                batch.candidate_buffer,
                batch.visibility_buffer,
                waited_for_candidates(batch.queries),
                waited_for_visibility(batch.queries),
                before.contexts,
                counted,
                self@.stats,
                answered,
            ));
            assert(batch_answered(
                run,
                clock,
                describe,
                batch,
                key.top as nat,
                waited_ns,
                before.contexts,
                before.stats,
                self@.stats,
                r@,
            ));
        }
        r
    }
}

/// The elements of the queries of a batch.
pub open spec fn batch_elements(batch: BatchView) -> Seq<Seq<VectorElementType>> {
    batch.queries.map_values(|query: QueryView| query.query)
}

/// Time that the queries took to find their candidates on the device.
pub open spec fn waited_for_candidates(queries: Seq<QueryView>) -> u64
    decreases queries.len(),
{
    if queries.len() == 0 {
        0
    } else {
        waited_for_candidates(queries.drop_last()).wrapping_add(
            queries.last().resident_candidate_ns,
        )
    }
}

/// Time that the queries took to find their deletions on the device.
pub open spec fn waited_for_visibility(queries: Seq<QueryView>) -> u64
    decreases queries.len(),
{
    if queries.len() == 0 {
        0
    } else {
        waited_for_visibility(queries.drop_last()).wrapping_add(
            queries.last().resident_visibility_ns,
        )
    }
}

/// The elements of every query of a batch.
pub fn submission_queries<'a>(submission: &'a PendingGpuSubmission) -> (r: Vec<
    &'a [VectorElementType],
>)
    ensures
        query_elements(r@) == batch_elements(submission@),
{
    let mut r: Vec<&'a [VectorElementType]> = Vec::new();
    let mut i: usize = 0;
    while i < submission.queries.len()
        invariant
            i <= submission.queries@.len(),
            r@.len() == i,
            forall|j: int|
                0 <= j < i ==> (#[trigger] r@[j])@ == submission.queries@[j].query@,
        decreases submission.queries@.len() - i,
    {
        r.push(submission.queries[i].query.as_slice());
        i = i + 1;
    }
    proof {
        assert(query_elements(r@) =~= batch_elements(submission@));
    }
    r
}

/// Time that all queries of a batch took to find their candidates and their deletions on the device.
pub fn waited_in_all(submission: &PendingGpuSubmission) -> (r: (u64, u64))
    ensures
        r.0 == waited_for_candidates(submission@.queries),
        r.1 == waited_for_visibility(submission@.queries),
{
    let ghost queries = submission@.queries;
    let mut resident_candidate_ns: u64 = 0;
    let mut resident_visibility_ns: u64 = 0;
    let mut i: usize = 0;
    while i < submission.queries.len()
        invariant
            i <= submission.queries@.len(),
            queries == submission@.queries,
            resident_candidate_ns == waited_for_candidates(queries.take(i as int)),
            resident_visibility_ns == waited_for_visibility(queries.take(i as int)),
        decreases submission.queries@.len() - i,
    {
        proof {
            assert(queries.take(i + 1).drop_last() =~= queries.take(i as int));
            assert(queries.take(i + 1).last() == submission.queries@[i as int]@);
        }
        resident_candidate_ns = resident_candidate_ns.wrapping_add(
            submission.queries[i].resident_candidate_ns,
        );
        resident_visibility_ns = resident_visibility_ns.wrapping_add(
            submission.queries[i].resident_visibility_ns,
        );
        i = i + 1;
    }
    proof {
        assert(queries.take(i as int) =~= queries);
    }
    (resident_candidate_ns, resident_visibility_ns)
}

/// Give every query of a batch its response. `describe` tells what an error says.
pub fn answers_to<D: Fn(&OperationError) -> String>(
    submission: &PendingGpuSubmission,
    result: OperationResult<Option<Vec<Vec<ScoredPointOffset>>>>,
    describe: &D,
) -> (r: Vec<(u64, GpuSubmissionResponse)>)
    requires
        forall|error: &OperationError| #[trigger] describe.requires((error,)),
    ensures
        r@.len() == submission@.queries.len(),
        forall|j: int|
            0 <= j < r@.len() ==> (#[trigger] r@[j]).0 == submission@.queries[j].response
                && response_to(result, submission@.queries.len(), describe, j, r@[j].1),
{
    let query_count: usize = submission.queries.len();
    let mut answers = responses(result, query_count, describe);
    let ghost all = answers@;
    let mut r: Vec<(u64, GpuSubmissionResponse)> = Vec::new();
    let mut k: usize = 0;
    while k < query_count
        invariant
            k <= query_count == submission.queries@.len() == all.len(),
            answers@ == all.skip(k as int),
            r@.len() == k,
            forall|j: int|
                0 <= j < k ==> (#[trigger] r@[j]).0 == submission.queries@[j].response && r@[j].1
                    == all[j],
        decreases query_count - k,
    {
        let answer = answers.remove(0);
        proof {
            assert(answers@ =~= all.skip(k + 1));
        }
        r.push((submission.queries[k].response, answer));
        k = k + 1;
    }
    proof {
        let queries = submission@.queries;
        assert forall|j: int| 0 <= j < r@.len() implies (#[trigger] r@[j]).0
            == queries[j].response && response_to(
            result,
            queries.len(),
            describe,
            j,
            r@[j].1,
        ) by {
            assert(queries[j] == submission.queries@[j]@);
            assert(response_to(result, query_count as nat, describe, j, all[j]));
        }
    }
    r
}

/// A batch that has waited was taken out and submitted, and its queries got their responses.
pub open spec fn batch_led<
    R: Fn(&ExactSubmission) -> OperationResult<ExactReply>,
    C: Fn() -> u64,
    D: Fn(&OperationError) -> String,
>(
    run: &R,
    clock: &C,
    describe: &D,
    key: GpuSubmissionBatchKey,
    batch_id: u64,
    waited_ns: u64,
    before: ExactCacheView,
    after: ExactCacheView,
    r: Seq<(u64, GpuSubmissionResponse)>,
) -> bool {
    let i = batch_position(before.submissions.batches(key), batch_id)->0;
    let batch = before.submissions.batches(key)[i];
    &&& after == (ExactCacheView {
        submissions: before.submissions.without(key, i),
        stats: after.stats,
        ..before
    })
    &&& batch_answered(
        run,
        clock,
        describe,
        batch,
        key.top as nat,
        waited_ns,
        before.contexts,
        before.stats,
        after.stats,
        r,
    )
}

/// Every query of a batch got its response.
pub open spec fn batch_answered<
    R: Fn(&ExactSubmission) -> OperationResult<ExactReply>,
    C: Fn() -> u64,
    D: Fn(&OperationError) -> String,
>(
    run: &R,
    clock: &C,
    describe: &D,
    batch: BatchView,
    top: nat,
    waited_ns: u64,
    contexts: Seq<GpuExactSearchContext>,
    before: GpuExactSearchStats,
    after: GpuExactSearchStats,
    r: Seq<(u64, GpuSubmissionResponse)>,
) -> bool {
    &&& r.len() == batch.queries.len()
    &&& exists|result: OperationResult<Option<Vec<Vec<ScoredPointOffset>>>>|
        {
            &&& #[trigger] executed_resident(
                run,
                clock,
                batch_elements(batch),
                batch.points,
                top,
                batch.candidate_buffer,
                batch.visibility_buffer,
                waited_for_candidates(batch.queries),
                waited_for_visibility(batch.queries),
                contexts,
                coalesced_recorded(before, batch.queries.len() as usize, waited_ns),
                after,
                result,
            )
            &&& forall|j: int|
                0 <= j < r.len() ==> (#[trigger] r[j]).0 == batch.queries[j].response
                    && response_to(result, batch.queries.len(), describe, j, r[j].1)
        }
}

} // verus!
