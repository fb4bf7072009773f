//! Queries that wait to be submitted together.

use vstd::prelude::*;

use crate::entries::{
    distinct_keys, entries_map, has_key, lemma_entries_insert, lemma_entries_map,
    lemma_entries_remove, lemma_entries_update,
};
use crate::error::{failed, OperationError, OperationResult};
use crate::gpu::resident::SharedCandidates;
use crate::storage::VectorElementType;
use crate::text::{decimal, decimal_text, joined};
use crate::types::{PointOffsetType, ScoredPointOffset};

verus! {

/// Queries can be submitted together when they agree in this.
#[derive(Clone, Copy, Debug, PartialEq, Eq, Structural)]
pub struct GpuSubmissionBatchKey {
    /// Address of the list of candidates.
    pub candidates: usize,
    pub candidate_buffer: u64,
    /// Zero without deletions.
    pub visibility_buffer: u64,
    pub top: usize,
}

/// A query that waits.
#[derive(Debug)]
pub struct PendingGpuQuery {
    pub query: Vec<VectorElementType>,
    pub resident_candidate_ns: u64,
    pub resident_visibility_ns: u64,
    /// Where the response goes.
    pub response: u64,
}

/// Queries that will be submitted together.
#[derive(Debug)]
pub struct PendingGpuSubmission {
    pub id: u64,
    pub candidates: SharedCandidates,
    pub candidate_buffer: u64,
    pub visibility_buffer: Option<u64>,
    pub queries: Vec<PendingGpuQuery>,
}

/// The queries that wait.
#[derive(Debug)]
pub struct GpuSubmissionBatchState {
    next_id: u64,
    pending: Vec<(GpuSubmissionBatchKey, Vec<PendingGpuSubmission>)>,
}

/// A query that waits.
pub ghost struct QueryView {
    pub query: Seq<VectorElementType>,
    pub resident_candidate_ns: u64,
    pub resident_visibility_ns: u64,
    pub response: u64,
}

/// Queries that will be submitted together.
#[verifier::ext_equal]
pub ghost struct BatchView {
    pub id: u64,
    pub address: usize,
    pub points: Seq<PointOffsetType>,
    pub candidate_buffer: u64,
    pub visibility_buffer: Option<u64>,
    pub queries: Seq<QueryView>,
}

/// The queries that wait.
#[verifier::ext_equal]
pub ghost struct PendingView {
    /// The last name that was given to a batch.
    pub next_id: u64,
    /// Batches in the order they were opened.
    pub pending: Map<GpuSubmissionBatchKey, Seq<BatchView>>,
}

impl View for PendingGpuQuery {
    type V = QueryView;

    open spec fn view(&self) -> QueryView {
        QueryView {
            query: self.query@,
            resident_candidate_ns: self.resident_candidate_ns,
            resident_visibility_ns: self.resident_visibility_ns,
            response: self.response,
        }
    }
}

/// The queries of a batch.
pub open spec fn query_views(queries: Seq<PendingGpuQuery>) -> Seq<QueryView> {
    queries.map_values(|query: PendingGpuQuery| query@)
}

impl View for PendingGpuSubmission {
    type V = BatchView;

    open spec fn view(&self) -> BatchView {
        BatchView {
            id: self.id,
            address: self.candidates.address,
            points: self.candidates.points@,
            candidate_buffer: self.candidate_buffer,
            visibility_buffer: self.visibility_buffer,
            queries: query_views(self.queries@),
        }
    }
}

/// The batches of a key.
pub open spec fn batch_views(batches: Seq<PendingGpuSubmission>) -> Seq<BatchView> {
    batches.map_values(|batch: PendingGpuSubmission| batch@)
}

/// All batches by their keys.
pub open spec fn pending_pairs(
    pending: Seq<(GpuSubmissionBatchKey, Vec<PendingGpuSubmission>)>,
) -> Seq<(GpuSubmissionBatchKey, Seq<BatchView>)> {
    pending.map_values(
        |entry: (GpuSubmissionBatchKey, Vec<PendingGpuSubmission>)|
            (entry.0, batch_views(entry.1@)),
    )
}

impl View for GpuSubmissionBatchState {
    type V = PendingView;

    closed spec fn view(&self) -> PendingView {
        PendingView {
            next_id: self.next_id,
            pending: entries_map(pending_pairs(self.pending@)),
        }
    }
}

/// Where the batch with a name stands.
pub open spec fn batch_position(batches: Seq<BatchView>, id: u64) -> Option<int>
    decreases batches.len(),
{
    if batches.len() == 0 {
        None
    } else {
        match batch_position(batches.drop_last(), id) {
            Some(i) => Some(i),
            None => if batches.last().id == id {
                Some(batches.len() - 1)
            } else {
                None
            },
        }
    }
}

impl PendingView {
    /// The batches of a key.
    pub open spec fn batches(self, key: GpuSubmissionBatchKey) -> Seq<BatchView> {
        if self.pending.contains_key(key) {
            self.pending[key]
        } else {
            Seq::empty()
        }
    }

    /// A query can join the last batch of its key.
    pub open spec fn has_room(self, key: GpuSubmissionBatchKey, max_queries: nat) -> bool {
        self.batches(key).len() > 0 && self.batches(key).last().queries.len() < max_queries
    }

    /// The name of the next batch. Names are never zero.
    pub open spec fn fresh_id(self) -> u64 {
        if self.next_id == u64::MAX {
            1
        } else {
            (self.next_id + 1) as u64
        }
    }

    /// The queries after one more came. `opened` is the batch it opens when it finds no room.
    pub open spec fn joined(
        self,
        key: GpuSubmissionBatchKey,
        opened: BatchView,
        max_queries: nat,
    ) -> PendingView {
        let batches = self.batches(key);
        if self.has_room(key, max_queries) {
            let last = batches.last();
            let grown = BatchView { queries: last.queries + opened.queries, ..last };
            PendingView {
                pending: self.pending.insert(key, batches.update(batches.len() - 1, grown)),
                ..self
            }
        } else {
            PendingView {
                next_id: self.fresh_id(),
                pending: self.pending.insert(
                    key,
                    batches.push(BatchView { id: self.fresh_id(), ..opened }),
                ),
            }
        }
    }

    /// The queries after a batch was taken out.
    pub open spec fn without(self, key: GpuSubmissionBatchKey, position: int) -> PendingView {
        let rest = self.batches(key).remove(position);
        PendingView {
            pending: if rest.len() == 0 {
                self.pending.remove(key)
            } else {
                self.pending.insert(key, rest)
            },
            ..self
        }
    }
}

/// A batch with a name is found where it stands.
pub(crate) proof fn lemma_batch_position(batches: Seq<BatchView>, id: u64)
    ensures
        match batch_position(batches, id) {
            Some(i) => 0 <= i < batches.len() && batches[i].id == id && forall|j: int|
                0 <= j < i ==> (#[trigger] batches[j]).id != id,
            None => forall|j: int| 0 <= j < batches.len() ==> (#[trigger] batches[j]).id != id,
        },
    decreases batches.len(),
{
    if batches.len() > 0 {
        let previous = batches.drop_last();
        lemma_batch_position(previous, id);
        match batch_position(previous, id) {
            Some(i) => {
                assert(previous[i] == batches[i]);
                assert forall|j: int| 0 <= j < i implies (#[trigger] batches[j]).id != id by {
                    assert(previous[j] == batches[j]);
                }
            },
            None => {
                assert forall|j: int| 0 <= j < previous.len() implies (#[trigger] batches[j]).id
                    != id by {
                    assert(previous[j] == batches[j]);
                }
            },
        }
    }
}

/// A batch is where its name first occurs.
proof fn lemma_position_is(batches: Seq<BatchView>, id: u64, i: int)
    requires
        0 <= i < batches.len(),
        batches[i].id == id,
        forall|j: int| 0 <= j < i ==> (#[trigger] batches[j]).id != id,
    ensures
        batch_position(batches, id) == Some(i),
{
    lemma_batch_position(batches, id);
}

impl Default for GpuSubmissionBatchState {
    /// No query waits.
    fn default() -> (state: Self)
        ensures
            state.wf(),
            state@ == (PendingView { next_id: 0, pending: Map::empty() }),
    {
        let state = GpuSubmissionBatchState { next_id: 0, pending: Vec::new() };
        proof {
            assert(pending_pairs(state.pending@) =~= Seq::empty());
        }
        state
    }
}

impl GpuSubmissionBatchState {
    /// Keys are distinct, and every key has a batch.
    pub closed spec fn wf(&self) -> bool {
        &&& distinct_keys(pending_pairs(self.pending@))
        &&& forall|i: int|
            0 <= i < self.pending@.len() ==> (#[trigger] self.pending@[i]).1@.len() > 0
    }

    /// Where the batches of a key stand.
    fn position(&self, key: GpuSubmissionBatchKey) -> (r: Option<usize>)
        requires
            self.wf(),
        ensures
            match r {
                Some(i) => {
                    &&& i < self.pending@.len()
                    &&& self.pending@[i as int].0 == key
                    &&& self@.pending.contains_key(key)
                    &&& self@.pending[key] == batch_views(self.pending@[i as int].1@)
                },
                None => !self@.pending.contains_key(key) && !has_key(
                    pending_pairs(self.pending@),
                    key,
                ),
            },
    {
        let ghost pairs = pending_pairs(self.pending@);
        proof {
            lemma_entries_map(pairs);
        }
        let mut i: usize = 0;
        while i < self.pending.len()
            invariant
                self.wf(),
                i <= self.pending@.len(),
                pairs == pending_pairs(self.pending@),
                forall|j: int| 0 <= j < i ==> (#[trigger] pairs[j]).0 != key,
                forall|j: int|
                    0 <= j < pairs.len() ==> entries_map(pairs).contains_key(
                        (#[trigger] pairs[j]).0,
                    ) && entries_map(pairs)[pairs[j].0] == pairs[j].1,
            decreases self.pending@.len() - i,
        {
            proof {
                assert(pairs[i as int] == (
                    self.pending@[i as int].0,
                    batch_views(self.pending@[i as int].1@),
                ));
            }
            if self.pending[i].0 == key {
                return Some(i);
            }
            i = i + 1;
        }
        None
    }

    /// Let a query join the last batch of its key, or open a batch for it. The name of the batch
    /// is returned, and whether the query opened it: then its caller submits the batch.
    pub fn join(
        &mut self,
        key: GpuSubmissionBatchKey,
        candidates: SharedCandidates,
        candidate_buffer: u64,
        visibility_buffer: Option<u64>,
        query: PendingGpuQuery,
        max_queries: usize,
    ) -> (r: (u64, bool))
        requires
            old(self).wf(),
        ensures
            final(self).wf(),
            final(self)@ == old(self)@.joined(
                key,
                (BatchView {
                    id: 0,
                    address: candidates.address,
                    points: candidates.points@,
                    candidate_buffer,
                    visibility_buffer,
                    queries: seq![query@],
                }),
                max_queries as nat,
            ),
            r.1 == !old(self)@.has_room(key, max_queries as nat),
            r.0 == (if r.1 {
                old(self)@.fresh_id()
            } else {
                old(self)@.batches(key).last().id
            }),
    {
        let ghost before = self.pending@;
        let ghost pairs = pending_pairs(before);
        let ghost opened = BatchView {
            id: 0,
            address: candidates.address,
            points: candidates.points@,
            candidate_buffer,
            visibility_buffer,
            queries: seq![query@],
        };
        let found = self.position(key);
        match found {
            Some(i) => {
                let last: usize = self.pending[i].1.len() - 1;
                if self.pending[i].1[last].queries.len() < max_queries {
                    let id: u64 = self.pending[i].1[last].id;
                    let ghost grown = query_views(
                        before[i as int].1@[last as int].queries@,
                    ) + seq![query@];
                    self.pending[i].1[last].queries.push(query);
                    proof {
                        assert(query_views(self.pending@[i as int].1@[last as int].queries@)
                            =~= grown);
                        let batches = batch_views(before[i as int].1@);
                        let after = batches.update(
                            last as int,
                            BatchView { queries: grown, ..batches[last as int] },
                        );
                        assert(batch_views(self.pending@[i as int].1@) =~= after);
                        assert(pending_pairs(self.pending@) =~= pairs.update(
                            i as int,
                            (pairs[i as int].0, after),
                        ));
                        lemma_entries_update(pairs, i as int, after);
                    }
                    return (id, false);
                }
            },
            None => {},
        }
        let id: u64 = if self.next_id == u64::MAX {
            1
        } else {
            self.next_id + 1
        };
        self.next_id = id;
        let mut queries: Vec<PendingGpuQuery> = Vec::new();
        queries.push(query);
        let batch = PendingGpuSubmission {
            id,
            candidates,
            candidate_buffer,
            visibility_buffer,
            queries,
        };
        proof {
            assert(query_views(queries@) =~= seq![query@]);
        }
        match found {
            Some(i) => {
                self.pending[i].1.push(batch);
                proof {
                    let after = batch_views(before[i as int].1@).push(BatchView { id, ..opened });
                    assert(batch_views(self.pending@[i as int].1@) =~= after);
                    assert(pending_pairs(self.pending@) =~= pairs.update(
                        i as int,
                        (pairs[i as int].0, after),
                    ));
                    lemma_entries_update(pairs, i as int, after);
                }
            },
            None => {
                let mut batches: Vec<PendingGpuSubmission> = Vec::new();
                batches.push(batch);
                self.pending.push((key, batches));
                proof {
                    let after = Seq::empty().push(BatchView { id, ..opened });
                    assert(batch_views(batches@) =~= after);
                    assert(pending_pairs(self.pending@) =~= pairs.insert(
                        pairs.len() as int,
                        (key, after),
                    ));
                    lemma_entries_insert(pairs, pairs.len() as int, key, after);
                }
            },
        }
        (id, true)
    }

    /// Where a batch stands among the batches of its key.
    fn find(batches: &Vec<PendingGpuSubmission>, id: u64) -> (r: Option<usize>)
        ensures
            match batch_position(batch_views(batches@), id) {
                Some(i) => r == Some(i as usize) && 0 <= i < batches@.len() && i <= usize::MAX,
                None => r is None,
            },
    {
        let ghost views = batch_views(batches@);
        let mut i: usize = 0;
        while i < batches.len()
            invariant
                i <= batches@.len(),
                views == batch_views(batches@),
                forall|j: int| 0 <= j < i ==> (#[trigger] views[j]).id != id,
            decreases batches@.len() - i,
        {
            proof {
                assert(views[i as int] == batches@[i as int]@);
            }
            if batches[i].id == id {
                proof {
                    lemma_position_is(views, id, i as int);
                }
                return Some(i);
            }
            i = i + 1;
        }
        proof {
            lemma_batch_position(views, id);
        }
        None
    }

    /// Number of queries of a batch.
    pub fn query_count(&self, key: GpuSubmissionBatchKey, id: u64) -> (r: Option<usize>)
        requires
            self.wf(),
        ensures
            match batch_position(self@.batches(key), id) {
                Some(i) => r is Some && r->0 == self@.batches(key)[i].queries.len(),
                None => r is None,
            },
    {
        proof {
            lemma_batch_position(self@.batches(key), id);
        }
        match self.position(key) {
            Some(i) => match Self::find(&self.pending[i].1, id) {
                Some(j) => Some(self.pending[i].1[j].queries.len()),
                None => None,
            },
            None => None,
        }
    }

    /// Take a batch out to submit it.
    pub fn take(&mut self, key: GpuSubmissionBatchKey, id: u64) -> (r: Option<
        PendingGpuSubmission,
    >)
        requires
            old(self).wf(),
        ensures
            final(self).wf(),
            match batch_position(old(self)@.batches(key), id) {
                Some(i) => {
                    &&& r is Some
                    &&& r->0@ == old(self)@.batches(key)[i]
                    &&& final(self)@ == old(self)@.without(key, i)
                },
                None => r is None && final(self)@ == old(self)@,
            },
    {
        let ghost before = self.pending@;
        let ghost pairs = pending_pairs(before);
        proof {
            lemma_batch_position(self@.batches(key), id);
        }
        let i: usize = match self.position(key) {
            Some(i) => i,
            None => {
                return None;
            },
        };
        let j: usize = match Self::find(&self.pending[i].1, id) {
            Some(j) => j,
            None => {
                return None;
            },
        };
        let ghost batches = batch_views(before[i as int].1@);
        let ghost after = batches.remove(j as int);
        let submission = self.pending[i].1.remove(j);
        proof {
            assert(batch_views(self.pending@[i as int].1@) =~= after);
            assert(pending_pairs(self.pending@) =~= pairs.update(
                i as int,
                (pairs[i as int].0, after),
            ));
            lemma_entries_update(pairs, i as int, after);
        }
        if self.pending[i].1.len() == 0 {
            let ghost middle = pending_pairs(self.pending@);
            let _ = self.pending.remove(i);
            proof {
                assert(pending_pairs(self.pending@) =~= middle.remove(i as int));
                lemma_entries_remove(middle, i as int);
                assert(entries_map(pairs).insert(key, after).remove(key) =~= entries_map(
                    pairs,
                ).remove(key));
            }
        }
        Some(submission)
    }
}

/// Response to one query.
pub type GpuSubmissionResponse = OperationResult<Option<Vec<ScoredPointOffset>>>;

/// Text for a wrong number of results.
pub open spec fn wrong_count_text(results: nat, queries: nat) -> Seq<char> {
    "GPU exact batch returned "@ + decimal(results) + " results for "@ + decimal(queries)
        + " queries"@
}

/// The text that `describe` gives for an error.
pub open spec fn described_as<D: Fn(&OperationError) -> String>(
    describe: &D,
    error: OperationError,
    text: Seq<char>,
) -> bool {
    exists|reason: String|
        #![trigger describe.ensures((&error,), reason)]
        describe.ensures((&error,), reason) && text
            == "GPU exact coalesced submission failed: "@ + reason@
}

/// The response to one query of a batch.
pub open spec fn response_to<D: Fn(&OperationError) -> String>(
    result: OperationResult<Option<Vec<Vec<ScoredPointOffset>>>>,
    query_count: nat,
    describe: &D,
    query: int,
    response: GpuSubmissionResponse,
) -> bool {
    match result {
        Ok(Some(results)) => if results@.len() == query_count {
            response matches Ok(Some(points)) && points@ == results@[query]@
        } else {
            failed(response, wrong_count_text(results@.len(), query_count))
        },
        Ok(None) => response matches Ok(None),
        Err(error) => response matches Err(OperationError::ServiceError { description })
            && described_as(describe, error, description@),
    }
}

/// Give every query of a batch its response. `describe` tells what an error says.
pub fn responses<D: Fn(&OperationError) -> String>(
    result: OperationResult<Option<Vec<Vec<ScoredPointOffset>>>>,
    query_count: usize,
    describe: &D,
) -> (r: Vec<GpuSubmissionResponse>)
    requires
        forall|error: &OperationError| #[trigger] describe.requires((error,)),
    ensures
        r@.len() == query_count,
        forall|i: int|
            0 <= i < query_count ==> response_to(
                result,
                query_count as nat,
                describe,
                i,
                #[trigger] r@[i],
            ),
{
    let mut r: Vec<GpuSubmissionResponse> = Vec::new();
    match result {
        Ok(Some(results)) => if results.len() == query_count {
            let ghost given = results@;
            let mut rest = results;
            let mut k: usize = 0;
            while k < query_count
                invariant
                    k <= query_count == given.len(),
                    result == Ok::<Option<Vec<Vec<ScoredPointOffset>>>, OperationError>(
                        Some(results),
                    ),
                    results@ == given,
                    rest@ == given.skip(k as int),
                    r@.len() == k,
                    forall|j: int|
                        0 <= j < k ==> response_to(
                            result,
                            query_count as nat,
                            describe,
                            j,
                            #[trigger] r@[j],
                        ),
                decreases query_count - k,
            {
                let points = rest.remove(0);
                proof {
                    assert(rest@ =~= given.skip(k + 1));
                }
                r.push(Ok(Some(points)));
                k = k + 1;
            }
        } else {
            let mut k: usize = 0;
            let count: usize = results.len();
            while k < query_count
                invariant
                    k <= query_count,
                    count == results@.len(),
                    count != query_count,
                    result == Ok::<Option<Vec<Vec<ScoredPointOffset>>>, OperationError>(
                        Some(results),
                    ),
                    r@.len() == k,
                    forall|j: int|
                        0 <= j < k ==> response_to(
                            result,
                            query_count as nat,
                            describe,
                            j,
                            #[trigger] r@[j],
                        ),
                decreases query_count - k,
            {
                let results_text = decimal_text(count as u64);
                let queries_text = decimal_text(query_count as u64);
                let text = joined(
                    joined(
                        joined(
                            joined("GPU exact batch returned ".to_owned(), results_text.as_str()),
                            " results for ",
                        ),
                        queries_text.as_str(),
                    ),
                    " queries",
                );
                r.push(Err(OperationError::service_error_owned(text)));
                k = k + 1;
            }
        },
        Ok(None) => {
            let mut k: usize = 0;
            while k < query_count
                invariant
                    k <= query_count,
                    result == Ok::<Option<Vec<Vec<ScoredPointOffset>>>, OperationError>(None),
                    r@.len() == k,
                    forall|j: int|
                        0 <= j < k ==> response_to(
                            result,
                            query_count as nat,
                            describe,
                            j,
                            #[trigger] r@[j],
                        ),
                decreases query_count - k,
            {
                r.push(Ok(None));
                k = k + 1;
            }
        },
        Err(error) => {
            let reason = describe(&error);
            let mut k: usize = 0;
            while k < query_count
                invariant
                    k <= query_count,
                    describe.ensures((&error,), reason),
                    result == Err::<Option<Vec<Vec<ScoredPointOffset>>>, OperationError>(error),
                    r@.len() == k,
                    forall|j: int|
                        0 <= j < k ==> response_to(
                            result,
                            query_count as nat,
                            describe,
                            j,
                            #[trigger] r@[j],
                        ),
                decreases query_count - k,
            {
                let text = joined(
                    "GPU exact coalesced submission failed: ".to_owned(),
                    reason.as_str(),
                );
                proof {
                    assert(described_as(describe, error, text@));
                }
                r.push(Err(OperationError::service_error_owned(text)));
                k = k + 1;
            }
        },
    }
    r
}

/// A batch is submitted when it is full or has waited long enough.
pub fn is_ready(query_count: usize, max_queries: usize, waited_ns: u64, window_ns: u64) -> (r: bool)
    ensures
        r == (query_count >= max_queries || waited_ns >= window_ns),
{
    query_count >= max_queries || waited_ns >= window_ns
}

/// The error when no response can come.
pub fn response_channel_closed(reason: &str) -> (error: OperationError)
    ensures
        error matches OperationError::ServiceError { description } && description@
            == "GPU exact coalesced response channel closed: "@ + reason@,
{
    OperationError::service_error_owned(
        joined("GPU exact coalesced response channel closed: ".to_owned(), reason),
    )
}

/// Names of the waiting batches of a key are distinct and were given out before.
pub open spec fn known_ids(state: PendingView) -> bool {
    forall|key: GpuSubmissionBatchKey, i: int, j: int|
        0 <= i < state.batches(key).len() && 0 <= j < state.batches(key).len() ==> {
            &&& (#[trigger] state.batches(key)[i]).id <= state.next_id
            &&& i != j ==> state.batches(key)[i].id != (#[trigger] state.batches(key)[j]).id
        }
}

/// A query that comes is in exactly one batch that waits: the one whose name it gets. Every batch
/// that waited before still waits under its name, with the queries it had.
pub proof fn lemma_join(
    state: PendingView,
    key: GpuSubmissionBatchKey,
    opened: BatchView,
    max_queries: nat,
    query: QueryView,
)
    requires
        known_ids(state),
        state.next_id < u64::MAX,
        opened.queries == seq![query],
    ensures
        ({
            let after = state.joined(key, opened, max_queries);
            let id = if state.has_room(key, max_queries) {
                state.batches(key).last().id
            } else {
                state.fresh_id()
            };
            &&& known_ids(after)
            &&& batch_position(after.batches(key), id) == Some(after.batches(key).len() - 1)
            &&& after.batches(key).last().queries.last() == query
            &&& forall|other: GpuSubmissionBatchKey, i: int|
                0 <= i < state.batches(other).len() ==> {
                    &&& i < after.batches(other).len()
                    &&& (#[trigger] after.batches(other)[i]).id == state.batches(other)[i].id
                    &&& state.batches(other)[i].queries.is_prefix_of(
                        after.batches(other)[i].queries,
                    )
                }
        }),
{
    let after = state.joined(key, opened, max_queries);
    let batches = state.batches(key);
    let now = after.batches(key);
    let room = state.has_room(key, max_queries);
    let id = if room {
        batches.last().id
    } else {
        state.fresh_id()
    };
    assert(after.pending.contains_key(key));
    if room {
        assert(now[now.len() - 1].id == batches[batches.len() - 1].id);
        assert(now.len() == batches.len());
    } else {
        assert(now.len() == batches.len() + 1);
    }
    assert forall|other: GpuSubmissionBatchKey| other != key implies #[trigger] after.batches(
        other,
    ) == state.batches(other) by {
        assert(after.pending.contains_key(other) == state.pending.contains_key(other));
    }
    assert forall|i: int| 0 <= i < batches.len() implies (#[trigger] now[i]).id == batches[i].id
        && batches[i].queries.is_prefix_of(now[i].queries) by {
        if room && i == batches.len() - 1 {
            assert(now[i].queries == batches[i].queries + seq![query]);
        }
    }
    assert forall|other: GpuSubmissionBatchKey, i: int, j: int|
        0 <= i < after.batches(other).len() && 0 <= j < after.batches(other).len() implies (
    #[trigger] after.batches(other)[i]).id <= after.next_id && (i != j ==> after.batches(
        other,
    )[i].id != (#[trigger] after.batches(other)[j]).id) by {
        if other == key {
            if i < batches.len() {
                assert(now[i].id == batches[i].id);
                assert(batches[i].id <= state.next_id);
            }
            if j < batches.len() {
                assert(now[j].id == batches[j].id);
                assert(batches[j].id <= state.next_id);
            }
            if i < batches.len() && j < batches.len() {
                assert(i != j ==> batches[i].id != batches[j].id);
            }
        } else {
            assert(after.batches(other) == state.batches(other));
            assert(state.batches(other)[i].id <= state.next_id);
            assert(i != j ==> state.batches(other)[i].id != state.batches(other)[j].id);
        }
    }
    let last = now.len() - 1;
    assert(now[last].id == id);
    assert forall|j: int| 0 <= j < last implies (#[trigger] now[j]).id != id by {
        assert(after.batches(key)[j].id != after.batches(key)[last].id);
    }
    lemma_position_is(now, id, last);
    assert(now[last].queries.last() == query);
    assert forall|other: GpuSubmissionBatchKey, i: int|
        0 <= i < state.batches(other).len() implies {
        &&& i < after.batches(other).len()
        &&& (#[trigger] after.batches(other)[i]).id == state.batches(other)[i].id
        &&& state.batches(other)[i].queries.is_prefix_of(after.batches(other)[i].queries)
    } by {
        if other == key {
            assert(now[i].id == batches[i].id);
        } else {
            assert(after.batches(other) == state.batches(other));
        }
    }
}

/// Taking a batch out leaves all other batches, under their names and with their queries.
pub proof fn lemma_take(state: PendingView, key: GpuSubmissionBatchKey, id: u64, other_id: u64)
    requires
        known_ids(state),
        batch_position(state.batches(key), id) is Some,
        batch_position(state.batches(key), other_id) is Some,
        other_id != id,
    ensures
        ({
            let i = batch_position(state.batches(key), id)->0;
            let k = batch_position(state.batches(key), other_id)->0;
            let after = state.without(key, i);
            &&& known_ids(after)
            &&& batch_position(after.batches(key), id) is None
            &&& batch_position(after.batches(key), other_id) matches Some(m)
                && after.batches(key)[m] == state.batches(key)[k]
        }),
{
    let batches = state.batches(key);
    let i = batch_position(batches, id)->0;
    let k = batch_position(batches, other_id)->0;
    lemma_batch_position(batches, id);
    lemma_batch_position(batches, other_id);
    let after = state.without(key, i);
    let rest = batches.remove(i);
    let m = if k < i {
        k
    } else {
        k - 1
    };
    assert(rest[m] == batches[k]);
    assert(after.batches(key) == rest);
    assert forall|a: int| 0 <= a < rest.len() implies #[trigger] rest[a] == (if a < i {
        batches[a]
    } else {
        batches[a + 1]
    }) by {}
    assert forall|a: int| 0 <= a < m implies (#[trigger] rest[a]).id != other_id by {
        let x = if a < i {
            a
        } else {
            a + 1
        };
        assert(state.batches(key)[x].id != state.batches(key)[k].id);
    }
    lemma_position_is(rest, other_id, m);
    lemma_batch_position(rest, id);
    assert(batch_position(rest, id) is None) by {
        match batch_position(rest, id) {
            Some(a) => {
                let x = if a < i {
                    a
                } else {
                    a + 1
                };
                assert(rest[a] == batches[x]);
                assert(state.batches(key)[x].id != state.batches(key)[i].id);
            },
            None => {},
        }
    }
    assert forall|other: GpuSubmissionBatchKey, a: int, b: int|
        0 <= a < after.batches(other).len() && 0 <= b < after.batches(other).len() implies (
    #[trigger] after.batches(other)[a]).id <= after.next_id && (a != b ==> after.batches(
        other,
    )[a].id != (#[trigger] after.batches(other)[b]).id) by {
        if other == key {
            let x = if a < i {
                a
            } else {
                a + 1
            };
            let y = if b < i {
                b
            } else {
                b + 1
            };
            assert(rest[a] == batches[x]);
            assert(rest[b] == batches[y]);
            assert(state.batches(key)[x].id <= state.next_id);
            assert(x != y ==> state.batches(key)[x].id != state.batches(key)[y].id);
        } else {
            assert(after.pending.contains_key(other) == state.pending.contains_key(other));
            assert(after.batches(other) == state.batches(other));
            assert(state.batches(other)[a].id <= state.next_id);
            assert(a != b ==> state.batches(other)[a].id != state.batches(other)[b].id);
        }
    }
}

} // verus!
