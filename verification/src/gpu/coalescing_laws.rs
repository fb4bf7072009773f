//! What holds of queries that are submitted together.

use vstd::prelude::*;

use crate::error::{OperationError, OperationResult};
use crate::gpu::exact_context::{
    batch_outcome, buffer_id, can_run, timed, ExactReply, ExactSubmission, ResidentBuffer,
};
use crate::gpu::exact_search::{
    batch_elements, batch_led, coalesced, executed_resident, found, joined_batch, opened_batch,
    waited_for_candidates, waited_for_visibility, CoalescedSearch, ExactCacheView,
};
use crate::gpu::resident::SharedCandidates;
use crate::gpu::search_laws::{
    best_shown, follows_model, knows_deletions, knows_lists, lemma_context_is_exact, shows_enough,
    DeviceModel, Identities,
};
use crate::gpu::search_stats::{attempt_recorded, coalesced_recorded};
use crate::gpu::submission::{
    batch_position, known_ids, lemma_batch_position, lemma_join, response_to, BatchView,
    GpuSubmissionBatchKey, GpuSubmissionResponse, PendingView, QueryView,
};
use crate::gpu::visibility::{hides_deleted, GpuVisibilitySnapshot};
use crate::storage::VectorElementType;
use crate::types::ScoredPointOffset;

verus! {

/// The buffer of deletions that a key stands for. Zero stands for none.
pub open spec fn deletions_of(key: GpuSubmissionBatchKey) -> Option<u64> {
    if key.visibility_buffer == 0 {
        None
    } else {
        Some(key.visibility_buffer)
    }
}

/// The queries of the batch search what the key stands for: the list that lives at its address,
/// which is in the buffer that they read, and the deletions of its buffer.
pub open spec fn searches_for(
    batch: BatchView,
    key: GpuSubmissionBatchKey,
    model: DeviceModel,
    identities: Identities,
    max_queries: nat,
) -> bool {
    &&& batch.points == (identities.lists)(key.candidates)
    &&& (model.buffers)(batch.candidate_buffer) == (identities.lists)(key.candidates)
    &&& batch.visibility_buffer == deletions_of(key)
    &&& 0 < batch.queries.len() <= max_queries
}

/// All queries that wait search what their keys stand for.
pub open spec fn all_search(
    state: PendingView,
    model: DeviceModel,
    identities: Identities,
    max_queries: nat,
) -> bool {
    forall|key: GpuSubmissionBatchKey, i: int|
        0 <= i < state.batches(key).len() ==> searches_for(
            #[trigger] state.batches(key)[i],
            key,
            model,
            identities,
            max_queries,
        )
}

/// The batch with this name waits, and the query is the last one in it.
pub open spec fn waits_in(
    batches: Seq<BatchView>,
    batch_id: u64,
    query: Seq<VectorElementType>,
    response: u64,
    is_leader: bool,
) -> bool {
    exists|i: int|
        {
            &&& 0 <= i < batches.len()
            &&& (#[trigger] batches[i]).id == batch_id
            &&& batches[i].queries.len() > 0
            &&& batches[i].queries.last().query == query
            &&& batches[i].queries.last().response == response
            &&& is_leader == (batches[i].queries.len() == 1)
        }
}

/// A query waits only with others that search the same points without the same deletions and want as
/// many results. It waits under its own name, the first of a batch submits it, and no batch grows
/// beyond its limit.
pub proof fn lemma_query_waits_with_its_like<C: Fn() -> u64>(
    model: DeviceModel,
    identities: Identities,
    query: Seq<VectorElementType>,
    candidates: SharedCandidates,
    top: usize,
    reuse: bool,
    visibility: Option<GpuVisibilitySnapshot>,
    response: u64,
    clock: &C,
    before: ExactCacheView,
    after: ExactCacheView,
    key: GpuSubmissionBatchKey,
    batch_id: u64,
    is_leader: bool,
)
    requires
        coalesced(
            query,
            candidates,
            top,
            reuse,
            visibility,
            response,
            clock,
            before,
            after,
            Ok(CoalescedSearch::Waiting { key, batch_id, is_leader }),
        ),
        known_ids(before.submissions),
        before.submissions.next_id < u64::MAX,
        all_search(before.submissions, model, identities, before.batch_max_queries as nat),
        knows_lists(before.candidates, model, identities),
        knows_deletions(before.visibility, model, identities),
        before.visibility.entry matches Some(entry) ==> entry.buffer != 0,
        candidates.points@ == (identities.lists)(candidates.address),
    ensures
        key.top == top,
        (identities.lists)(key.candidates) == candidates.points@,
        visibility is None ==> deletions_of(key) is None,
        visibility matches Some(snapshot) ==> deletions_of(key) is Some && hides_deleted(
            (model.buffers)(deletions_of(key)->0),
            (identities.deletions)(snapshot.generation, snapshot.point_count),
            snapshot.point_count as int,
        ),
        waits_in(after.submissions.batches(key), batch_id, query, response, is_leader),
        all_search(after.submissions, model, identities, after.batch_max_queries as nat),
        known_ids(after.submissions),
        reuse && before.batch_max_queries > 1 && before.batch_window_us > 0,
{
    let waiting = CoalescedSearch::Waiting { key, batch_id, is_leader };
    let pending = choose|pending: QueryView|
        {
            &&& pending.query == query
            &&& pending.response == response
            &&& timed(clock, pending.resident_candidate_ns)
            &&& timed(clock, pending.resident_visibility_ns)
            &&& #[trigger] joined_batch(
                pending,
                candidates,
                top,
                visibility,
                before,
                after,
                waiting,
            )
        };
    let state = before.submissions;
    let max = before.batch_max_queries as nat;
    let opened = opened_batch(before, candidates, visibility, pending);
    let joined = state.joined(key, opened, max);
    lemma_join(state, key, opened, max, pending);
    let batches = joined.batches(key);
    let last = batches.len() - 1;
    lemma_batch_position(batches, batch_id);
    let own = batches[last];
    if state.has_room(key, max) {
        let previous = state.batches(key)[last];
        assert(searches_for(previous, key, model, identities, max));
        assert(own.queries =~= previous.queries.push(pending));
    } else {
        assert(own.queries =~= seq![pending]);
    }
    assert(searches_for(own, key, model, identities, max));
    assert forall|other: GpuSubmissionBatchKey, i: int|
        0 <= i < joined.batches(other).len() implies searches_for(
        #[trigger] joined.batches(other)[i],
        other,
        model,
        identities,
        max,
    ) by {
        if other == key {
            if i < last {
                assert(joined.batches(other)[i] == state.batches(other)[i]);
            }
        } else {
            assert(joined.batches(other) == state.batches(other));
            assert(searches_for(state.batches(other)[i], other, model, identities, max));
        }
    }
    assert(batches[last].id == batch_id);
}

/// Every query of a batch gets its own response, and when that is a result, it is the best of the
/// points that the query searches. The other batches still wait.
pub proof fn lemma_batch_answers_each_query<
    R: Fn(&ExactSubmission) -> OperationResult<ExactReply>,
    C: Fn() -> u64,
    D: Fn(&OperationError) -> String,
>(
    model: DeviceModel,
    identities: Identities,
    run: &R,
    clock: &C,
    describe: &D,
    key: GpuSubmissionBatchKey,
    batch_id: u64,
    waited_ns: u64,
    i: int,
    before: ExactCacheView,
    after: ExactCacheView,
    r: Seq<(u64, GpuSubmissionResponse)>,
)
    requires
        batch_led(run, clock, describe, key, batch_id, waited_ns, before, after, r),
        known_ids(before.submissions),
        all_search(before.submissions, model, identities, before.batch_max_queries as nat),
        0 <= i < before.submissions.batches(key).len(),
        before.submissions.batches(key)[i].id == batch_id,
        before.contexts.len() > 0,
        can_run(run),
        follows_model(run, model, before.contexts.last()),
        model.hides_behind(),
        shows_enough(
            (identities.lists)(key.candidates),
            model.hidden(deletions_of(key)),
            key.top as nat,
        ),
    ensures
        r.len() == before.submissions.batches(key)[i].queries.len(),
        forall|j: int|
            0 <= j < r.len() ==> {
                let waiting = before.submissions.batches(key)[i].queries[j];
                &&& (#[trigger] r[j]).0 == waiting.response
                &&& !(r[j].1 matches Ok(None))
                &&& r[j].1 matches Ok(Some(points)) ==> points@ == best_shown(
                    model,
                    waiting.query,
                    (identities.lists)(key.candidates),
                    model.hidden(deletions_of(key)),
                    key.top as nat,
                )
            },
        after.submissions.batches(key) == before.submissions.batches(key).remove(i),
        forall|other: GpuSubmissionBatchKey|
            other != key ==> #[trigger] after.submissions.batches(other)
                == before.submissions.batches(other),
        after.contexts == before.contexts,
{
    let batches = before.submissions.batches(key);
    lemma_batch_position(batches, batch_id);
    let position = batch_position(batches, batch_id)->0;
    assert(batches[i].id == batch_id && batches[position].id == batch_id);
    assert(position == i);
    let batch = batches[i];
    assert(searches_for(batch, key, model, identities, before.batch_max_queries as nat));
    let top = key.top as nat;
    let result = choose|result: OperationResult<Option<Vec<Vec<ScoredPointOffset>>>>|
        {
            &&& #[trigger] executed_resident(
                run,
                clock,
                batch_elements(batch),
                batch.points,
                top,
                batch.candidate_buffer,
                batch.visibility_buffer,
                waited_for_candidates(batch.queries),
                waited_for_visibility(batch.queries),
                before.contexts,
                coalesced_recorded(before.stats, batch.queries.len() as usize, waited_ns),
                after.stats,
                result,
            )
            &&& forall|j: int|
                0 <= j < r.len() ==> (#[trigger] r[j]).0 == batch.queries[j].response
                    && response_to(result, batch.queries.len(), describe, j, r[j].1)
        };
    let resident = Some(ResidentBuffer { id: batch.candidate_buffer, hit: true });
    let hidden = match batch.visibility_buffer {
        Some(id) => Some(ResidentBuffer { id, hit: true }),
        None => None,
    };
    let counted = attempt_recorded(
        coalesced_recorded(before.stats, batch.queries.len() as usize, waited_ns),
        true,
    );
    let inner = choose|inner: OperationResult<Vec<Vec<ScoredPointOffset>>>|
        {
            &&& #[trigger] batch_outcome(
                before.contexts.last(),
                run,
                clock,
                batch_elements(batch),
                batch.points,
                top,
                resident,
                hidden,
                waited_for_candidates(batch.queries),
                waited_for_visibility(batch.queries),
                counted,
                after.stats,
                inner,
            )
            &&& found(inner, result)
        };
    assert(buffer_id(hidden) == batch.visibility_buffer);
    if inner is Ok {
        lemma_context_is_exact(
            model,
            before.contexts.last(),
            run,
            clock,
            batch_elements(batch),
            batch.points,
            top,
            resident,
            hidden,
            waited_for_candidates(batch.queries),
            waited_for_visibility(batch.queries),
            counted,
            after.stats,
            inner->Ok_0,
        );
    }
    assert forall|j: int| 0 <= j < r.len() implies {
        let waiting = batch.queries[j];
        &&& (#[trigger] r[j]).0 == waiting.response
        &&& !(r[j].1 matches Ok(None))
        &&& r[j].1 matches Ok(Some(points)) ==> points@ == best_shown(
            model,
            waiting.query,
            (identities.lists)(key.candidates),
            model.hidden(deletions_of(key)),
            top,
        )
    } by {
        assert(response_to(result, batch.queries.len(), describe, j, r[j].1));
        if inner is Ok {
            assert(batch_elements(batch)[j] == batch.queries[j].query);
            assert(inner->Ok_0@[j]@ == inner->Ok_0@[j]@);
        }
    }
    assert(after.submissions.batches(key) =~= batches.remove(i));
}

} // verus!
