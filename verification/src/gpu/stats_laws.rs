//! What reports on exact searches tell.

use vstd::prelude::*;

use crate::gpu::search_stats::{
    attempt_recorded, breakdown_of, call_recorded, coalesced_recorded, drained, inner_recorded,
    outer_recorded, GpuExactSearchBreakdown, GpuExactSearchStats, SubmissionTimes,
};

verus! {

/// A submission that was counted.
pub ghost struct Submission {
    pub query_count: usize,
    pub candidates: usize,
    pub times: SubmissionTimes,
    pub candidate_hit: Option<bool>,
    pub visibility_hit: Option<bool>,
}

/// A call that was counted.
pub ghost struct Call {
    pub query_count: usize,
    pub predicate_ns: u64,
    pub visibility_ns: u64,
    pub cache_ns: u64,
    pub postprocess_ns: u64,
    pub filter_cache_hit: Option<bool>,
}

/// Something that was counted.
pub ghost enum Counted {
    Submission(Submission),
    Call(Call),
    Attempt { available: bool },
    Coalesced { query_count: usize, wait_ns: u64 },
}

/// The counters after one more thing, as long as no report is given.
pub open spec fn after_one(stats: GpuExactSearchStats, event: Counted) -> GpuExactSearchStats {
    match event {
        Counted::Submission(submission) => inner_recorded(
            stats,
            submission.query_count,
            submission.candidates,
            submission.times,
            submission.candidate_hit,
            submission.visibility_hit,
        ),
        Counted::Call(call) => outer_recorded(
            stats,
            call.query_count,
            call.predicate_ns,
            call.visibility_ns,
            call.cache_ns,
            call.postprocess_ns,
            call.filter_cache_hit,
        ),
        Counted::Attempt { available } => attempt_recorded(stats, available),
        Counted::Coalesced { query_count, wait_ns } => coalesced_recorded(
            stats,
            query_count,
            wait_ns,
        ),
    }
}

/// The counters after the first things.
pub open spec fn after_all(
    stats: GpuExactSearchStats,
    events: Seq<Counted>,
    n: nat,
) -> GpuExactSearchStats
    decreases n,
{
    if n == 0 {
        stats
    } else {
        after_one(after_all(stats, events, (n - 1) as nat), events[n - 1])
    }
}

/// The sum over the first things.
pub open spec fn sum_of(events: Seq<Counted>, part: spec_fn(Counted) -> u64, n: nat) -> nat
    decreases n,
{
    if n == 0 {
        0
    } else {
        sum_of(events, part, (n - 1) as nat) + part(events[n - 1]) as nat
    }
}

/// The number is the sum over all things, as far as it fits.
pub open spec fn adds_up(
    number: u64,
    events: Seq<Counted>,
    part: spec_fn(Counted) -> u64,
) -> bool {
    sum_of(events, part, events.len()) <= u64::MAX ==> number == sum_of(events, part, events.len())
}

/// What is counted of submissions.
pub open spec fn in_submissions(part: spec_fn(Submission) -> u64) -> spec_fn(Counted) -> u64 {
    |event: Counted|
        match event {
            Counted::Submission(submission) => part(submission),
            _ => 0,
        }
}

/// What is counted of calls.
pub open spec fn in_calls(part: spec_fn(Call) -> u64) -> spec_fn(Counted) -> u64 {
    |event: Counted|
        match event {
            Counted::Call(call) => part(call),
            _ => 0,
        }
}

/// Queries of a call, at least one.
pub open spec fn asked(call: Call) -> u64 {
    if call.query_count == 0 {
        1
    } else {
        call.query_count as u64
    }
}

/// Candidates that a submission scored for all its queries, as far as they can be counted.
pub open spec fn scored(submission: Submission) -> u64 {
    let pairs = submission.candidates * submission.query_count;
    if pairs <= u64::MAX {
        pairs as u64
    } else {
        u64::MAX
    }
}

/// Queries for which a lookup was a hit.
pub open spec fn hits(hit: Option<bool>, query_count: usize) -> u64 {
    if hit == Some(true) {
        query_count as u64
    } else {
        0
    }
}

/// Queries that were submitted together.
pub open spec fn queries_together() -> spec_fn(Counted) -> u64 {
    |event: Counted|
        match event {
            Counted::Coalesced { query_count, .. } => query_count as u64,
            _ => 0,
        }
}

/// Time that submissions waited for more queries.
pub open spec fn waited_together() -> spec_fn(Counted) -> u64 {
    |event: Counted|
        match event {
            Counted::Coalesced { wait_ns, .. } => wait_ns,
            _ => 0,
        }
}

/// Attempts that found no context.
pub open spec fn in_vain() -> spec_fn(Counted) -> u64 {
    |event: Counted|
        match event {
            Counted::Attempt { available } => if available {
                0
            } else {
                1
            },
            _ => 0,
        }
}

/// A counter that adds a part of everything holds the sum.
proof fn lemma_sum(
    start: GpuExactSearchStats,
    events: Seq<Counted>,
    counter: spec_fn(GpuExactSearchStats) -> u64,
    part: spec_fn(Counted) -> u64,
    n: nat,
)
    requires
        n <= events.len(),
        counter(start) == 0,
        forall|stats: GpuExactSearchStats, event: Counted| #[trigger]
            counter(after_one(stats, event)) == counter(stats).wrapping_add(part(event)),
    ensures
        sum_of(events, part, n) <= u64::MAX ==> counter(after_all(start, events, n)) == sum_of(
            events,
            part,
            n,
        ),
    decreases n,
{
    if n > 0 {
        lemma_sum(start, events, counter, part, (n - 1) as nat);
        let before = after_all(start, events, (n - 1) as nat);
        assert(counter(after_one(before, events[n - 1])) == counter(before).wrapping_add(
            part(events[n - 1]),
        ));
    }
}

/// A counter that adds a part of everything adds up.
proof fn lemma_adds_up(
    start: GpuExactSearchStats,
    events: Seq<Counted>,
    counter: spec_fn(GpuExactSearchStats) -> u64,
    part: spec_fn(Counted) -> u64,
)
    requires
        counter(start) == 0,
        forall|stats: GpuExactSearchStats, event: Counted| #[trigger]
            counter(after_one(stats, event)) == counter(stats).wrapping_add(part(event)),
    ensures
        adds_up(counter(after_all(start, events, events.len())), events, part),
{
    lemma_sum(start, events, counter, part, events.len());
}

/// A report tells what was counted since the last one: times, scored candidates, and how many lookups
/// hit, each the sum over all submissions and calls in between, the last call included. After it the
/// counters start again, but for the number of all queries.
#[verifier::rlimit(50)]
pub proof fn lemma_report_adds_up(
    start: GpuExactSearchStats,
    events: Seq<Counted>,
    call: Call,
    after: GpuExactSearchStats,
    report: GpuExactSearchBreakdown,
)
    requires
        start == drained(start),
        events.len() > 0,
        events.last() == Counted::Call(call),
        call_recorded(
            after_all(start, events, (events.len() - 1) as nat),
            call.query_count,
            call.predicate_ns,
            call.visibility_ns,
            call.cache_ns,
            call.postprocess_ns,
            call.filter_cache_hit,
            after,
            Some(report),
        ),
    ensures
        adds_up(
            report.prepare_ns,
            events,
            in_submissions(|submission: Submission| submission.times.prepare_ns),
        ),
        adds_up(
            report.h2d_ns,
            events,
            in_submissions(|submission: Submission| submission.times.h2d_ns),
        ),
        adds_up(
            report.gpu_d2h_ns,
            events,
            in_submissions(|submission: Submission| submission.times.gpu_d2h_ns),
        ),
        adds_up(
            report.command_record_ns,
            events,
            in_submissions(|submission: Submission| submission.times.command_record_ns),
        ),
        adds_up(
            report.queue_submit_ns,
            events,
            in_submissions(|submission: Submission| submission.times.queue_submit_ns),
        ),
        adds_up(
            report.fence_wait_ns,
            events,
            in_submissions(|submission: Submission| submission.times.fence_wait_ns),
        ),
        adds_up(
            report.download_ns,
            events,
            in_submissions(|submission: Submission| submission.times.download_ns),
        ),
        adds_up(
            report.cpu_topk_ns,
            events,
            in_submissions(|submission: Submission| submission.times.cpu_topk_ns),
        ),
        adds_up(
            report.resident_candidate_ns,
            events,
            in_submissions(|submission: Submission| submission.times.resident_candidate_ns),
        ),
        adds_up(
            report.resident_visibility_ns,
            events,
            in_submissions(|submission: Submission| submission.times.resident_visibility_ns),
        ),
        adds_up(report.predicate_ns, events, in_calls(|call: Call| call.predicate_ns)),
        adds_up(report.visibility_ns, events, in_calls(|call: Call| call.visibility_ns)),
        adds_up(report.cache_ns, events, in_calls(|call: Call| call.cache_ns)),
        adds_up(report.postprocess_ns, events, in_calls(|call: Call| call.postprocess_ns)),
        adds_up(report.queries, events, in_calls(|call: Call| asked(call))),
        adds_up(
            report.candidates,
            events,
            in_submissions(|submission: Submission| scored(submission)),
        ),
        adds_up(
            report.filter_cache_hit_rate.part,
            events,
            in_calls(|call: Call| hits(call.filter_cache_hit, call.query_count)),
        ),
        adds_up(
            report.resident_candidate_hit_rate.part,
            events,
            in_submissions(
                |submission: Submission| hits(submission.candidate_hit, submission.query_count),
            ),
        ),
        adds_up(
            report.resident_visibility_hit_rate.part,
            events,
            in_submissions(
                |submission: Submission| hits(submission.visibility_hit, submission.query_count),
            ),
        ),
        adds_up(
            report.average_submission_batch.part,
            events,
            in_submissions(|submission: Submission| submission.query_count as u64),
        ),
        adds_up(report.average_coalesced_batch.part, events, queries_together()),
        adds_up(report.average_coalescing_wait.part, events, waited_together()),
        adds_up(report.context_unavailable_rate.part, events, in_vain()),
        after == drained(after),
        after.total_queries == report.sequence,
        start.window_queries == 0 && start.candidates == 0 && start.prepare_ns == 0,
{
    let counted = after_all(start, events, events.len());
    assert(report == breakdown_of(counted));
    lemma_adds_up(
        start,
        events,
        |stats: GpuExactSearchStats| stats.prepare_ns,
        in_submissions(|submission: Submission| submission.times.prepare_ns),
    );
    lemma_adds_up(
        start,
        events,
        |stats: GpuExactSearchStats| stats.h2d_ns,
        in_submissions(|submission: Submission| submission.times.h2d_ns),
    );
    lemma_adds_up(
        start,
        events,
        |stats: GpuExactSearchStats| stats.gpu_d2h_ns,
        in_submissions(|submission: Submission| submission.times.gpu_d2h_ns),
    );
    lemma_adds_up(
        start,
        events,
        |stats: GpuExactSearchStats| stats.command_record_ns,
        in_submissions(|submission: Submission| submission.times.command_record_ns),
    );
    lemma_adds_up(
        start,
        events,
        |stats: GpuExactSearchStats| stats.queue_submit_ns,
        in_submissions(|submission: Submission| submission.times.queue_submit_ns),
    );
    lemma_adds_up(
        start,
        events,
        |stats: GpuExactSearchStats| stats.fence_wait_ns,
        in_submissions(|submission: Submission| submission.times.fence_wait_ns),
    );
    lemma_adds_up(
        start,
        events,
        |stats: GpuExactSearchStats| stats.download_ns,
        in_submissions(|submission: Submission| submission.times.download_ns),
    );
    lemma_adds_up(
        start,
        events,
        |stats: GpuExactSearchStats| stats.cpu_topk_ns,
        in_submissions(|submission: Submission| submission.times.cpu_topk_ns),
    );
    lemma_adds_up(
        start,
        events,
        |stats: GpuExactSearchStats| stats.resident_candidate_ns,
        in_submissions(|submission: Submission| submission.times.resident_candidate_ns),
    );
    lemma_adds_up(
        start,
        events,
        |stats: GpuExactSearchStats| stats.resident_visibility_ns,
        in_submissions(|submission: Submission| submission.times.resident_visibility_ns),
    );
    lemma_adds_up(
        start,
        events,
        |stats: GpuExactSearchStats| stats.predicate_ns,
        in_calls(|call: Call| call.predicate_ns),
    );
    lemma_adds_up(
        start,
        events,
        |stats: GpuExactSearchStats| stats.visibility_ns,
        in_calls(|call: Call| call.visibility_ns),
    );
    lemma_adds_up(
        start,
        events,
        |stats: GpuExactSearchStats| stats.cache_ns,
        in_calls(|call: Call| call.cache_ns),
    );
    lemma_adds_up(
        start,
        events,
        |stats: GpuExactSearchStats| stats.postprocess_ns,
        in_calls(|call: Call| call.postprocess_ns),
    );
    lemma_adds_up(
        start,
        events,
        |stats: GpuExactSearchStats| stats.window_queries,
        in_calls(|call: Call| asked(call)),
    );
    lemma_adds_up(
        start,
        events,
        |stats: GpuExactSearchStats| stats.candidates,
        in_submissions(|submission: Submission| scored(submission)),
    );
    lemma_adds_up(
        start,
        events,
        |stats: GpuExactSearchStats| stats.filter_cache_hits,
        in_calls(|call: Call| hits(call.filter_cache_hit, call.query_count)),
    );
    lemma_adds_up(
        start,
        events,
        |stats: GpuExactSearchStats| stats.resident_candidate_hits,
        in_submissions(
            |submission: Submission| hits(submission.candidate_hit, submission.query_count),
        ),
    );
    lemma_adds_up(
        start,
        events,
        |stats: GpuExactSearchStats| stats.resident_visibility_hits,
        in_submissions(
            |submission: Submission| hits(submission.visibility_hit, submission.query_count),
        ),
    );
    lemma_adds_up(
        start,
        events,
        |stats: GpuExactSearchStats| stats.submission_queries,
        in_submissions(|submission: Submission| submission.query_count as u64),
    );
    lemma_adds_up(start, events, |stats: GpuExactSearchStats| stats.coalesced_queries, queries_together());
    lemma_adds_up(start, events, |stats: GpuExactSearchStats| stats.coalescing_wait_ns, waited_together());
    lemma_adds_up(start, events, |stats: GpuExactSearchStats| stats.context_unavailable, in_vain());
}

/// A report is given with the first queries, and then each time that the number of all queries
/// reaches or passes a multiple of 1024.
pub proof fn lemma_reports_are_due(
    before: GpuExactSearchStats,
    call: Call,
    after: GpuExactSearchStats,
    report: Option<GpuExactSearchBreakdown>,
)
    requires
        call_recorded(
            before,
            call.query_count,
            call.predicate_ns,
            call.visibility_ns,
            call.cache_ns,
            call.postprocess_ns,
            call.filter_cache_hit,
            after,
            report,
        ),
        before.total_queries + asked(call) <= u64::MAX,
    ensures
        after.total_queries == before.total_queries + asked(call),
        report is Some <==> before.total_queries == 0 || exists|k: int|
            before.total_queries < #[trigger] (k * 1024) <= after.total_queries,
{
    let a = before.total_queries as int;
    let b = a + asked(call);
    assert(after.total_queries == b);
    let q = a / 1024;
    let k = b / 1024;
    assert(q * 1024 <= a < q * 1024 + 1024);
    assert(k * 1024 <= b < k * 1024 + 1024);
    if q != k {
        assert(before.total_queries < k * 1024 <= after.total_queries);
    }
    if exists|m: int| before.total_queries < #[trigger] (m * 1024) <= after.total_queries {
        let m = choose|m: int| before.total_queries < #[trigger] (m * 1024) <= after.total_queries;
        assert(q < m <= k);
    }
}

} // verus!
