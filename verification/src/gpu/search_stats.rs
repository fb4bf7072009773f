//! Counters of exact searches on a device.

use vstd::prelude::*;

use crate::arith::{min_int, saturating_mul_u64};

verus! {

/// A report is due every time the number of queries passes a multiple of this.
pub const REPORT_WINDOW: u64 = 1024;

/// Counters of exact searches. They start again from zero when they overflow.
#[derive(Clone, Copy, Debug, PartialEq, Eq, Structural)]
pub struct GpuExactSearchStats {
    /// Queries since the start.
    pub total_queries: u64,
    /// Queries since the last report.
    pub window_queries: u64,
    /// Scored candidates.
    pub candidates: u64,
    pub predicate_ns: u64,
    pub visibility_ns: u64,
    pub cache_ns: u64,
    pub prepare_ns: u64,
    pub h2d_ns: u64,
    pub gpu_d2h_ns: u64,
    pub command_record_ns: u64,
    pub queue_submit_ns: u64,
    pub fence_wait_ns: u64,
    pub download_ns: u64,
    pub cpu_topk_ns: u64,
    pub resident_candidate_ns: u64,
    pub resident_visibility_ns: u64,
    pub postprocess_ns: u64,
    pub filter_cache_hits: u64,
    pub filter_cache_misses: u64,
    pub resident_candidate_hits: u64,
    pub resident_candidate_misses: u64,
    pub resident_visibility_hits: u64,
    pub resident_visibility_misses: u64,
    pub context_attempts: u64,
    pub context_unavailable: u64,
    pub submission_batches: u64,
    pub submission_queries: u64,
    pub coalesced_batches: u64,
    pub coalesced_queries: u64,
    pub coalescing_wait_ns: u64,
}

/// How often something happened out of how many times.
#[derive(Clone, Copy, Debug, PartialEq, Eq, Structural)]
pub struct Share {
    pub part: u64,
    pub whole: u128,
}

/// What the counters held when a report was due. Averages are over `queries`.
#[derive(Clone, Copy, Debug, PartialEq, Eq, Structural)]
pub struct GpuExactSearchBreakdown {
    pub sequence: u64,
    /// Queries in the window, at least one.
    pub queries: u64,
    pub candidates: u64,
    pub predicate_ns: u64,
    pub visibility_ns: u64,
    pub cache_ns: u64,
    pub prepare_ns: u64,
    pub h2d_ns: u64,
    pub gpu_d2h_ns: u64,
    pub command_record_ns: u64,
    pub queue_submit_ns: u64,
    pub fence_wait_ns: u64,
    pub download_ns: u64,
    pub cpu_topk_ns: u64,
    pub resident_candidate_ns: u64,
    pub resident_visibility_ns: u64,
    pub postprocess_ns: u64,
    /// Hits out of lookups.
    pub filter_cache_hit_rate: Share,
    pub resident_candidate_hit_rate: Share,
    pub resident_visibility_hit_rate: Share,
    /// Unavailable contexts out of attempts.
    pub context_unavailable_rate: Share,
    /// Queries over submissions.
    pub average_submission_batch: Share,
    /// Queries over coalesced submissions.
    pub average_coalesced_batch: Share,
    /// Waiting time over coalesced submissions.
    pub average_coalescing_wait: Share,
}

/// What one submission took.
#[derive(Clone, Copy, Debug, PartialEq, Eq, Structural)]
pub struct SubmissionTimes {
    pub prepare_ns: u64,
    pub h2d_ns: u64,
    pub gpu_d2h_ns: u64,
    pub command_record_ns: u64,
    pub queue_submit_ns: u64,
    pub fence_wait_ns: u64,
    pub download_ns: u64,
    pub cpu_topk_ns: u64,
    pub resident_candidate_ns: u64,
    pub resident_visibility_ns: u64,
}

/// A counter that counts hits, or one that counts misses.
pub open spec fn counted(counter: u64, outcome: Option<bool>, on: bool, amount: u64) -> u64 {
    if outcome == Some(on) {
        counter.wrapping_add(amount)
    } else {
        counter
    }
}

/// The counters after one submission.
pub open spec fn inner_recorded(
    stats: GpuExactSearchStats,
    query_count: usize,
    candidates: usize,
    times: SubmissionTimes,
    resident_candidate_hit: Option<bool>,
    resident_visibility_hit: Option<bool>,
) -> GpuExactSearchStats {
    let n = query_count as u64;
    GpuExactSearchStats {
        candidates: stats.candidates.wrapping_add(
            min_int(candidates as u64 * n, u64::MAX as int) as u64,
        ),
        prepare_ns: stats.prepare_ns.wrapping_add(times.prepare_ns),
        h2d_ns: stats.h2d_ns.wrapping_add(times.h2d_ns),
        gpu_d2h_ns: stats.gpu_d2h_ns.wrapping_add(times.gpu_d2h_ns),
        command_record_ns: stats.command_record_ns.wrapping_add(times.command_record_ns),
        queue_submit_ns: stats.queue_submit_ns.wrapping_add(times.queue_submit_ns),
        fence_wait_ns: stats.fence_wait_ns.wrapping_add(times.fence_wait_ns),
        download_ns: stats.download_ns.wrapping_add(times.download_ns),
        cpu_topk_ns: stats.cpu_topk_ns.wrapping_add(times.cpu_topk_ns),
        resident_candidate_ns: stats.resident_candidate_ns.wrapping_add(times.resident_candidate_ns),
        resident_visibility_ns: stats.resident_visibility_ns.wrapping_add(times.resident_visibility_ns),
        resident_candidate_hits: counted(
            stats.resident_candidate_hits,
            resident_candidate_hit,
            true,
            n,
        ),
        resident_candidate_misses: counted(
            stats.resident_candidate_misses,
            resident_candidate_hit,
            false,
            n,
        ),
        resident_visibility_hits: counted(
            stats.resident_visibility_hits,
            resident_visibility_hit,
            true,
            n,
        ),
        resident_visibility_misses: counted(
            stats.resident_visibility_misses,
            resident_visibility_hit,
            false,
            n,
        ),
        submission_batches: stats.submission_batches.wrapping_add(1),
        submission_queries: stats.submission_queries.wrapping_add(n),
        ..stats
    }
}

/// The number of queries of a call, at least one.
pub open spec fn queries_of_call(query_count: usize) -> u64 {
    if query_count == 0 {
        1
    } else {
        query_count as u64
    }
}

/// The counters after the work around a submission.
pub open spec fn outer_recorded(
    stats: GpuExactSearchStats,
    query_count: usize,
    predicate_ns: u64,
    visibility_ns: u64,
    cache_ns: u64,
    postprocess_ns: u64,
    filter_cache_hit: Option<bool>,
) -> GpuExactSearchStats {
    GpuExactSearchStats {
        predicate_ns: stats.predicate_ns.wrapping_add(predicate_ns),
        visibility_ns: stats.visibility_ns.wrapping_add(visibility_ns),
        cache_ns: stats.cache_ns.wrapping_add(cache_ns),
        postprocess_ns: stats.postprocess_ns.wrapping_add(postprocess_ns),
        filter_cache_hits: counted(
            stats.filter_cache_hits,
            filter_cache_hit,
            true,
            query_count as u64,
        ),
        filter_cache_misses: counted(
            stats.filter_cache_misses,
            filter_cache_hit,
            false,
            query_count as u64,
        ),
        total_queries: stats.total_queries.wrapping_add(queries_of_call(query_count)),
        window_queries: stats.window_queries.wrapping_add(queries_of_call(query_count)),
        ..stats
    }
}

/// A report is due: these are the first queries, or their number passed a multiple of the window.
pub open spec fn report_is_due(before: u64, after: u64) -> bool {
    before == 0 || before / REPORT_WINDOW != after / REPORT_WINDOW
}

/// A share of two counters that together make the whole.
pub open spec fn rate(hits: u64, misses: u64) -> Share {
    Share { part: hits, whole: (hits + misses) as u128 }
}

/// The report on the counters.
pub open spec fn breakdown_of(stats: GpuExactSearchStats) -> GpuExactSearchBreakdown {
    GpuExactSearchBreakdown {
        sequence: stats.total_queries,
        queries: if stats.window_queries == 0 {
            1
        } else {
            stats.window_queries
        },
        candidates: stats.candidates,
        predicate_ns: stats.predicate_ns,
        visibility_ns: stats.visibility_ns,
        cache_ns: stats.cache_ns,
        prepare_ns: stats.prepare_ns,
        h2d_ns: stats.h2d_ns,
        gpu_d2h_ns: stats.gpu_d2h_ns,
        command_record_ns: stats.command_record_ns,
        queue_submit_ns: stats.queue_submit_ns,
        fence_wait_ns: stats.fence_wait_ns,
        download_ns: stats.download_ns,
        cpu_topk_ns: stats.cpu_topk_ns,
        resident_candidate_ns: stats.resident_candidate_ns,
        resident_visibility_ns: stats.resident_visibility_ns,
        postprocess_ns: stats.postprocess_ns,
        filter_cache_hit_rate: rate(stats.filter_cache_hits, stats.filter_cache_misses),
        resident_candidate_hit_rate: rate(
            stats.resident_candidate_hits,
            stats.resident_candidate_misses,
        ),
        resident_visibility_hit_rate: rate(
            stats.resident_visibility_hits,
            stats.resident_visibility_misses,
        ),
        context_unavailable_rate: Share {
            part: stats.context_unavailable,
            whole: stats.context_attempts as u128,
        },
        average_submission_batch: Share {
            part: stats.submission_queries,
            whole: stats.submission_batches as u128,
        },
        average_coalesced_batch: Share {
            part: stats.coalesced_queries,
            whole: stats.coalesced_batches as u128,
        },
        average_coalescing_wait: Share {
            part: stats.coalescing_wait_ns,
            whole: stats.coalesced_batches as u128,
        },
    }
}

/// The counters after a report: all zero but for the number of queries.
pub open spec fn drained(stats: GpuExactSearchStats) -> GpuExactSearchStats {
    GpuExactSearchStats {
        total_queries: stats.total_queries,
        window_queries: 0,
        candidates: 0,
        predicate_ns: 0,
        visibility_ns: 0,
        cache_ns: 0,
        prepare_ns: 0,
        h2d_ns: 0,
        gpu_d2h_ns: 0,
        command_record_ns: 0,
        queue_submit_ns: 0,
        fence_wait_ns: 0,
        download_ns: 0,
        cpu_topk_ns: 0,
        resident_candidate_ns: 0,
        resident_visibility_ns: 0,
        postprocess_ns: 0,
        filter_cache_hits: 0,
        filter_cache_misses: 0,
        resident_candidate_hits: 0,
        resident_candidate_misses: 0,
        resident_visibility_hits: 0,
        resident_visibility_misses: 0,
        context_attempts: 0,
        context_unavailable: 0,
        submission_batches: 0,
        submission_queries: 0,
        coalesced_batches: 0,
        coalesced_queries: 0,
        coalescing_wait_ns: 0,
    }
}

impl Default for GpuExactSearchStats {
    /// All counters at zero.
    fn default() -> (stats: Self)
        ensures
            stats.total_queries == 0,
            stats == drained(stats),
    {
        GpuExactSearchStats {
            total_queries: 0,
            window_queries: 0,
            candidates: 0,
            predicate_ns: 0,
            visibility_ns: 0,
            cache_ns: 0,
            prepare_ns: 0,
            h2d_ns: 0,
            gpu_d2h_ns: 0,
            command_record_ns: 0,
            queue_submit_ns: 0,
            fence_wait_ns: 0,
            download_ns: 0,
            cpu_topk_ns: 0,
            resident_candidate_ns: 0,
            resident_visibility_ns: 0,
            postprocess_ns: 0,
            filter_cache_hits: 0,
            filter_cache_misses: 0,
            resident_candidate_hits: 0,
            resident_candidate_misses: 0,
            resident_visibility_hits: 0,
            resident_visibility_misses: 0,
            context_attempts: 0,
            context_unavailable: 0,
            submission_batches: 0,
            submission_queries: 0,
            coalesced_batches: 0,
            coalesced_queries: 0,
            coalescing_wait_ns: 0,
        }
    }
}

impl GpuExactSearchStats {
    /// Count one submission.
    pub fn record_inner(
        &mut self,
        query_count: usize,
        candidates: usize,
        times: SubmissionTimes,
        resident_candidate_hit: Option<bool>,
        resident_visibility_hit: Option<bool>,
    )
        ensures
            *final(self) == inner_recorded(
                *old(self),
                query_count,
                candidates,
                times,
                resident_candidate_hit,
                resident_visibility_hit,
            ),
    {
        let n: u64 = query_count as u64;
        let scored: u64 = saturating_mul_u64(candidates as u64, n);
        self.candidates = self.candidates.wrapping_add(scored);
        self.prepare_ns = self.prepare_ns.wrapping_add(times.prepare_ns);
        self.h2d_ns = self.h2d_ns.wrapping_add(times.h2d_ns);
        self.gpu_d2h_ns = self.gpu_d2h_ns.wrapping_add(times.gpu_d2h_ns);
        self.command_record_ns = self.command_record_ns.wrapping_add(times.command_record_ns);
        self.queue_submit_ns = self.queue_submit_ns.wrapping_add(times.queue_submit_ns);
        self.fence_wait_ns = self.fence_wait_ns.wrapping_add(times.fence_wait_ns);
        self.download_ns = self.download_ns.wrapping_add(times.download_ns);
        self.cpu_topk_ns = self.cpu_topk_ns.wrapping_add(times.cpu_topk_ns);
        self.resident_candidate_ns = self.resident_candidate_ns.wrapping_add(times.resident_candidate_ns);
        self.resident_visibility_ns = self.resident_visibility_ns.wrapping_add(times.resident_visibility_ns);
        match resident_candidate_hit {
            Some(true) => {
                self.resident_candidate_hits = self.resident_candidate_hits.wrapping_add(n);
            },
            Some(false) => {
                self.resident_candidate_misses = self.resident_candidate_misses.wrapping_add(n);
            },
            None => {},
        }
        match resident_visibility_hit {
            Some(true) => {
                self.resident_visibility_hits = self.resident_visibility_hits.wrapping_add(n);
            },
            Some(false) => {
                self.resident_visibility_misses = self.resident_visibility_misses.wrapping_add(n);
            },
            None => {},
        }
        self.submission_batches = self.submission_batches.wrapping_add(1);
        self.submission_queries = self.submission_queries.wrapping_add(n);
    }

    /// Count the work around a submission. When a report is due, it is returned and the counters
    /// start again.
    pub fn record_outer(
        &mut self,
        query_count: usize,
        predicate_ns: u64,
        visibility_ns: u64,
        cache_ns: u64,
        postprocess_ns: u64,
        filter_cache_hit: Option<bool>,
    ) -> (report: Option<GpuExactSearchBreakdown>)
        ensures
            call_recorded(
                *old(self),
                query_count,
                predicate_ns,
                visibility_ns,
                cache_ns,
                postprocess_ns,
                filter_cache_hit,
                *final(self),
                report,
            ),
    {
        self.predicate_ns = self.predicate_ns.wrapping_add(predicate_ns);
        self.visibility_ns = self.visibility_ns.wrapping_add(visibility_ns);
        self.cache_ns = self.cache_ns.wrapping_add(cache_ns);
        self.postprocess_ns = self.postprocess_ns.wrapping_add(postprocess_ns);
        match filter_cache_hit {
            Some(true) => {
                self.filter_cache_hits = self.filter_cache_hits.wrapping_add(query_count as u64);
            },
            Some(false) => {
                self.filter_cache_misses = self.filter_cache_misses.wrapping_add(
                    query_count as u64,
                );
            },
            None => {},
        }
        let queries: u64 = if query_count == 0 {
            1
        } else {
            query_count as u64
        };
        let previous: u64 = self.total_queries;
        self.total_queries = previous.wrapping_add(queries);
        self.window_queries = self.window_queries.wrapping_add(queries);
        if previous != 0 && previous / REPORT_WINDOW == self.total_queries / REPORT_WINDOW {
            return None;
        }
        Some(self.take_breakdown())
    }

    /// Report on the counters and let them start again.
    fn take_breakdown(&mut self) -> (report: GpuExactSearchBreakdown)
        ensures
            report == breakdown_of(*old(self)),
            *final(self) == drained(*old(self)),
    {
        let report = GpuExactSearchBreakdown {
            sequence: self.total_queries,
            queries: if self.window_queries == 0 {
                1
            } else {
                self.window_queries
            },
            candidates: self.candidates,
            predicate_ns: self.predicate_ns,
            visibility_ns: self.visibility_ns,
            cache_ns: self.cache_ns,
            prepare_ns: self.prepare_ns,
            h2d_ns: self.h2d_ns,
            gpu_d2h_ns: self.gpu_d2h_ns,
            command_record_ns: self.command_record_ns,
            queue_submit_ns: self.queue_submit_ns,
            fence_wait_ns: self.fence_wait_ns,
            download_ns: self.download_ns,
            cpu_topk_ns: self.cpu_topk_ns,
            resident_candidate_ns: self.resident_candidate_ns,
            resident_visibility_ns: self.resident_visibility_ns,
            postprocess_ns: self.postprocess_ns,
            filter_cache_hit_rate: Share {
                part: self.filter_cache_hits,
                whole: self.filter_cache_hits as u128 + self.filter_cache_misses as u128,
            },
            resident_candidate_hit_rate: Share {
                part: self.resident_candidate_hits,
                whole: self.resident_candidate_hits as u128
                    + self.resident_candidate_misses as u128,
            },
            resident_visibility_hit_rate: Share {
                part: self.resident_visibility_hits,
                whole: self.resident_visibility_hits as u128
                    + self.resident_visibility_misses as u128,
            },
            context_unavailable_rate: Share {
                part: self.context_unavailable,
                whole: self.context_attempts as u128,
            },
            average_submission_batch: Share {
                part: self.submission_queries,
                whole: self.submission_batches as u128,
            },
            average_coalesced_batch: Share {
                part: self.coalesced_queries,
                whole: self.coalesced_batches as u128,
            },
            average_coalescing_wait: Share {
                part: self.coalescing_wait_ns,
                whole: self.coalesced_batches as u128,
            },
        };
        let total_queries: u64 = self.total_queries;
        *self = GpuExactSearchStats::default();
        self.total_queries = total_queries;
        report
    }

    /// Count an attempt to get a context.
    pub fn record_attempt(&mut self, available: bool)
        ensures
            *final(self) == attempt_recorded(*old(self), available),
    {
        self.context_attempts = self.context_attempts.wrapping_add(1);
        if !available {
            self.context_unavailable = self.context_unavailable.wrapping_add(1);
        }
    }

    /// Count a coalesced submission.
    pub fn record_coalesced(&mut self, queries: usize, wait_ns: u64)
        ensures
            *final(self) == coalesced_recorded(*old(self), queries, wait_ns),
    {
        self.coalesced_batches = self.coalesced_batches.wrapping_add(1);
        self.coalesced_queries = self.coalesced_queries.wrapping_add(queries as u64);
        self.coalescing_wait_ns = self.coalescing_wait_ns.wrapping_add(wait_ns);
    }
}

/// The work around a submission was counted, and a report was given if it was due.
pub open spec fn call_recorded(
    before: GpuExactSearchStats,
    query_count: usize,
    predicate_ns: u64,
    visibility_ns: u64,
    cache_ns: u64,
    postprocess_ns: u64,
    filter_cache_hit: Option<bool>,
    after: GpuExactSearchStats,
    report: Option<GpuExactSearchBreakdown>,
) -> bool {
    let counted = outer_recorded(
        before,
        query_count,
        predicate_ns,
        visibility_ns,
        cache_ns,
        postprocess_ns,
        filter_cache_hit,
    );
    if report_is_due(before.total_queries, counted.total_queries) {
        report == Some(breakdown_of(counted)) && after == drained(counted)
    } else {
        report is None && after == counted
    }
}

/// The counters after an attempt to get a context.
pub open spec fn attempt_recorded(
    stats: GpuExactSearchStats,
    available: bool,
) -> GpuExactSearchStats {
    GpuExactSearchStats {
        context_attempts: stats.context_attempts.wrapping_add(1),
        context_unavailable: if available {
            stats.context_unavailable
        } else {
            stats.context_unavailable.wrapping_add(1)
        },
        ..stats
    }
}

/// The counters after a coalesced submission.
pub open spec fn coalesced_recorded(
    stats: GpuExactSearchStats,
    queries: usize,
    wait_ns: u64,
) -> GpuExactSearchStats {
    GpuExactSearchStats {
        coalesced_batches: stats.coalesced_batches.wrapping_add(1),
        coalesced_queries: stats.coalesced_queries.wrapping_add(queries as u64),
        coalescing_wait_ns: stats.coalescing_wait_ns.wrapping_add(wait_ns),
        ..stats
    }
}

} // verus!
