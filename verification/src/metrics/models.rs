//! Per-request and per-run counters: the integer side of the metrics.

use std::collections::HashMap;
use vstd::prelude::*;
use crate::api::models::FinishReason;

verus! {

/// What the benchmark counts of one request (one turn of a session).
#[derive(Clone, Copy, Debug, Default, PartialEq, Eq, Structural)]
pub struct MetricCounts {
    pub number_input_tokens: u32,
    pub number_output_tokens: u32,
    pub number_total_tokens: u32,
    /// Prompt tokens the provider reported as served from its cache.
    pub cached_tokens: Option<u32>,
    /// HTTP status of a failed request.
    pub error_code: Option<u16>,
    pub finish_reason: Option<FinishReason>,
    /// Turn index (0-based). Always 0 for single-turn mode.
    pub turn_index: usize,
}


impl MetricCounts {
    /// The counts known before a request is sent: the planned input and
    /// output tokens and their sum.
    pub fn for_turn(prompt_tokens: u32, output_tokens: u32, turn_index: usize) -> (m: MetricCounts)
        requires
            prompt_tokens + output_tokens <= u32::MAX,
        ensures
            m.number_input_tokens == prompt_tokens,
            m.number_output_tokens == output_tokens,
            m.number_total_tokens == prompt_tokens + output_tokens,
            m.cached_tokens is None,
            m.error_code is None,
            m.finish_reason is None,
            m.turn_index == turn_index,
    {
        MetricCounts {
            number_input_tokens: prompt_tokens,
            number_output_tokens: output_tokens,
            number_total_tokens: prompt_tokens + output_tokens,
            cached_tokens: None,
            error_code: None,
            finish_reason: None,
            turn_index,
        }
    }

    /// Sets the total to the input plus the output tokens, as a finished
    /// turn reports it whatever total the endpoint sent.
    pub fn recompute_total(&mut self)
        requires
            old(self).number_input_tokens + old(self).number_output_tokens <= u32::MAX,
        ensures
            *final(self) == (MetricCounts {
                number_total_tokens: (old(self).number_input_tokens
                    + old(self).number_output_tokens) as u32,
                ..*old(self)
            }),
    {
        self.number_total_tokens = self.number_input_tokens + self.number_output_tokens;
    }
}

/// How many accepted requests ended with each finish reason.
#[derive(Clone, Copy, Debug, Default, PartialEq, Eq, Structural)]
pub struct FinishReasonCounts {
    pub stop: u32,
    pub length: u32,
    pub content_filter: u32,
    pub other: u32,
}

pub open spec fn finish_count(c: FinishReasonCounts, r: FinishReason) -> u32 {
    match r {
        FinishReason::Stop => c.stop,
        FinishReason::Length => c.length,
        FinishReason::ContentFilter => c.content_filter,
        FinishReason::Other => c.other,
    }
}

pub open spec fn bump_finish(c: FinishReasonCounts, r: FinishReason) -> FinishReasonCounts {
    match r {
        FinishReason::Stop => FinishReasonCounts { stop: (c.stop + 1) as u32, ..c },
        FinishReason::Length => FinishReasonCounts { length: (c.length + 1) as u32, ..c },
        FinishReason::ContentFilter => FinishReasonCounts {
            content_filter: (c.content_filter + 1) as u32,
            ..c
        },
        FinishReason::Other => FinishReasonCounts { other: (c.other + 1) as u32, ..c },
    }
}

impl FinishReasonCounts {
    /// The count of one reason.
    pub fn get(&self, r: FinishReason) -> (n: u32)
        ensures
            n == finish_count(*self, r),
    {
        match r {
            FinishReason::Stop => self.stop,
            FinishReason::Length => self.length,
            FinishReason::ContentFilter => self.content_filter,
            FinishReason::Other => self.other,
        }
    }
}

/// `a + b`, or `u64::MAX` where the sum does not fit.
pub open spec fn sat_add(a: u64, b: int) -> u64 {
    if a + b > u64::MAX {
        u64::MAX
    } else {
        (a + b) as u64
    }
}

/// The summary's counters as plain values.
pub struct SummaryView {
    pub input_tokens: Seq<u32>,
    pub output_tokens: Seq<u32>,
    pub error_code_frequency: Map<u16, u32>,
    pub finish_reasons: FinishReasonCounts,
    pub number_errors: u32,
    pub multi_turn: u32,
    pub cached_tokens_sum: u64,
    pub cached_tokens_observed: bool,
    pub prior_turn_tokens_sum: u64,
}

/// The turn is its session's last: nothing of it is sent again later.
pub open spec fn is_last_turn(multi_turn: u32, m: MetricCounts) -> bool {
    m.turn_index + 1 >= multi_turn
}

pub open spec fn error_count(freq: Map<u16, u32>, code: u16) -> u32 {
    if freq.contains_key(code) {
        freq[code]
    } else {
        0
    }
}

/// What adding one request's counts does. A failed request (one with an
/// error code) only counts its error. Any other contributes its token counts
/// and finish reason, its cached tokens (when reported) to the cache
/// numerator, and its total tokens to the cache denominator unless it is its
/// session's last turn.
pub open spec fn spec_add_metric(v: SummaryView, m: MetricCounts) -> SummaryView {
    match m.error_code {
        Some(code) => SummaryView {
            error_code_frequency: v.error_code_frequency.insert(
                code,
                (error_count(v.error_code_frequency, code) + 1) as u32,
            ),
            number_errors: (v.number_errors + 1) as u32,
            ..v
        },
        None => SummaryView {
            input_tokens: v.input_tokens.push(m.number_input_tokens),
            output_tokens: v.output_tokens.push(m.number_output_tokens),
            finish_reasons: match m.finish_reason {
                Some(r) => bump_finish(v.finish_reasons, r),
                None => v.finish_reasons,
            },
            cached_tokens_sum: match m.cached_tokens {
                Some(c) => sat_add(v.cached_tokens_sum, c as int),
                None => v.cached_tokens_sum,
            },
            cached_tokens_observed: v.cached_tokens_observed || m.cached_tokens is Some,
            prior_turn_tokens_sum: if is_last_turn(v.multi_turn, m) {
                v.prior_turn_tokens_sum
            } else {
                sat_add(v.prior_turn_tokens_sum, m.number_total_tokens as int)
            },
            ..v
        },
    }
}

/// Adding `m` overflows no `u32` counter.
pub open spec fn room_for(v: SummaryView, m: MetricCounts) -> bool {
    match m.error_code {
        Some(code) => v.number_errors < u32::MAX,
        None => match m.finish_reason {
            Some(r) => finish_count(v.finish_reasons, r) < u32::MAX,
            None => true,
        },
    }
}

/// Adding the requests' counts one after another.
pub open spec fn spec_add_metrics(v: SummaryView, ms: Seq<MetricCounts>) -> SummaryView
    decreases ms.len(),
{
    if ms.len() == 0 {
        v
    } else {
        spec_add_metric(spec_add_metrics(v, ms.drop_last()), ms.last())
    }
}

pub open spec fn room_for_all(v: SummaryView, ms: Seq<MetricCounts>) -> bool
    decreases ms.len(),
{
    ms.len() == 0 || (room_for_all(v, ms.drop_last()) && room_for(
        spec_add_metrics(v, ms.drop_last()),
        ms.last(),
    ))
}

/// Every per-code error count is at most the number of errors.
pub open spec fn summary_wf(v: SummaryView) -> bool {
    forall|k: u16| v.error_code_frequency.contains_key(k) ==> #[trigger] v.error_code_frequency[k]
        <= v.number_errors
}

/// The cache hit rate as `(numerator, denominator)`: defined when some
/// accepted request reported cached tokens and the re-sent history is not
/// empty.
pub open spec fn spec_cache_ratio(v: SummaryView) -> Option<(u64, u64)> {
    if v.cached_tokens_observed && v.prior_turn_tokens_sum > 0 {
        Some((v.cached_tokens_sum, v.prior_turn_tokens_sum))
    } else {
        None
    }
}

/// Integer counters of a benchmark run, filled request by request.
pub struct SummaryCounts {
    pub input_tokens_vec: Vec<u32>,
    pub output_tokens_vec: Vec<u32>,
    pub error_code_frequency: HashMap<u16, u32>,
    pub finish_reasons: FinishReasonCounts,
    pub number_errors: u32,
    /// Turns per session; decides which turn is a session's last.
    pub multi_turn: u32,
    /// Cached prompt tokens reported over accepted requests.
    pub cached_tokens_sum: u64,
    /// Some accepted request reported its cached tokens.
    pub cached_tokens_observed: bool,
    /// Total tokens of accepted requests that are not their session's last turn.
    pub prior_turn_tokens_sum: u64,
}

impl View for SummaryCounts {
    type V = SummaryView;

    open spec fn view(&self) -> SummaryView {
        SummaryView {
            input_tokens: self.input_tokens_vec@,
            output_tokens: self.output_tokens_vec@,
            error_code_frequency: self.error_code_frequency@,
            finish_reasons: self.finish_reasons,
            number_errors: self.number_errors,
            multi_turn: self.multi_turn,
            cached_tokens_sum: self.cached_tokens_sum,
            cached_tokens_observed: self.cached_tokens_observed,
            prior_turn_tokens_sum: self.prior_turn_tokens_sum,
        }
    }
}

impl SummaryCounts {
    pub fn new() -> (s: SummaryCounts)
        ensures
            s@.input_tokens == Seq::<u32>::empty(),
            s@.output_tokens == Seq::<u32>::empty(),
            s@.error_code_frequency == Map::<u16, u32>::empty(),
            s@.finish_reasons == (FinishReasonCounts {
                stop: 0,
                length: 0,
                content_filter: 0,
                other: 0,
            }),
            s@.number_errors == 0,
            s@.multi_turn == 0,
            s@.cached_tokens_sum == 0,
            !s@.cached_tokens_observed,
            s@.prior_turn_tokens_sum == 0,
            summary_wf(s@),
    {
        SummaryCounts {
            input_tokens_vec: Vec::new(),
            output_tokens_vec: Vec::new(),
            error_code_frequency: HashMap::new(),
            finish_reasons: FinishReasonCounts { stop: 0, length: 0, content_filter: 0, other: 0 },
            number_errors: 0,
            multi_turn: 0,
            cached_tokens_sum: 0,
            cached_tokens_observed: false,
            prior_turn_tokens_sum: 0,
        }
    }

    /// Sets the number of turns per session.
    pub fn set_multi_turn(&mut self, multi_turn: u32)
        ensures
            final(self)@ == (SummaryView { multi_turn, ..old(self)@ }),
    {
        self.multi_turn = multi_turn;
    }

    /// Adds one request's counts; returns whether the request is accepted
    /// (it carries no error code), that is whether its timings belong in the
    /// summary too.
    pub fn add_metric(&mut self, metric: &MetricCounts) -> (accepted: bool)
        requires
            summary_wf(old(self)@),
            room_for(old(self)@, *metric),
        ensures
            accepted == (metric.error_code is None),
            final(self)@ == spec_add_metric(old(self)@, *metric),
            summary_wf(final(self)@),
    {
        broadcast use vstd::std_specs::hash::group_hash_axioms;

        if let Some(code) = metric.error_code {
            let current: u32 = match self.error_code_frequency.get(&code) {
                Some(n) => *n,
                None => 0,
            };
            assert(current == error_count(old(self)@.error_code_frequency, code));
            self.error_code_frequency.insert(code, current + 1);
            self.number_errors = self.number_errors + 1;
            assert forall|k: u16| self@.error_code_frequency.contains_key(k) implies #[trigger] self@.error_code_frequency[k]
                <= self@.number_errors by {
                if k != code {
                    assert(old(self)@.error_code_frequency.contains_key(k));
                }
            }
            assert(summary_wf(self@));
            false
        } else {
            self.input_tokens_vec.push(metric.number_input_tokens);
            self.output_tokens_vec.push(metric.number_output_tokens);
            if let Some(r) = metric.finish_reason {
                match r {
                    FinishReason::Stop => {
                        self.finish_reasons.stop = self.finish_reasons.stop + 1;
                    },
                    FinishReason::Length => {
                        self.finish_reasons.length = self.finish_reasons.length + 1;
                    },
                    FinishReason::ContentFilter => {
                        self.finish_reasons.content_filter = self.finish_reasons.content_filter
                            + 1;
                    },
                    FinishReason::Other => {
                        self.finish_reasons.other = self.finish_reasons.other + 1;
                    },
                }
            }
            if let Some(c) = metric.cached_tokens {
                self.cached_tokens_sum = self.cached_tokens_sum.saturating_add(c as u64);
                self.cached_tokens_observed = true;
            }
            if (metric.turn_index as u64) < u64::MAX && (metric.turn_index as u64 + 1) < (
            self.multi_turn as u64) {
                self.prior_turn_tokens_sum = self.prior_turn_tokens_sum.saturating_add(
                    metric.number_total_tokens as u64,
                );
            }
            assert(self@.error_code_frequency == old(self)@.error_code_frequency);
            assert(self@.number_errors == old(self)@.number_errors);
            assert(summary_wf(self@));
            true
        }
    }

    /// Adds the requests' counts in order.
    pub fn add_metrics(&mut self, metrics: &[MetricCounts])
        requires
            summary_wf(old(self)@),
            room_for_all(old(self)@, metrics@),
        ensures
            final(self)@ == spec_add_metrics(old(self)@, metrics@),
            summary_wf(final(self)@),
    {
        let mut i: usize = 0;
        let ghost start = self@;
        while i < metrics.len()
            invariant
                i <= metrics@.len(),
                summary_wf(self@),
                self@ == spec_add_metrics(start, metrics@.take(i as int)),
                room_for_all(start, metrics@),
            decreases metrics@.len() - i,
        {
            proof {
                assert(metrics@.take(i + 1).drop_last() =~= metrics@.take(i as int));
                lemma_room_for_all_prefix(start, metrics@, i + 1);
            }
            self.add_metric(&metrics[i]);
            i = i + 1;
        }
        assert(metrics@.take(i as int) =~= metrics@);
    }

    /// The cache hit rate as `(numerator, denominator)`, or `None` when no
    /// accepted request reported cached tokens or nothing was re-sent.
    pub fn cache_hit_ratio(&self) -> (r: Option<(u64, u64)>)
        ensures
            r == spec_cache_ratio(self@),
    {
        if self.cached_tokens_observed && self.prior_turn_tokens_sum > 0 {
            Some((self.cached_tokens_sum, self.prior_turn_tokens_sum))
        } else {
            None
        }
    }
}

proof fn lemma_room_for_all_prefix(v: SummaryView, ms: Seq<MetricCounts>, k: int)
    requires
        room_for_all(v, ms),
        0 <= k <= ms.len(),
    ensures
        room_for_all(v, ms.take(k)),
        k > 0 ==> room_for(spec_add_metrics(v, ms.take(k - 1)), ms[k - 1]),
    decreases ms.len(),
{
    if k < ms.len() {
        lemma_room_for_all_prefix(v, ms.drop_last(), k);
        assert(ms.drop_last().take(k) =~= ms.take(k));
        if k > 0 {
            assert(ms.drop_last().take(k - 1) =~= ms.take(k - 1));
        }
    } else {
        assert(ms.take(k) =~= ms);
        if k > 0 {
            assert(ms.take(k - 1) =~= ms.drop_last());
        }
    }
    if k > 0 {
        assert(ms.take(k).drop_last() =~= ms.take(k - 1));
    }
}


/// Adding two batches one after the other is adding them as one batch.
pub proof fn lemma_add_metrics_concat(v: SummaryView, a: Seq<MetricCounts>, b: Seq<MetricCounts>)
    ensures
        spec_add_metrics(v, a + b) == spec_add_metrics(spec_add_metrics(v, a), b),
        room_for_all(v, a + b) == (room_for_all(v, a) && room_for_all(
            spec_add_metrics(v, a),
            b,
        )),
    decreases b.len(),
{
    if b.len() == 0 {
        assert(a + b =~= a);
    } else {
        lemma_add_metrics_concat(v, a, b.drop_last());
        assert((a + b).drop_last() =~= a + b.drop_last());
        assert((a + b).last() == b.last());
    }
}

pub open spec fn cached_of(m: MetricCounts) -> int {
    match m.cached_tokens {
        Some(c) => c as int,
        None => 0,
    }
}

/// Cached tokens reported over the accepted requests.
pub open spec fn cached_total(ms: Seq<MetricCounts>) -> int
    decreases ms.len(),
{
    if ms.len() == 0 {
        0
    } else {
        cached_total(ms.drop_last()) + if ms.last().error_code is None {
            cached_of(ms.last())
        } else {
            0
        }
    }
}

/// Total tokens of the accepted requests that are not their session's last
/// turn: the history that later turns send again.
pub open spec fn prior_total(multi_turn: u32, ms: Seq<MetricCounts>) -> int
    decreases ms.len(),
{
    if ms.len() == 0 {
        0
    } else {
        prior_total(multi_turn, ms.drop_last()) + if ms.last().error_code is None
            && !is_last_turn(multi_turn, ms.last()) {
            ms.last().number_total_tokens as int
        } else {
            0
        }
    }
}

/// Some accepted request reported its cached tokens.
pub open spec fn cached_observed(ms: Seq<MetricCounts>) -> bool {
    exists|i: int|
        0 <= i < ms.len() && #[trigger] ms[i].error_code is None && ms[i].cached_tokens is Some
}

proof fn lemma_add_metrics_keeps_multi_turn(v: SummaryView, ms: Seq<MetricCounts>)
    ensures
        spec_add_metrics(v, ms).multi_turn == v.multi_turn,
    decreases ms.len(),
{
    if ms.len() > 0 {
        lemma_add_metrics_keeps_multi_turn(v, ms.drop_last());
    }
}

/// The cache hit rate of a run is `Σ cached_tokens / Σ total tokens of the
/// turns that are not their session's last`, over the accepted requests:
/// starting from empty sums, and while the sums fit in a `u64`, the summary
/// holds exactly these sums, and the rate is defined exactly when some
/// request reported cached tokens and the denominator is positive.
pub proof fn lemma_cache_hit_rate_formula(v: SummaryView, ms: Seq<MetricCounts>)
    requires
        v.cached_tokens_sum == 0,
        v.prior_turn_tokens_sum == 0,
        !v.cached_tokens_observed,
        cached_total(ms) <= u64::MAX,
        prior_total(v.multi_turn, ms) <= u64::MAX,
    ensures
        spec_add_metrics(v, ms).cached_tokens_sum == cached_total(ms),
        spec_add_metrics(v, ms).prior_turn_tokens_sum == prior_total(v.multi_turn, ms),
        spec_add_metrics(v, ms).cached_tokens_observed == cached_observed(ms),
        spec_cache_ratio(spec_add_metrics(v, ms)) == if cached_observed(ms) && prior_total(
            v.multi_turn,
            ms,
        ) > 0 {
            Some((cached_total(ms) as u64, prior_total(v.multi_turn, ms) as u64))
        } else {
            None
        },
    decreases ms.len(),
{
    if ms.len() > 0 {
        let init = ms.drop_last();
        assert(cached_total(init) <= cached_total(ms));
        assert(prior_total(v.multi_turn, init) <= prior_total(v.multi_turn, ms));
        lemma_cache_hit_rate_formula(v, init);
        lemma_add_metrics_keeps_multi_turn(v, init);
        let m = ms.last();
        if cached_observed(ms) && !cached_observed(init) {
            let i = choose|i: int|
                0 <= i < ms.len() && #[trigger] ms[i].error_code is None
                    && ms[i].cached_tokens is Some;
            if i < ms.len() - 1 {
                assert(init[i] == ms[i]);
            }
        }
        if cached_observed(init) {
            let i = choose|i: int|
                0 <= i < init.len() && #[trigger] init[i].error_code is None
                    && init[i].cached_tokens is Some;
            assert(ms[i] == init[i]);
        }
        if m.error_code is None && m.cached_tokens is Some {
            assert(ms[ms.len() - 1] == m);
        }
    }
}

/// With one turn per session nothing is ever sent again, so the cache hit
/// rate stays undefined.
pub proof fn lemma_cache_hit_rate_single_turn(v: SummaryView, ms: Seq<MetricCounts>)
    requires
        v.multi_turn <= 1,
        v.prior_turn_tokens_sum == 0,
    ensures
        spec_add_metrics(v, ms).prior_turn_tokens_sum == 0,
        spec_cache_ratio(spec_add_metrics(v, ms)) is None,
    decreases ms.len(),
{
    if ms.len() > 0 {
        lemma_cache_hit_rate_single_turn(v, ms.drop_last());
        lemma_add_metrics_keeps_multi_turn(v, ms.drop_last());
    }
}

/// When no accepted request reports its cached tokens the rate stays
/// undefined, not zero.
pub proof fn lemma_cache_hit_rate_unobserved(v: SummaryView, ms: Seq<MetricCounts>)
    requires
        !v.cached_tokens_observed,
        forall|i: int| 0 <= i < ms.len() ==> #[trigger] ms[i].cached_tokens is None,
    ensures
        !spec_add_metrics(v, ms).cached_tokens_observed,
        spec_cache_ratio(spec_add_metrics(v, ms)) is None,
    decreases ms.len(),
{
    if ms.len() > 0 {
        assert forall|i: int| 0 <= i < ms.drop_last().len() implies #[trigger] ms.drop_last()[
            i
        ].cached_tokens is None by {
            assert(ms.drop_last()[i] == ms[i]);
        }
        lemma_cache_hit_rate_unobserved(v, ms.drop_last());
        assert(ms[ms.len() - 1] == ms.last());
    }
}

/// The requests among `ms` that failed with HTTP status `code`.
pub open spec fn count_code(ms: Seq<MetricCounts>, code: u16) -> nat
    decreases ms.len(),
{
    if ms.len() == 0 {
        0
    } else {
        count_code(ms.drop_last(), code) + if ms.last().error_code == Some(code) {
            1nat
        } else {
            0nat
        }
    }
}

/// Adding one request: a failed request raises the count of its own status
/// code by exactly one and no other code's count, and the number of errors by
/// one; an accepted request leaves the error counts alone, appends its input
/// and output tokens, and raises the tally of its finish reason, if any, by
/// one and no other tally.
pub proof fn lemma_add_metric_counts(v: SummaryView, m: MetricCounts)
    requires
        summary_wf(v),
        room_for(v, m),
    ensures
        summary_wf(spec_add_metric(v, m)),
        forall|c: u16|
            #![trigger spec_add_metric(v, m).error_code_frequency.contains_key(c)]
            #![trigger error_count(spec_add_metric(v, m).error_code_frequency, c)]
            {
                &&& error_count(spec_add_metric(v, m).error_code_frequency, c) == error_count(
                    v.error_code_frequency,
                    c,
                ) + if m.error_code == Some(c) {
                    1int
                } else {
                    0int
                }
                &&& spec_add_metric(v, m).error_code_frequency.contains_key(c) == (
                v.error_code_frequency.contains_key(c) || m.error_code == Some(c))
            },
        spec_add_metric(v, m).number_errors == v.number_errors + if m.error_code is Some {
            1int
        } else {
            0int
        },
        m.error_code is Some ==> {
            &&& spec_add_metric(v, m).input_tokens == v.input_tokens
            &&& spec_add_metric(v, m).output_tokens == v.output_tokens
            &&& spec_add_metric(v, m).finish_reasons == v.finish_reasons
        },
        m.error_code is None ==> {
            &&& spec_add_metric(v, m).input_tokens == v.input_tokens.push(m.number_input_tokens)
            &&& spec_add_metric(v, m).output_tokens == v.output_tokens.push(
                m.number_output_tokens,
            )
            &&& forall|r: FinishReason|
                #[trigger] finish_count(spec_add_metric(v, m).finish_reasons, r) == finish_count(
                    v.finish_reasons,
                    r,
                ) + if m.finish_reason == Some(r) {
                    1int
                } else {
                    0int
                }
        },
{
    let w = spec_add_metric(v, m);
    if let Some(code) = m.error_code {
        assert(error_count(v.error_code_frequency, code) <= v.number_errors);
        assert forall|k: u16| w.error_code_frequency.contains_key(k) implies #[trigger] w.error_code_frequency[k]
            <= w.number_errors by {
            if k != code {
                assert(v.error_code_frequency.contains_key(k));
            }
        }
    }
}

/// Over a run, the count kept for each HTTP status code is the number of
/// requests that failed with that code, and a code that no request failed with
/// has no entry.
pub proof fn lemma_error_counts_per_code(v: SummaryView, ms: Seq<MetricCounts>, code: u16)
    requires
        summary_wf(v),
        room_for_all(v, ms),
    ensures
        summary_wf(spec_add_metrics(v, ms)),
        error_count(spec_add_metrics(v, ms).error_code_frequency, code) == error_count(
            v.error_code_frequency,
            code,
        ) + count_code(ms, code),
        spec_add_metrics(v, ms).error_code_frequency.contains_key(code) == (
        v.error_code_frequency.contains_key(code) || count_code(ms, code) > 0),
    decreases ms.len(),
{
    if ms.len() > 0 {
        lemma_error_counts_per_code(v, ms.drop_last(), code);
        let mid = spec_add_metrics(v, ms.drop_last());
        lemma_add_metric_counts(mid, ms.last());
        assert(error_count(spec_add_metric(mid, ms.last()).error_code_frequency, code)
            == error_count(mid.error_code_frequency, code) + if ms.last().error_code == Some(code) {
            1int
        } else {
            0int
        });
        assert(spec_add_metric(mid, ms.last()).error_code_frequency.contains_key(code) == (
        mid.error_code_frequency.contains_key(code) || ms.last().error_code == Some(code)));
    }
}

} // verus!
