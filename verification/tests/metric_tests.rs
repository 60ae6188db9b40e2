use llmperf::api::models::FinishReason;
use llmperf::metrics::models::{MetricCounts, SummaryCounts};
use llmperf::metrics::utils::min_max;

/// A metric carrying only the fields the cache hit rate depends on:
/// `number_total_tokens` (denominator contribution for non-last turns) and
/// `cached_tokens` (numerator), at a given `turn_index`.
fn turn(total_tokens: u32, cached: Option<u32>, turn_index: usize) -> MetricCounts {
    MetricCounts {
        number_total_tokens: total_tokens,
        cached_tokens: cached,
        turn_index,
        ..Default::default()
    }
}

/// Counters configured with `multi_turn` before any metric is added.
fn builder(multi_turn: u32) -> SummaryCounts {
    let mut b = SummaryCounts::new();
    b.set_multi_turn(multi_turn);
    b
}

fn add(b: &mut SummaryCounts, m: &MetricCounts) {
    b.add_metric(m);
}

/// The cache hit rate as the summary reports it.
fn rate(b: &SummaryCounts) -> Option<f64> {
    b.cache_hit_ratio().map(|(n, d)| n as f64 / d as f64)
}

#[test]
fn test_cache_hit_rate_50_percent_across_sessions() {
    let mut b = builder(2);
    add(&mut b, &turn(100, Some(0), 0));
    add(&mut b, &turn(50, Some(50), 1));
    add(&mut b, &turn(100, Some(0), 0));
    add(&mut b, &turn(50, Some(50), 1));
    assert_eq!(rate(&b), Some(0.5));
}

#[test]
fn test_cache_hit_rate_zero_when_nothing_cached() {
    let mut b = builder(2);
    add(&mut b, &turn(20, Some(0), 0));
    add(&mut b, &turn(10, Some(0), 1));
    assert_eq!(rate(&b), Some(0.0));
}

#[test]
fn test_cache_hit_rate_skips_unobserved_numerator_keeps_denominator() {
    let mut b = builder(2);
    add(&mut b, &turn(20, Some(0), 0));
    add(&mut b, &turn(10, None, 1));
    assert_eq!(rate(&b), Some(0.0));
}

#[test]
fn test_cache_hit_rate_with_unobserved_turn_keeps_partial_denominator() {
    let mut b = builder(3);
    add(&mut b, &turn(20, Some(5), 0));
    add(&mut b, &turn(10, None, 1));
    add(&mut b, &turn(5, Some(0), 2));
    let expected = Some(5.0 / 30.0);
    assert_eq!(
        rate(&b),
        expected,
        "unobserved turn must dilute the observed rate, not null it out"
    );
}

#[test]
fn test_cache_hit_rate_none_when_all_turns_unobserved() {
    let mut b = builder(3);
    add(&mut b, &turn(20, None, 0));
    add(&mut b, &turn(10, None, 1));
    add(&mut b, &turn(5, None, 2));
    assert_eq!(
        rate(&b),
        None,
        "all-None run must report `cache_hit_rate = None`, not Some(0.0)"
    );
}

#[test]
fn test_cache_hit_rate_zero_when_all_observations_are_zero() {
    let mut b = builder(3);
    add(&mut b, &turn(20, Some(0), 0));
    add(&mut b, &turn(10, Some(0), 1));
    add(&mut b, &turn(5, Some(0), 2));
    assert_eq!(rate(&b), Some(0.0));
}

#[test]
fn test_cache_hit_rate_one_when_all_prior_history_cached() {
    let mut b = builder(2);
    add(&mut b, &turn(700, Some(0), 0));
    add(&mut b, &turn(50, Some(700), 1));
    assert_eq!(rate(&b), Some(1.0));
}

#[test]
fn test_cache_hit_rate_three_turn_session() {
    let mut b = builder(3);
    add(&mut b, &turn(100, Some(0), 0));
    add(&mut b, &turn(200, Some(60), 1));
    add(&mut b, &turn(300, Some(120), 2));
    assert_eq!(rate(&b), Some(0.6));
}

#[test]
fn test_cache_hit_rate_none_in_single_turn_mode() {
    let mut b = builder(1);
    add(&mut b, &turn(100, Some(0), 0));
    assert_eq!(rate(&b), None);
}

#[test]
fn test_cache_hit_rate_zero_when_warm_turn_reports_zero_reuse() {
    let mut b = builder(2);
    add(&mut b, &turn(1000, Some(0), 0));
    add(&mut b, &turn(50, Some(0), 1));
    assert_eq!(rate(&b), Some(0.0));
}

#[test]
fn test_cache_hit_rate_aggregates_across_sessions() {
    let mut b = builder(2);
    add(&mut b, &turn(800, Some(0), 0));
    add(&mut b, &turn(50, Some(600), 1));
    add(&mut b, &turn(400, Some(0), 0));
    add(&mut b, &turn(50, Some(200), 1));
    assert_eq!(rate(&b), Some(800.0 / 1200.0));
}

#[test]
fn cache_ratio_is_exact_numerator_and_denominator() {
    let mut b = builder(3);
    add(&mut b, &turn(100, Some(0), 0));
    add(&mut b, &turn(200, Some(60), 1));
    add(&mut b, &turn(300, Some(120), 2));
    assert_eq!(b.cache_hit_ratio(), Some((180, 300)));
}

#[test]
fn failed_requests_count_only_their_error() {
    let mut b = builder(2);
    let ok = MetricCounts {
        number_input_tokens: 10,
        number_output_tokens: 20,
        number_total_tokens: 30,
        finish_reason: Some(FinishReason::Stop),
        ..Default::default()
    };
    let failed = MetricCounts {
        number_input_tokens: 20,
        number_output_tokens: 30,
        number_total_tokens: 50,
        error_code: Some(429),
        cached_tokens: Some(7),
        ..Default::default()
    };
    assert!(b.add_metric(&ok));
    assert!(!b.add_metric(&failed));
    assert!(!b.add_metric(&failed));
    assert_eq!(b.input_tokens_vec, vec![10]);
    assert_eq!(b.output_tokens_vec, vec![20]);
    assert_eq!(b.number_errors, 2);
    assert_eq!(b.error_code_frequency.get(&429), Some(&2));
    assert_eq!(b.error_code_frequency.len(), 1);
    assert_eq!(b.finish_reasons.get(FinishReason::Stop), 1);
    assert_eq!(b.finish_reasons.get(FinishReason::Length), 0);
    assert_eq!(b.cache_hit_ratio(), None);
    assert_eq!(b.prior_turn_tokens_sum, 30);
}

#[test]
fn finish_reasons_are_tallied_per_reason() {
    let mut b = builder(1);
    let reasons = [
        Some(FinishReason::Stop),
        Some(FinishReason::Length),
        Some(FinishReason::Length),
        Some(FinishReason::ContentFilter),
        Some(FinishReason::Other),
        None,
    ];
    for r in reasons {
        let m = MetricCounts {
            finish_reason: r,
            ..Default::default()
        };
        assert!(b.add_metric(&m));
    }
    assert_eq!(b.finish_reasons.stop, 1);
    assert_eq!(b.finish_reasons.length, 2);
    assert_eq!(b.finish_reasons.content_filter, 1);
    assert_eq!(b.finish_reasons.other, 1);
    assert_eq!(b.input_tokens_vec.len(), 6);
}

#[test]
fn adding_a_batch_is_adding_one_by_one() {
    let ms = vec![
        turn(100, Some(0), 0),
        MetricCounts {
            error_code: Some(500),
            ..Default::default()
        },
        turn(200, Some(60), 1),
        turn(300, None, 2),
    ];
    let mut whole = builder(3);
    whole.add_metrics(&ms);
    let mut split = builder(3);
    split.add_metrics(&ms[..2]);
    split.add_metrics(&ms[2..]);
    let mut single = builder(3);
    for m in &ms {
        single.add_metric(m);
    }
    for other in [&split, &single] {
        assert_eq!(whole.input_tokens_vec, other.input_tokens_vec);
        assert_eq!(whole.output_tokens_vec, other.output_tokens_vec);
        assert_eq!(whole.number_errors, other.number_errors);
        assert_eq!(whole.cache_hit_ratio(), other.cache_hit_ratio());
        assert_eq!(whole.finish_reasons, other.finish_reasons);
    }
    assert_eq!(whole.cache_hit_ratio(), Some((60, 300)));
}

#[test]
fn counts_for_a_planned_turn() {
    let m = MetricCounts::for_turn(120, 30, 2);
    assert_eq!(m.number_input_tokens, 120);
    assert_eq!(m.number_output_tokens, 30);
    assert_eq!(m.number_total_tokens, 150);
    assert_eq!(m.turn_index, 2);
    assert_eq!(m.cached_tokens, None);
    assert_eq!(m.error_code, None);
    assert_eq!(m.finish_reason, None);
}

#[test]
fn min_max_of_token_counts() {
    assert_eq!(min_max(&[]), None);
    assert_eq!(min_max(&[7]), Some((7, 7)));
    assert_eq!(min_max(&[5, 3, 9, 3, 8]), Some((3, 9)));
}
