use llmperf::args::{
    parse_key_values, validate_mean_input_tokens, validate_mean_output_tokens, validate_multi_turn,
    validate_tokens, MIN_INPUT_TOKENS, MIN_OUTPUT_TOKENS,
};
use llmperf::config::{parse_environment_variables, total_turns, EnvError, DEFAULT_API_TIMEOUT_SECS};
use llmperf::run::RunTally;
use llmperf::text::{parse_unsigned, split_once, trim_bounds, u64_to_decimal};

#[test]
fn mean_input_tokens_bounds() {
    assert_eq!(MIN_INPUT_TOKENS, 50);
    assert_eq!(validate_mean_input_tokens("50"), Ok(50));
    assert_eq!(validate_mean_input_tokens("550"), Ok(550));
    assert_eq!(
        validate_mean_input_tokens("49"),
        Err("Invalid value '49' for --mean-input-tokens: must be at least 50 tokens".to_string())
    );
    assert_eq!(
        validate_mean_input_tokens("abc"),
        Err("Invalid value 'abc' for --mean-input-tokens: must be a valid number between 50 and 4294967295"
            .to_string())
    );
    assert_eq!(
        validate_mean_input_tokens("4294967296"),
        Err("Invalid value '4294967296' for --mean-input-tokens: must be a valid number between 50 and 4294967295"
            .to_string())
    );
}

#[test]
fn mean_output_tokens_bounds() {
    assert_eq!(MIN_OUTPUT_TOKENS, 1);
    assert_eq!(validate_mean_output_tokens("1"), Ok(1));
    assert_eq!(validate_mean_output_tokens("+150"), Ok(150));
    assert_eq!(
        validate_mean_output_tokens("0"),
        Err("Invalid value '0' for --mean-output-tokens: must be at least 1 token".to_string())
    );
    assert_eq!(
        validate_mean_output_tokens("-1"),
        Err("Invalid value '-1' for --mean-output-tokens: must be a valid number between 1 and 4294967295"
            .to_string())
    );
}

#[test]
fn validate_tokens_round_trips_decimal() {
    for n in [7u32, 50, 1000, u32::MAX] {
        assert_eq!(validate_tokens(&n.to_string(), "x", 7), Ok(n));
    }
    assert_eq!(
        validate_tokens(" 8", "x", 7),
        Err("Invalid value ' 8' for --x: must be a valid number between 7 and 4294967295".to_string())
    );
}

#[test]
fn multi_turn_bounds() {
    assert_eq!(validate_multi_turn("1"), Ok(1));
    assert_eq!(validate_multi_turn("3"), Ok(3));
    assert_eq!(
        validate_multi_turn("0"),
        Err("Invalid value '0' for --multi-turn: must be at least 1".to_string())
    );
    assert_eq!(
        validate_multi_turn("two"),
        Err("Invalid value 'two' for --multi-turn: must be a positive integer".to_string())
    );
    assert_eq!(
        validate_multi_turn(""),
        Err("Invalid value '' for --multi-turn: must be a positive integer".to_string())
    );
}

#[test]
fn key_values_split_at_first_equals_and_last_wins() {
    let items: Vec<String> = ["a=1", "b=x=y", "novalue", "a=2", "c="]
        .iter()
        .map(|s| s.to_string())
        .collect();
    let mut pairs = parse_key_values(&items);
    pairs.sort();
    assert_eq!(
        pairs,
        vec![
            ("a".to_string(), "2".to_string()),
            ("b".to_string(), "x=y".to_string()),
            ("c".to_string(), "".to_string()),
        ]
    );
    assert!(parse_key_values(&vec![]).is_empty());
}

#[test]
fn environment_settings() {
    let s = parse_environment_variables(
        Some("SECRET-REDACTED".to_string()),
        Some("30".to_string()),
        Some("http://base".to_string()),
        Some("http://api".to_string()),
    )
    .unwrap();
    assert_eq!(s.api_base, "http://base");
    assert_eq!(s.api_timeout_secs, 30);
    assert_eq!(s.api_key.as_deref(), Some("SECRET-REDACTED"));

    let s = parse_environment_variables(None, Some("soon".to_string()), None, Some("http://api".to_string()))
        .unwrap();
    assert_eq!(s.api_base, "http://api");
    assert_eq!(s.api_timeout_secs, DEFAULT_API_TIMEOUT_SECS);
    assert_eq!(s.api_key, None);

    let s = parse_environment_variables(None, None, Some("u".to_string()), None).unwrap();
    assert_eq!(s.api_timeout_secs, 600);

    assert_eq!(
        parse_environment_variables(None, None, None, None).unwrap_err(),
        EnvError::MissingApiBase
    );
}

#[test]
fn run_tally_counts_finished_requests() {
    let mut t = RunTally::new();
    t.record(false);
    t.record(true);
    t.record(false);
    assert_eq!(t.completed_tasks, 2);
    assert_eq!(t.failed_tasks, 1);
    assert_eq!(t.started(), 3);
    assert!(t.all_finished(3, 1));
    assert!(!t.all_finished(2, 2));
    assert_eq!(total_turns(5, 3), 15);
}

#[test]
fn unsigned_parsing_follows_str_parse() {
    assert_eq!(parse_unsigned("0", 10), Some(0));
    assert_eq!(parse_unsigned("+10", 10), Some(10));
    assert_eq!(parse_unsigned("11", 10), None);
    assert_eq!(parse_unsigned("", 10), None);
    assert_eq!(parse_unsigned("+", 10), None);
    assert_eq!(parse_unsigned("1_0", 100), None);
    assert_eq!(parse_unsigned("18446744073709551615", u64::MAX), Some(u64::MAX));
    assert_eq!(parse_unsigned("18446744073709551616", u64::MAX), None);
    for n in [0u64, 9, 10, 12345, u64::MAX] {
        assert_eq!(u64_to_decimal(n), n.to_string());
        assert_eq!(parse_unsigned(&u64_to_decimal(n), u64::MAX), Some(n));
    }
}

#[test]
fn text_helpers() {
    let s = "  hi there \t\n";
    let (lo, hi) = trim_bounds(s);
    let chars: Vec<char> = s.chars().collect();
    let trimmed: String = chars[lo..hi].iter().collect();
    assert_eq!(trimmed, s.trim());
    assert_eq!(trim_bounds("   "), (3, 3));
    assert_eq!(split_once("k=v=w", '='), Some(("k".to_string(), "v=w".to_string())));
    assert_eq!(split_once("kv", '='), None);
}
