//! Command-line arguments and the rules they are checked against.

use vstd::prelude::*;
use crate::text::{
    decimal, lemma_decimal_parse_roundtrip, parse_unsigned, spec_parse_unsigned, spec_split_once,
    split_once, str_equals, u64_to_decimal,
};

verus! {

/// Fewest prompt tokens a request may ask for.
pub const MIN_INPUT_TOKENS: u32 = 50;

/// Fewest output tokens a request may ask for.
pub const MIN_OUTPUT_TOKENS: u32 = 1;

/// The benchmark's settings (see the command-line reference for each).
#[derive(Clone, Debug, Default)]
pub struct Cli {
    /// The model to use for this load test.
    pub model: String,
    /// The tokenizer used for counting input tokens.
    pub tokenizer: String,
    pub mean_input_tokens: u32,
    pub stddev_input_tokens: u32,
    /// The `max_tokens` of each request.
    pub mean_output_tokens: u32,
    pub stddev_output_tokens: u32,
    pub num_concurrent_requests: usize,
    /// Hard timeout of the whole run in seconds; 0 for none.
    pub timeout: u64,
    pub max_num_completed_requests: u32,
    /// Currently not in use.
    pub additional_sampling_params: String,
    pub results_dir: Option<String>,
    pub llm_api: String,
    /// `key=value` entries reported with the results.
    pub metadata: Vec<String>,
    pub no_check_endpoint: bool,
    pub thinking: bool,
    /// Conversation turns per session.
    pub multi_turn: u32,
    /// Database to report the run to; never written to the results.
    pub db_url: Option<String>,
    /// Extra `key=value` request headers.
    pub headers: Vec<String>,
}

pub open spec fn plural_s(min: u32) -> Seq<char> {
    if min > 1 {
        "s"@
    } else {
        ""@
    }
}

pub open spec fn spec_not_a_number_message(value: Seq<char>, field: Seq<char>, min: u32) -> Seq<
    char,
> {
    "Invalid value '"@ + value + "' for --"@ + field + ": must be a valid number between "@
        + decimal(min as nat) + " and "@ + decimal(u32::MAX as nat)
}

pub open spec fn spec_too_small_message(value: Seq<char>, field: Seq<char>, min: u32) -> Seq<
    char,
> {
    "Invalid value '"@ + value + "' for --"@ + field + ": must be at least "@ + decimal(
        min as nat,
    ) + " token"@ + plural_s(min)
}

/// The token-count check: a `u32` that is at least `min`, or the message
/// that explains why not.
pub open spec fn spec_validate_tokens(value: Seq<char>, field: Seq<char>, min: u32) -> Result<
    u32,
    Seq<char>,
> {
    match spec_parse_unsigned(value, u32::MAX as nat) {
        None => Err(spec_not_a_number_message(value, field, min)),
        Some(n) => if n < min {
            Err(spec_too_small_message(value, field, min))
        } else {
            Ok(n as u32)
        },
    }
}

pub open spec fn result_view(r: Result<u32, String>) -> Result<u32, Seq<char>> {
    match r {
        Ok(n) => Ok(n),
        Err(e) => Err(e@),
    }
}

/// Checks a token-count argument against its minimum.
pub fn validate_tokens(value: &str, field_name: &str, min: u32) -> (r: Result<u32, String>)
    ensures
        result_view(r) == spec_validate_tokens(value@, field_name@, min),
{
    match parse_unsigned(value, u32::MAX as u64) {
        None => {
            let mut msg = "Invalid value '".to_owned();
            msg.append(value);
            msg.append("' for --");
            msg.append(field_name);
            msg.append(": must be a valid number between ");
            msg.append(u64_to_decimal(min as u64).as_str());
            msg.append(" and ");
            msg.append(u64_to_decimal(u32::MAX as u64).as_str());
            Err(msg)
        },
        Some(n) => {
            if n < min as u64 {
                let mut msg = "Invalid value '".to_owned();
                msg.append(value);
                msg.append("' for --");
                msg.append(field_name);
                msg.append(": must be at least ");
                msg.append(u64_to_decimal(min as u64).as_str());
                msg.append(" token");
                msg.append(if min > 1 { "s" } else { "" });
                Err(msg)
            } else {
                Ok(n as u32)
            }
        },
    }
}

/// Checks `--mean-input-tokens`.
pub fn validate_mean_input_tokens(value: &str) -> (r: Result<u32, String>)
    ensures
        result_view(r) == spec_validate_tokens(value@, "mean-input-tokens"@, MIN_INPUT_TOKENS),
{
    validate_tokens(value, "mean-input-tokens", MIN_INPUT_TOKENS)
}

/// Checks `--mean-output-tokens`.
pub fn validate_mean_output_tokens(value: &str) -> (r: Result<u32, String>)
    ensures
        result_view(r) == spec_validate_tokens(value@, "mean-output-tokens"@, MIN_OUTPUT_TOKENS),
{
    validate_tokens(value, "mean-output-tokens", MIN_OUTPUT_TOKENS)
}

/// The turn-count check: a `u32` of at least 1, or the message that explains
/// why not.
pub open spec fn spec_validate_multi_turn(value: Seq<char>) -> Result<u32, Seq<char>> {
    match spec_parse_unsigned(value, u32::MAX as nat) {
        None => Err(
            "Invalid value '"@ + value + "' for --multi-turn: must be a positive integer"@,
        ),
        Some(n) => if n < 1 {
            Err("Invalid value '"@ + value + "' for --multi-turn: must be at least 1"@)
        } else {
            Ok(n as u32)
        },
    }
}

/// Checks `--multi-turn`.
pub fn validate_multi_turn(value: &str) -> (r: Result<u32, String>)
    ensures
        result_view(r) == spec_validate_multi_turn(value@),
{
    match parse_unsigned(value, u32::MAX as u64) {
        None => {
            let mut msg = "Invalid value '".to_owned();
            msg.append(value);
            msg.append("' for --multi-turn: must be a positive integer");
            Err(msg)
        },
        Some(n) => {
            if n < 1 {
                let mut msg = "Invalid value '".to_owned();
                msg.append(value);
                msg.append("' for --multi-turn: must be at least 1");
                Err(msg)
            } else {
                Ok(n as u32)
            }
        },
    }
}

/// A token count is accepted exactly when it reads as a `u32` of at least the
/// minimum, and then as that number; one that reads as a smaller number is
/// refused as too small; one that does not read as a `u32` is refused as not a
/// number.
pub proof fn lemma_validate_tokens_accepts_exactly(value: Seq<char>, field: Seq<char>, min: u32)
    ensures
        forall|k: u32|
            #[trigger] spec_validate_tokens(value, field, min) == Ok::<u32, Seq<char>>(k) <==> (
            spec_parse_unsigned(value, u32::MAX as nat) == Some(k as nat) && k >= min),
        spec_parse_unsigned(value, u32::MAX as nat) matches Some(n) && n < min
            ==> spec_validate_tokens(value, field, min) == Err::<u32, Seq<char>>(
            spec_too_small_message(value, field, min),
        ),
        spec_parse_unsigned(value, u32::MAX as nat) is None ==> spec_validate_tokens(
            value,
            field,
            min,
        ) == Err::<u32, Seq<char>>(spec_not_a_number_message(value, field, min)),
{
}

/// A turn count is accepted exactly when it reads as a `u32` of at least one,
/// and then as that number.
pub proof fn lemma_validate_multi_turn_accepts_exactly(value: Seq<char>)
    ensures
        forall|k: u32|
            #[trigger] spec_validate_multi_turn(value) == Ok::<u32, Seq<char>>(k) <==> (
            spec_parse_unsigned(value, u32::MAX as nat) == Some(k as nat) && k >= 1),
{
}

/// Every count of at least the minimum, written in decimal, is accepted as
/// itself.
pub proof fn lemma_validate_tokens_accepts_decimal(n: u32, field: Seq<char>, min: u32)
    requires
        min <= n,
    ensures
        spec_validate_tokens(decimal(n as nat), field, min) == Ok::<u32, Seq<char>>(n),
{
    lemma_decimal_parse_roundtrip(n as nat, u32::MAX as nat);
}


/// The map that `key=value` entries describe: each entry is split at its
/// first `=`, a later entry replaces an earlier one with the same key, and an
/// entry without `=` is left out.
pub open spec fn spec_key_value_map(items: Seq<Seq<char>>) -> Map<Seq<char>, Seq<char>>
    decreases items.len(),
{
    if items.len() == 0 {
        Map::empty()
    } else {
        let m = spec_key_value_map(items.drop_last());
        match spec_split_once(items.last(), '=') {
            Some((k, v)) => m.insert(k, v),
            None => m,
        }
    }
}

pub open spec fn strings_view(v: Seq<String>) -> Seq<Seq<char>> {
    v.map_values(|s: String| s@)
}

/// No key occurs twice.
pub open spec fn distinct_keys(ps: Seq<(String, String)>) -> bool {
    forall|i: int, j: int| 0 <= i < j < ps.len() ==> #[trigger] ps[i].0@ != #[trigger] ps[j].0@
}

pub open spec fn has_key(ps: Seq<(String, String)>, k: Seq<char>) -> bool {
    exists|i: int| 0 <= i < ps.len() && #[trigger] ps[i].0@ == k
}

/// The map that key-value pairs with distinct keys describe.
pub open spec fn pairs_map(ps: Seq<(String, String)>) -> Map<Seq<char>, Seq<char>> {
    Map::new(
        |k: Seq<char>| has_key(ps, k),
        |k: Seq<char>| ps[choose|i: int| 0 <= i < ps.len() && #[trigger] ps[i].0@ == k].1@,
    )
}

proof fn lemma_pairs_map_value(ps: Seq<(String, String)>, i: int)
    requires
        distinct_keys(ps),
        0 <= i < ps.len(),
    ensures
        pairs_map(ps).contains_key(ps[i].0@),
        pairs_map(ps)[ps[i].0@] == ps[i].1@,
{
    let k = ps[i].0@;
    assert(has_key(ps, k));
    let j = choose|j: int| 0 <= j < ps.len() && #[trigger] ps[j].0@ == k;
    if j != i {
        if j < i {
            assert(ps[j].0@ != ps[i].0@);
        } else {
            assert(ps[i].0@ != ps[j].0@);
        }
    }
}

/// Reads `key=value` entries into pairs with distinct keys (the serialized
/// form of `--metadata` and the extra `--headers`).
pub fn parse_key_values(items: &Vec<String>) -> (r: Vec<(String, String)>)
    ensures
        distinct_keys(r@),
        pairs_map(r@) == spec_key_value_map(strings_view(items@)),
{
    let mut r: Vec<(String, String)> = Vec::new();
    let mut i: usize = 0;
    while i < items.len()
        invariant
            i <= items@.len(),
            distinct_keys(r@),
            pairs_map(r@) =~= spec_key_value_map(strings_view(items@.take(i as int))),
        decreases items@.len() - i,
    {
        let ghost before = r@;
        let ghost prefix = strings_view(items@.take(i as int));
        assert(strings_view(items@.take(i + 1)).drop_last() =~= prefix);
        assert(strings_view(items@.take(i + 1)).last() == items@[i as int]@);
        match split_once(items[i].as_str(), '=') {
            Some((k, v)) => {
                let mut j: usize = 0;
                let mut found = false;
                while j < r.len() && !found
                    invariant
                        j <= r@.len(),
                        r@ == before,
                        found ==> j < r@.len() && r@[j as int].0@ == k@,
                        forall|t: int| 0 <= t < j ==> #[trigger] r@[t].0@ != k@,
                    decreases r@.len() - j + if found {
                        0int
                    } else {
                        1int
                    },
                {
                    if str_equals(r[j].0.as_str(), k.as_str()) {
                        found = true;
                    } else {
                        j = j + 1;
                    }
                }
                let ghost kv = k@;
                let ghost vv = v@;
                if found {
                    r.set(j, (k, v));
                    proof {
                        assert(distinct_keys(r@)) by {
                            assert forall|a: int, b: int| 0 <= a < b < r@.len() implies #[trigger] r@[a].0@
                                != #[trigger] r@[b].0@ by {
                                assert(before[a].0@ != before[b].0@);
                            }
                        }
                        assert forall|key: Seq<char>| #[trigger] pairs_map(r@).contains_key(key)
                            == pairs_map(before).insert(kv, vv).contains_key(key) by {
                            if has_key(before, key) {
                                let t = choose|t: int| 0 <= t < before.len() && #[trigger] before[t].0@ == key;
                                assert(r@[t].0@ == key);
                            }
                            if has_key(r@, key) {
                                let t = choose|t: int| 0 <= t < r@.len() && #[trigger] r@[t].0@ == key;
                                assert(before[t].0@ == key);
                            }
                        }
                        assert forall|key: Seq<char>| #[trigger] pairs_map(r@).contains_key(key)
                            implies pairs_map(r@)[key] == pairs_map(before).insert(kv, vv)[key] by {
                            let t = choose|t: int| 0 <= t < r@.len() && #[trigger] r@[t].0@ == key;
                            lemma_pairs_map_value(r@, t);
                            if t != j {
                                lemma_pairs_map_value(before, t);
                            }
                        }
                        assert(pairs_map(r@) =~= pairs_map(before).insert(kv, vv));
                    }
                } else {
                    r.push((k, v));
                    proof {
                        assert(distinct_keys(r@)) by {
                            assert forall|a: int, b: int| 0 <= a < b < r@.len() implies #[trigger] r@[a].0@
                                != #[trigger] r@[b].0@ by {
                                if b < before.len() {
                                    assert(before[a].0@ != before[b].0@);
                                } else {
                                    assert(before[a].0@ != kv);
                                }
                            }
                        }
                        assert forall|key: Seq<char>| #[trigger] pairs_map(r@).contains_key(key)
                            == pairs_map(before).insert(kv, vv).contains_key(key) by {
                            if has_key(before, key) {
                                let t = choose|t: int| 0 <= t < before.len() && #[trigger] before[t].0@ == key;
                                assert(r@[t].0@ == key);
                            }
                            if key == kv {
                                assert(r@[before.len() as int].0@ == key);
                            }
                            if has_key(r@, key) && key != kv {
                                let t = choose|t: int| 0 <= t < r@.len() && #[trigger] r@[t].0@ == key;
                                assert(t < before.len());
                                assert(before[t].0@ == key);
                            }
                        }
                        assert forall|key: Seq<char>| #[trigger] pairs_map(r@).contains_key(key)
                            implies pairs_map(r@)[key] == pairs_map(before).insert(kv, vv)[key] by {
                            let t = choose|t: int| 0 <= t < r@.len() && #[trigger] r@[t].0@ == key;
                            lemma_pairs_map_value(r@, t);
                            if t < before.len() {
                                assert(r@[t] == before[t]);
                                assert(key != kv);
                                lemma_pairs_map_value(before, t);
                            }
                        }
                        assert(pairs_map(r@) =~= pairs_map(before).insert(kv, vv));
                    }
                }
            },
            None => {},
        }
        i = i + 1;
    }
    assert(items@.take(i as int) =~= items@);
    r
}

} // verus!
