//! The decisions of a streamed chat completion: what each chunk adds to the
//! response text, the token timings and the counts.

use vstd::prelude::*;
use vstd::utf8::*;
use vstd::string::StringSliceAdditionalSpecFns;
use crate::api::models::{FinishReason, StreamResponse, opt_str_view, spec_cached_tokens};
use crate::text::concat_str;
use crate::metrics::models::MetricCounts;

verus! {

/// What one token arrival means for the timings: the first one gives the
/// time to first token, each later one an inter-token latency.
#[derive(Clone, Copy, Debug, PartialEq, Eq, Structural)]
pub enum TokenArrival {
    First,
    Next,
}

/// Text and token count accumulated while a response streams in.
pub struct StreamState {
    pub final_str: String,
    pub reasoning_str: String,
    /// Non-empty content or reasoning deltas received so far.
    pub token_count: u64,
    /// The endpoint reported usage.
    pub usage_seen: bool,
}

impl StreamState {
    pub fn new() -> (s: StreamState)
        ensures
            s.final_str@ == Seq::<char>::empty(),
            s.reasoning_str@ == Seq::<char>::empty(),
            s.token_count == 0,
            !s.usage_seen,
    {
        StreamState {
            final_str: String::new(),
            reasoning_str: String::new(),
            token_count: 0,
            usage_seen: false,
        }
    }
}

pub open spec fn arrival_kind(count_before: int) -> TokenArrival {
    if count_before == 0 {
        TokenArrival::First
    } else {
        TokenArrival::Next
    }
}

/// The arrivals of `n` tokens received after `count_before` earlier ones.
pub open spec fn arrivals_from(count_before: int, n: nat) -> Seq<TokenArrival> {
    Seq::new(n, |i: int| arrival_kind(count_before + i))
}

/// Chunk after chunk, the arrivals are those of the tokens counted so far:
/// handling `n` tokens and then `m` more gives the arrivals of `n + m` tokens.
pub proof fn lemma_arrivals_concat(count_before: int, n: nat, m: nat)
    ensures
        arrivals_from(count_before, n) + arrivals_from(count_before + n, m) == arrivals_from(
            count_before,
            n + m,
        ),
{
    assert(arrivals_from(count_before, n) + arrivals_from(count_before + n, m) =~= arrivals_from(
        count_before,
        n + m,
    ));
}

/// A stream of `n > 0` tokens has one first token and `n - 1` later ones, so
/// `n - 1` inter-token latencies.
pub proof fn lemma_one_first_then_next(n: nat)
    requires
        n > 0,
    ensures
        arrivals_from(0, n)[0] == TokenArrival::First,
        forall|i: int| 1 <= i < n ==> #[trigger] arrivals_from(0, n)[i] == TokenArrival::Next,
        arrivals_from(0, n).filter(|a: TokenArrival| a == TokenArrival::Next).len() == n - 1,
{
    let s = arrivals_from(0, n);
    assert(s.drop_first() =~= Seq::new((n - 1) as nat, |i: int| TokenArrival::Next));
    lemma_all_next_filter((n - 1) as nat);
    assert(s =~= seq![TokenArrival::First] + s.drop_first());
    Seq::filter_distributes_over_add(
        seq![TokenArrival::First],
        s.drop_first(),
        |a: TokenArrival| a == TokenArrival::Next,
    );
    assert(seq![TokenArrival::First].filter(|a: TokenArrival| a == TokenArrival::Next) =~= Seq::<TokenArrival>::empty()) by {
        reveal_with_fuel(Seq::filter, 2);
    }
}

proof fn lemma_all_next_filter(k: nat)
    ensures
        Seq::new(k, |i: int| TokenArrival::Next).filter(|a: TokenArrival| a == TokenArrival::Next)
            =~= Seq::new(k, |i: int| TokenArrival::Next),
    decreases k,
{
    reveal(Seq::filter);
    if k > 0 {
        lemma_all_next_filter((k - 1) as nat);
        let s = Seq::new(k, |i: int| TokenArrival::Next);
        assert(s.drop_last() =~= Seq::new((k - 1) as nat, |i: int| TokenArrival::Next));
    }
}

/// The reasoning delta of a chunk: `reasoning`, or `reasoning_content` where
/// only that is sent.
pub open spec fn spec_reasoning_delta(r: StreamResponse) -> Option<Seq<char>> {
    if r.choices@.len() == 0 {
        None
    } else {
        match r.choices@[0].delta.reasoning {
            Some(s) => Some(s@),
            None => match r.choices@[0].delta.reasoning_content {
                Some(s) => Some(s@),
                None => None,
            },
        }
    }
}

pub open spec fn spec_content_delta(r: StreamResponse) -> Option<Seq<char>> {
    if r.choices@.len() == 0 {
        None
    } else {
        match r.choices@[0].delta.content {
            Some(s) => Some(s@),
            None => None,
        }
    }
}

pub open spec fn append_opt(s: Seq<char>, d: Option<Seq<char>>) -> Seq<char> {
    match d {
        Some(x) => s + x,
        None => s,
    }
}

/// A delta that carries at least one character counts as a token arrival.
pub open spec fn arrives(d: Option<Seq<char>>) -> bool {
    d matches Some(x) && x.len() > 0
}

/// The finish reason a chunk reports: `finish_reason`, or `stop_reason`
/// where only that is sent.
pub open spec fn spec_chunk_finish_reason(r: StreamResponse) -> Option<FinishReason> {
    if r.choices@.len() == 0 {
        None
    } else {
        match r.choices@[0].finish_reason {
            Some(f) => Some(f),
            None => r.choices@[0].stop_reason,
        }
    }
}

/// The reason a chunk reports is its first choice's `finish_reason`, exactly,
/// whichever reason it is; `stop_reason` counts only when `finish_reason` is
/// absent; a chunk without choices reports none.
pub proof fn lemma_chunk_finish_reason_source(r: StreamResponse)
    ensures
        r.choices@.len() == 0 ==> spec_chunk_finish_reason(r) is None,
        r.choices@.len() > 0 && r.choices@[0].finish_reason is Some ==> spec_chunk_finish_reason(
            r,
        ) == r.choices@[0].finish_reason,
        r.choices@.len() > 0 && r.choices@[0].finish_reason is None ==> spec_chunk_finish_reason(
            r,
        ) == r.choices@[0].stop_reason,
{
}

/// The finish reason a chunk reports, if any; the chunk that reports one
/// ends the generation, so it stops the end-to-end clock.
pub fn chunk_finish_reason(response: &StreamResponse) -> (r: Option<FinishReason>)
    ensures
        r == spec_chunk_finish_reason(*response),
{
    if response.choices.len() == 0 {
        None
    } else {
        let choice = &response.choices[0];
        if choice.finish_reason.is_some() {
            choice.finish_reason
        } else {
            choice.stop_reason
        }
    }
}

/// Parses one streamed chunk into the state and the counts: the first
/// choice's reasoning and content are appended, each non-empty one is a token
/// arrival (reasoning first), a reported finish reason replaces the stored
/// one, and reported usage replaces the token counts.
pub fn handle_response(
    response: &StreamResponse,
    state: &mut StreamState,
    metrics: &mut MetricCounts,
) -> (arrivals: Vec<TokenArrival>)
    requires
        old(state).token_count <= u64::MAX - 2,
    ensures
        final(state).reasoning_str@ == append_opt(
            old(state).reasoning_str@,
            spec_reasoning_delta(*response),
        ),
        final(state).final_str@ == append_opt(old(state).final_str@, spec_content_delta(*response)),
        arrivals@.len() == (if arrives(spec_reasoning_delta(*response)) {
            1int
        } else {
            0int
        }) + (if arrives(spec_content_delta(*response)) {
            1int
        } else {
            0int
        }),
        final(state).token_count == old(state).token_count + arrivals@.len(),
        arrivals@ == arrivals_from(old(state).token_count as int, arrivals@.len()),
        final(state).usage_seen == (old(state).usage_seen || response.usage is Some),
        final(metrics).finish_reason == match spec_chunk_finish_reason(*response) {
            Some(f) => Some(f),
            None => old(metrics).finish_reason,
        },
        final(metrics).error_code == old(metrics).error_code,
        final(metrics).turn_index == old(metrics).turn_index,
        match response.usage {
            Some(u) => {
                &&& final(metrics).number_input_tokens == u.prompt_tokens
                &&& final(metrics).number_output_tokens == u.completion_tokens
                &&& final(metrics).number_total_tokens == u.total_tokens
                &&& final(metrics).cached_tokens == spec_cached_tokens(u)
            },
            None => {
                &&& final(metrics).number_input_tokens == old(metrics).number_input_tokens
                &&& final(metrics).number_output_tokens == old(metrics).number_output_tokens
                &&& final(metrics).number_total_tokens == old(metrics).number_total_tokens
                &&& final(metrics).cached_tokens == old(metrics).cached_tokens
            },
        },
{
    let mut arrivals: Vec<TokenArrival> = Vec::new();
    if response.choices.len() > 0 {
        let choice = &response.choices[0];
        let reasoning: Option<&String> = match &choice.delta.reasoning {
            Some(r) => Some(r),
            None => match &choice.delta.reasoning_content {
                Some(r) => Some(r),
                None => None,
            },
        };
        if let Some(r) = reasoning {
            state.reasoning_str.append(r.as_str());
            if r.as_str().unicode_len() > 0 {
                arrivals.push(if state.token_count == 0 {
                    TokenArrival::First
                } else {
                    TokenArrival::Next
                });
                state.token_count = state.token_count + 1;
            }
        }
        if let Some(c) = &choice.delta.content {
            state.final_str.append(c.as_str());
            if c.as_str().unicode_len() > 0 {
                arrivals.push(if state.token_count == 0 {
                    TokenArrival::First
                } else {
                    TokenArrival::Next
                });
                state.token_count = state.token_count + 1;
            }
        }
        let reported = chunk_finish_reason(response);
        if reported.is_some() {
            metrics.finish_reason = reported;
        }
    }
    if let Some(usage) = &response.usage {
        metrics.number_input_tokens = usage.prompt_tokens;
        metrics.number_output_tokens = usage.completion_tokens;
        metrics.number_total_tokens = usage.total_tokens;
        metrics.cached_tokens = usage.cached_tokens();
        state.usage_seen = true;
    }
    arrivals
}


/// Bytes of an error body kept when it is shown.
pub const TRUNCATED_LIMIT: usize = 200;

/// What `serde_json::from_str::<serde_json::Value>(body)` and then
/// `value["error"]["message"].as_str()` give: the message of an OpenAI-style
/// error body, when the body is JSON and holds a string there.
pub uninterp spec fn json_error_message(body: Seq<char>) -> Option<Seq<char>>;

/// Parses `body` with `serde_json::from_str` into a `serde_json::Value` and
/// reads the string at `["error"]["message"]`. Its contract only names the
/// result; what JSON parsing accepts is not stated here.
#[verifier::external_body]
fn error_message_field(body: &str) -> (m: Option<String>)
    ensures
        opt_str_view(m) == json_error_message(body@),
{
    match serde_json::from_str::<serde_json::Value>(body) {
        Ok(json) => json["error"]["message"].as_str().map(|s| s.to_string()),
        Err(_) => None,
    }
}

/// The text shown for an error body: the JSON error message when there is
/// one, else the body, cut to its first 200 bytes followed by `...` when it is
/// longer.
pub open spec fn spec_error_message(body: Seq<char>) -> Seq<char> {
    match json_error_message(body) {
        Some(m) => m,
        None => {
            let b = encode_utf8(body);
            if b.len() > TRUNCATED_LIMIT {
                decode_utf8(b.take(TRUNCATED_LIMIT as int)) + "..."@
            } else {
                body
            }
        },
    }
}

/// The cut of a long body that holds no JSON error message falls between
/// characters.
pub open spec fn error_cut_at_boundary(body: Seq<char>) -> bool {
    json_error_message(body) is Some || encode_utf8(body).len() <= TRUNCATED_LIMIT
        || is_char_boundary(encode_utf8(body), TRUNCATED_LIMIT as int)
}

/// Extracts the error message from a response body, handling the
/// OpenAI-style error format.
pub fn extract_error_message(body_str: &str) -> (m: String)
    requires
        error_cut_at_boundary(body_str@),
    ensures
        m@ == spec_error_message(body_str@),
{
    if let Some(msg) = error_message_field(body_str) {
        return msg;
    }
    if body_str.as_bytes().len() > TRUNCATED_LIMIT {
        let (head, _) = body_str.split_at(TRUNCATED_LIMIT);
        proof {
            encode_utf8_decode_utf8(head@);
            let b = encode_utf8(body_str@);
            assert(b.subrange(0, TRUNCATED_LIMIT as int) =~= b.take(TRUNCATED_LIMIT as int));
            assert(head.spec_bytes() == encode_utf8(head@));
            assert(decode_utf8(b.take(TRUNCATED_LIMIT as int)) == head@);
        }
        concat_str(head, "...")
    } else {
        body_str.to_owned()
    }
}

/// The error message of a body, or `None` for a body whose cut would fall
/// inside a character.
pub fn checked_error_message(body_str: &str) -> (m: Option<String>)
    ensures
        m is Some <==> error_cut_at_boundary(body_str@),
        m matches Some(s) ==> s@ == spec_error_message(body_str@),
{
    let has_json = error_message_field(body_str).is_some();
    if has_json || body_str.as_bytes().len() <= TRUNCATED_LIMIT || body_str.is_char_boundary(
        TRUNCATED_LIMIT,
    ) {
        Some(extract_error_message(body_str))
    } else {
        None
    }
}

/// How an API key is shown in logs: its first and last four bytes around
/// `...` when it is longer than eight bytes, else one `*` per byte; `None`
/// without a key.
pub open spec fn spec_masked_key(key: Option<Seq<char>>) -> Seq<char> {
    match key {
        None => "None"@,
        Some(k) => {
            let b = encode_utf8(k);
            if b.len() > 8 {
                decode_utf8(b.take(4)) + "..."@ + decode_utf8(b.skip(b.len() - 4))
            } else {
                Seq::new(b.len(), |i: int| '*')
            }
        },
    }
}

/// The four-byte cuts of a long key fall between characters.
pub open spec fn mask_cuts_at_boundaries(key: Option<Seq<char>>) -> bool {
    match key {
        None => true,
        Some(k) => {
            let b = encode_utf8(k);
            b.len() > 8 ==> is_char_boundary(b, 4) && is_char_boundary(b, b.len() - 4)
        },
    }
}

/// Masks an API key for logging.
pub fn mask_api_key(key: Option<&str>) -> (m: String)
    requires
        mask_cuts_at_boundaries(opt_str_ref_view(key)),
    ensures
        m@ == spec_masked_key(opt_str_ref_view(key)),
{
    match key {
        None => "None".to_owned(),
        Some(k) => {
            let n = k.as_bytes().len();
            if n > 8 {
                let (head, _) = k.split_at(4);
                let (_, tail) = k.split_at(n - 4);
                proof {
                    let b = encode_utf8(k@);
                    encode_utf8_decode_utf8(head@);
                    encode_utf8_decode_utf8(tail@);
                    assert(b.subrange(0, 4) =~= b.take(4));
                    assert(b.subrange(n - 4, b.len() as int) =~= b.skip(b.len() - 4));
                }
                let mut r = concat_str(head, "...");
                r.append(tail);
                r
            } else {
                let mut r = String::new();
                let mut i: usize = 0;
                while i < n
                    invariant
                        i <= n,
                        r@ =~= Seq::new(i as nat, |j: int| '*'),
                    decreases n - i,
                {
                    proof {
                        reveal_strlit("*");
                    }
                    r.append("*");
                    i = i + 1;
                }
                r
            }
        },
    }
}

pub open spec fn opt_str_ref_view(o: Option<&str>) -> Option<Seq<char>> {
    match o {
        Some(s) => Some(s@),
        None => None,
    }
}

} // verus!
