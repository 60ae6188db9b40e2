//! Request and response shapes of the OpenAI-compatible chat-completions API.

use std::collections::HashMap;
use vstd::prelude::*;
use crate::text::{concat_str, str_equals, trim_end_char, trim_end_matches_char};

verus! {

/// Why the model stopped generating.
#[derive(Clone, Copy, Debug, PartialEq, Eq, Hash, Structural)]
pub enum FinishReason {
    Stop,
    Length,
    ContentFilter,
    /// Any reason the benchmark does not know.
    Other,
}

/// The reason a wire name stands for; `max_tokens` is read as `Stop` and
/// Anthropic's `end_turn` as `Length`, and an unknown name as `Other`.
pub open spec fn spec_finish_reason_from_name(s: Seq<char>) -> FinishReason {
    if s == "stop"@ || s == "max_tokens"@ {
        FinishReason::Stop
    } else if s == "length"@ || s == "end_turn"@ {
        FinishReason::Length
    } else if s == "content_filter"@ {
        FinishReason::ContentFilter
    } else {
        FinishReason::Other
    }
}

/// The name a reason is written with.
pub open spec fn spec_finish_reason_name(r: FinishReason) -> Seq<char> {
    match r {
        FinishReason::Stop => "stop"@,
        FinishReason::Length => "length"@,
        FinishReason::ContentFilter => "content_filter"@,
        FinishReason::Other => "other"@,
    }
}

impl FinishReason {
    /// Reads a finish reason from its wire name.
    pub fn from_name(s: &str) -> (r: FinishReason)
        ensures
            r == spec_finish_reason_from_name(s@),
    {
        if str_equals(s, "stop") || str_equals(s, "max_tokens") {
            FinishReason::Stop
        } else if str_equals(s, "length") || str_equals(s, "end_turn") {
            FinishReason::Length
        } else if str_equals(s, "content_filter") {
            FinishReason::ContentFilter
        } else {
            FinishReason::Other
        }
    }

    /// The name the reason is written with.
    pub fn as_str(&self) -> (s: &'static str)
        ensures
            s@ == spec_finish_reason_name(*self),
    {
        match self {
            FinishReason::Stop => "stop",
            FinishReason::Length => "length",
            FinishReason::ContentFilter => "content_filter",
            FinishReason::Other => "other",
        }
    }
}

/// Reading back the name a reason is written with gives the reason.
pub proof fn lemma_finish_reason_name_roundtrip(r: FinishReason)
    ensures
        spec_finish_reason_from_name(spec_finish_reason_name(r)) == r,
{
    reveal_strlit("stop");
    reveal_strlit("max_tokens");
    reveal_strlit("length");
    reveal_strlit("end_turn");
    reveal_strlit("content_filter");
    reveal_strlit("other");
    assert("stop"@.len() == 4);
    assert("max_tokens"@.len() == 10);
    assert("length"@.len() == 6);
    assert("end_turn"@.len() == 8);
    assert("content_filter"@.len() == 14);
    assert("other"@.len() == 5);
}

/// Cached-prompt counts reported inside `usage`; providers use either name.
#[derive(Clone, Debug, Default)]
pub struct PromptTokensDetails {
    pub cached_tokens: Option<u32>,
    pub cached_read_tokens: Option<u32>,
}

/// Token accounting the endpoint reports.
#[derive(Clone, Debug)]
pub struct Usage {
    pub completion_tokens: u32,
    pub prompt_tokens: u32,
    pub total_tokens: u32,
    pub reasoning_tokens: Option<u32>,
    pub prompt_tokens_details: Option<PromptTokensDetails>,
}

pub open spec fn spec_cached_tokens(u: Usage) -> Option<u32> {
    match u.prompt_tokens_details {
        Some(d) => match d.cached_tokens {
            Some(c) => Some(c),
            None => d.cached_read_tokens,
        },
        None => None,
    }
}

impl Usage {
    /// Prompt tokens served from the provider's cache: `cached_tokens`, or
    /// `cached_read_tokens` where only that is sent; `None` when neither is.
    pub fn cached_tokens(&self) -> (c: Option<u32>)
        ensures
            c == spec_cached_tokens(*self),
    {
        match &self.prompt_tokens_details {
            Some(d) => match d.cached_tokens {
                Some(c) => Some(c),
                None => d.cached_read_tokens,
            },
            None => None,
        }
    }
}

/// Where the cached count comes from: `cached_tokens` whenever it is sent,
/// `cached_read_tokens` only when `cached_tokens` is not, and nothing only when
/// neither field is sent.
pub proof fn lemma_cached_tokens_source(u: Usage)
    ensures
        u.prompt_tokens_details is Some && u.prompt_tokens_details->0.cached_tokens is Some
            ==> spec_cached_tokens(u) == u.prompt_tokens_details->0.cached_tokens,
        u.prompt_tokens_details is Some && u.prompt_tokens_details->0.cached_tokens is None
            ==> spec_cached_tokens(u) == u.prompt_tokens_details->0.cached_read_tokens,
        spec_cached_tokens(u) is None <==> (u.prompt_tokens_details is None || (
        u.prompt_tokens_details->0.cached_tokens is None
            && u.prompt_tokens_details->0.cached_read_tokens is None)),
{
}

/// The incremental content of one streamed chunk.
#[derive(Clone, Debug)]
pub struct StreamDelta {
    pub content: Option<String>,
    pub reasoning: Option<String>,
    pub reasoning_content: Option<String>,
}

/// One choice of a streamed chunk.
#[derive(Clone, Debug)]
pub struct StreamChoice {
    pub index: u32,
    pub delta: StreamDelta,
    pub finish_reason: Option<FinishReason>,
    /// Anthropic sends `stop_reason` instead of `finish_reason`.
    pub stop_reason: Option<FinishReason>,
}

/// One streamed chunk.
#[derive(Clone, Debug)]
pub struct StreamResponse {
    pub choices: Vec<StreamChoice>,
    pub usage: Option<Usage>,
}

/// A chat-completions request with where and how to send it.
#[derive(Default)]
pub struct Request {
    pub url: String,
    pub api_key: Option<String>,
    pub chat_completion: ChatCompletionRequest,
    pub headers: HashMap<String, String>,
}

#[derive(Clone, Copy, Debug, Default, PartialEq, Eq, Structural)]
pub struct ChatTemplateKwargs {
    pub enable_thinking: bool,
    pub thinking: bool,
}

impl ChatTemplateKwargs {
    pub fn new(thinking: bool) -> (k: ChatTemplateKwargs)
        ensures
            k.enable_thinking == thinking,
            k.thinking == thinking,
    {
        ChatTemplateKwargs { enable_thinking: thinking, thinking }
    }
}

/// `url` without trailing slashes, then `/chat/completions`.
pub open spec fn spec_chat_url(url: Seq<char>) -> Seq<char> {
    trim_end_char(url, '/') + "/chat/completions"@
}

impl Request {
    /// Creates a request to the `chat/completions` endpoint under `url`,
    /// with no extra headers.
    pub fn new(url: &str, api_key: Option<String>, chat_completion: ChatCompletionRequest) -> (r:
        Request)
        ensures
            r.url@ == spec_chat_url(url@),
            r.api_key == api_key,
            r.chat_completion == chat_completion,
            r.headers@ == Map::<String, String>::empty(),
    {
        let base = trim_end_matches_char(url, '/');
        Request {
            url: concat_str(base.as_str(), "/chat/completions"),
            api_key,
            chat_completion,
            headers: HashMap::new(),
        }
    }
}

/// The body of a chat-completions request.
#[derive(Default)]
pub struct ChatCompletionRequest {
    pub model: String,
    pub messages: Vec<Message>,
    pub stream: bool,
    pub max_tokens: u32,
    pub stream_options: StreamOptions,
    pub chat_template_kwargs: Option<ChatTemplateKwargs>,
}

#[derive(Clone, Copy, Debug, Default, PartialEq, Eq, Structural)]
pub struct StreamOptions {
    pub include_usage: bool,
}

impl ChatCompletionRequest {
    /// Creates a request body with existing messages (for multi-turn
    /// conversations). Usage is always asked for; when thinking is off, the
    /// template arguments that turn it off are sent, and none otherwise.
    pub fn from_messages(
        model: &str,
        messages: Vec<Message>,
        max_tokens: u32,
        stream: bool,
        thinking: bool,
    ) -> (r: ChatCompletionRequest)
        ensures
            r.model@ == model@,
            r.messages@ == messages@,
            r.max_tokens == max_tokens,
            r.stream == stream,
            r.stream_options.include_usage,
            r.chat_template_kwargs == if thinking {
                None
            } else {
                Some(ChatTemplateKwargs { enable_thinking: false, thinking: false })
            },
    {
        let chat_template_kwargs = if thinking {
            None
        } else {
            Some(ChatTemplateKwargs::new(thinking))
        };
        ChatCompletionRequest {
            model: model.to_owned(),
            messages,
            max_tokens,
            stream,
            stream_options: StreamOptions { include_usage: true },
            chat_template_kwargs,
        }
    }
}

/// One message of a conversation.
#[derive(Clone, Debug)]
pub struct Message {
    pub role: String,
    pub content: String,
    /// Sent as `reasoning_content`, and left out when absent.
    pub reasoning: Option<String>,
}

pub open spec fn opt_str_view(o: Option<String>) -> Option<Seq<char>> {
    match o {
        Some(s) => Some(s@),
        None => None,
    }
}

impl Message {
    /// A field-by-field copy.
    pub fn duplicate(&self) -> (m: Message)
        ensures
            m == *self,
    {
        Message {
            role: self.role.clone(),
            content: self.content.clone(),
            reasoning: match &self.reasoning {
                Some(r) => Some(r.clone()),
                None => None,
            },
        }
    }
}

/// Copies every message.
pub fn duplicate_messages(v: &Vec<Message>) -> (r: Vec<Message>)
    ensures
        r@ == v@,
{
    let mut r: Vec<Message> = Vec::new();
    let mut i: usize = 0;
    while i < v.len()
        invariant
            i <= v@.len(),
            r@ =~= v@.take(i as int),
        decreases v@.len() - i,
    {
        r.push(v[i].duplicate());
        assert(v@.take(i + 1) =~= v@.take(i as int).push(v@[i as int]));
        i = i + 1;
    }
    assert(v@.take(i as int) =~= v@);
    r
}

/// An error reply with its status and headers.
#[derive(Debug)]
pub struct ErrorResponse {
    pub status_code: u16,
    pub headers: HashMap<String, String>,
}

/// The reply of the `/models` endpoint.
#[derive(Clone, Debug)]
pub struct ModelList {
    pub data: Vec<ModelInfo>,
}

#[derive(Clone, Debug)]
pub struct ModelInfo {
    pub id: String,
}

pub open spec fn spec_model_listed(list: Seq<ModelInfo>, model: Seq<char>) -> bool {
    exists|i: int| 0 <= i < list.len() && #[trigger] list[i].id@ == model
}

impl ModelList {
    /// Whether `model` is among the listed model ids.
    pub fn contains_model(&self, model: &str) -> (b: bool)
        ensures
            b == spec_model_listed(self.data@, model@),
    {
        let mut i: usize = 0;
        while i < self.data.len()
            invariant
                i <= self.data@.len(),
                forall|k: int| 0 <= k < i ==> #[trigger] self.data@[k].id@ != model@,
            decreases self.data@.len() - i,
        {
            if str_equals(self.data[i].id.as_str(), model) {
                return true;
            }
            i = i + 1;
        }
        false
    }
}


/// `c` in ASCII lower case.
pub open spec fn ascii_lower(c: char) -> char {
    if 'A' <= c && c <= 'Z' {
        ((c as u32) + 32) as char
    } else {
        c
    }
}

/// `a` equals `b` ignoring ASCII case.
pub open spec fn eq_ignore_ascii_case(a: Seq<char>, b: Seq<char>) -> bool {
    a.len() == b.len() && forall|i: int| 0 <= i < a.len() ==> #[trigger] ascii_lower(a[i])
        == ascii_lower(b[i])
}

fn lower_char(c: char) -> (r: char)
    ensures
        r == ascii_lower(c),
{
    if 'A' <= c && c <= 'Z' {
        ((c as u8) + 32) as char
    } else {
        c
    }
}

fn equals_ignore_ascii_case(a: &str, b: &str) -> (r: bool)
    ensures
        r == eq_ignore_ascii_case(a@, b@),
{
    let n = a.unicode_len();
    if n != b.unicode_len() {
        return false;
    }
    let mut i: usize = 0;
    while i < n
        invariant
            i <= n,
            n == a@.len(),
            n == b@.len(),
            forall|j: int| 0 <= j < i ==> #[trigger] ascii_lower(a@[j]) == ascii_lower(b@[j]),
        decreases n - i,
    {
        if lower_char(a.get_char(i)) != lower_char(b.get_char(i)) {
            return false;
        }
        i = i + 1;
    }
    true
}

/// A header the benchmark always sets itself, so a user-supplied one of the
/// same name is not sent: `Content-Type` or `Authorization`, in any case.
pub fn is_reserved_header(name: &str) -> (r: bool)
    ensures
        r == reserved_header_name(name@),
{
    equals_ignore_ascii_case(name, "content-type") || equals_ignore_ascii_case(name, "authorization")
}

pub open spec fn reserved_header_name(name: Seq<char>) -> bool {
    eq_ignore_ascii_case(name, "content-type"@) || eq_ignore_ascii_case(name, "authorization"@)
}

/// The user-supplied headers that are sent, in their order: all but the
/// reserved ones.
pub open spec fn spec_sendable_headers(pairs: Seq<(String, String)>) -> Seq<(String, String)>
    decreases pairs.len(),
{
    if pairs.len() == 0 {
        seq![]
    } else {
        let kept = spec_sendable_headers(pairs.drop_last());
        if reserved_header_name(pairs.last().0@) {
            kept
        } else {
            kept.push(pairs.last())
        }
    }
}

/// Drops the user-supplied headers that the benchmark sets itself.
pub fn sendable_headers(pairs: &Vec<(String, String)>) -> (r: Vec<(String, String)>)
    ensures
        r@ == spec_sendable_headers(pairs@),
        forall|i: int| 0 <= i < r@.len() ==> !reserved_header_name(#[trigger] r@[i].0@),
{
    let mut r: Vec<(String, String)> = Vec::new();
    let mut i: usize = 0;
    while i < pairs.len()
        invariant
            i <= pairs@.len(),
            r@ == spec_sendable_headers(pairs@.take(i as int)),
            forall|j: int| 0 <= j < r@.len() ==> !reserved_header_name(#[trigger] r@[j].0@),
        decreases pairs@.len() - i,
    {
        assert(pairs@.take(i + 1).drop_last() =~= pairs@.take(i as int));
        let (name, value) = &pairs[i];
        if !is_reserved_header(name.as_str()) {
            r.push((name.clone(), value.clone()));
        }
        i = i + 1;
    }
    assert(pairs@.take(i as int) =~= pairs@);
    r
}

/// `url` without trailing slashes, then `/models`.
pub open spec fn spec_models_url(url: Seq<char>) -> Seq<char> {
    trim_end_char(url, '/') + "/models"@
}

/// The endpoint that lists the served models.
pub fn models_endpoint(url: &str) -> (r: String)
    ensures
        r@ == spec_models_url(url@),
{
    let base = trim_end_matches_char(url, '/');
    concat_str(base.as_str(), "/models")
}

} // verus!
