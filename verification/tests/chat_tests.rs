use llmperf::api::chat::{
    checked_error_message, chunk_finish_reason, extract_error_message, handle_response, mask_api_key, StreamState,
    TokenArrival,
};
use llmperf::api::models::{
    is_reserved_header, models_endpoint, sendable_headers, ChatCompletionRequest, ChatTemplateKwargs, FinishReason,
    Message, ModelInfo, ModelList, PromptTokensDetails, Request, StreamChoice, StreamDelta,
    StreamResponse, Usage,
};
use llmperf::metrics::models::MetricCounts;

fn delta(content: Option<&str>, reasoning: Option<&str>, reasoning_content: Option<&str>) -> StreamDelta {
    StreamDelta {
        content: content.map(|s| s.to_string()),
        reasoning: reasoning.map(|s| s.to_string()),
        reasoning_content: reasoning_content.map(|s| s.to_string()),
    }
}

fn chunk(d: StreamDelta, finish: Option<FinishReason>, stop: Option<FinishReason>) -> StreamResponse {
    StreamResponse {
        choices: vec![StreamChoice {
            index: 0,
            delta: d,
            finish_reason: finish,
            stop_reason: stop,
        }],
        usage: None,
    }
}

fn usage(prompt: u32, completion: u32, details: Option<PromptTokensDetails>) -> Usage {
    Usage {
        completion_tokens: completion,
        prompt_tokens: prompt,
        total_tokens: prompt + completion,
        reasoning_tokens: None,
        prompt_tokens_details: details,
    }
}

#[test]
fn content_chunks_accumulate_and_time_tokens() {
    let mut state = StreamState::new();
    let mut m = MetricCounts::for_turn(10, 999, 0);
    let a = handle_response(&chunk(delta(Some(" Hello"), None, None), None, None), &mut state, &mut m);
    assert_eq!(a, vec![TokenArrival::First]);
    let b = handle_response(&chunk(delta(Some(" World"), None, None), None, None), &mut state, &mut m);
    assert_eq!(b, vec![TokenArrival::Next]);
    let c = handle_response(&chunk(delta(None, None, None), Some(FinishReason::Stop), None), &mut state, &mut m);
    assert!(c.is_empty());
    assert_eq!(state.final_str, " Hello World");
    assert_eq!(state.token_count, 2);
    assert_eq!(m.finish_reason, Some(FinishReason::Stop));
    assert_eq!(m.number_input_tokens, 10);
    assert_eq!(m.number_output_tokens, 999);
    assert!(!state.usage_seen);
}

#[test]
fn empty_deltas_are_not_tokens() {
    let mut state = StreamState::new();
    let mut m = MetricCounts::default();
    let a = handle_response(&chunk(delta(Some(""), Some(""), None), None, None), &mut state, &mut m);
    assert!(a.is_empty());
    assert_eq!(state.token_count, 0);
    let b = handle_response(&chunk(delta(Some("x"), None, None), None, None), &mut state, &mut m);
    assert_eq!(b, vec![TokenArrival::First]);
}

#[test]
fn reasoning_and_content_are_kept_apart() {
    let mut state = StreamState::new();
    let mut m = MetricCounts::default();
    handle_response(&chunk(delta(None, None, Some("Okay, the")), None, None), &mut state, &mut m);
    handle_response(&chunk(delta(None, Some(" point"), None), None, None), &mut state, &mut m);
    let both = handle_response(&chunk(delta(Some(" of"), Some("!"), Some("ignored")), None, None), &mut state, &mut m);
    assert_eq!(both, vec![TokenArrival::Next, TokenArrival::Next]);
    handle_response(&chunk(delta(Some(" physics are speed"), None, None), None, None), &mut state, &mut m);
    assert_eq!(state.reasoning_str, "Okay, the point!");
    assert_eq!(state.final_str, " of physics are speed");
    assert_eq!(state.token_count, 5);
}

#[test]
fn finish_reason_wins_over_stop_reason() {
    let mut state = StreamState::new();
    let mut m = MetricCounts::default();
    handle_response(
        &chunk(delta(None, None, None), Some(FinishReason::Length), Some(FinishReason::Stop)),
        &mut state,
        &mut m,
    );
    assert_eq!(m.finish_reason, Some(FinishReason::Length));
    handle_response(&chunk(delta(None, None, None), None, Some(FinishReason::Other)), &mut state, &mut m);
    assert_eq!(m.finish_reason, Some(FinishReason::Other));
    handle_response(&chunk(delta(Some("a"), None, None), None, None), &mut state, &mut m);
    assert_eq!(m.finish_reason, Some(FinishReason::Other));
}

#[test]
fn usage_replaces_counts_and_reports_cached_tokens() {
    let mut state = StreamState::new();
    let mut m = MetricCounts::for_turn(10, 999, 1);
    let r = StreamResponse {
        choices: vec![],
        usage: Some(usage(
            580,
            2,
            Some(PromptTokensDetails {
                cached_tokens: Some(384),
                cached_read_tokens: Some(512),
            }),
        )),
    };
    assert!(handle_response(&r, &mut state, &mut m).is_empty());
    assert!(state.usage_seen);
    assert_eq!(m.number_input_tokens, 580);
    assert_eq!(m.number_output_tokens, 2);
    assert_eq!(m.number_total_tokens, 582);
    assert_eq!(m.cached_tokens, Some(384));
    assert_eq!(m.turn_index, 1);
}

#[test]
fn cached_tokens_fall_back_to_cached_read_tokens() {
    let only_read = usage(
        53,
        100,
        Some(PromptTokensDetails {
            cached_tokens: None,
            cached_read_tokens: Some(64),
        }),
    );
    assert_eq!(only_read.cached_tokens(), Some(64));
    assert_eq!(usage(196, 363, None).cached_tokens(), None);
    assert_eq!(usage(1, 1, Some(PromptTokensDetails::default())).cached_tokens(), None);
}

#[test]
fn error_message_comes_from_json_error_field() {
    let body = r#"{"error": {"message": "Rate limit exceeded", "type": "rate_limit"}}"#;
    assert_eq!(extract_error_message(body), "Rate limit exceeded");
}

#[test]
fn error_message_falls_back_to_body() {
    assert_eq!(extract_error_message("Unauthorized"), "Unauthorized");
    assert_eq!(
        extract_error_message(r#"{"error": "plain"}"#),
        r#"{"error": "plain"}"#
    );
}

#[test]
fn long_error_body_is_truncated() {
    let body = "x".repeat(250);
    let expected = format!("{}...", "x".repeat(200));
    assert_eq!(extract_error_message(&body), expected);
    assert_eq!(extract_error_message(&"y".repeat(200)), "y".repeat(200));
    assert_eq!(checked_error_message(&body), Some(format!("{}...", "x".repeat(200))));
}

#[test]
fn truncation_inside_a_character_gives_none() {
    let body = format!("{}\u{e9}{}", "a".repeat(199), "b".repeat(10));
    assert_eq!(checked_error_message(&body), None);
    let prefix = r#"{"error": {"message": "busy", "pad": ""#;
    let json = format!("{prefix}{}\u{e9}{}\"}}}}", "a".repeat(199 - prefix.len()), "b".repeat(10));
    assert!(!json.is_char_boundary(200));
    assert_eq!(checked_error_message(&json), Some("busy".to_string()));
}

#[test]
fn request_targets_chat_completions() {
    let body = ChatCompletionRequest::from_messages("test-model", vec![], 10, true, true);
    let r = Request::new("http://localhost:8080/v1/", Some("test-key".to_string()), body);
    assert_eq!(r.url, "http://localhost:8080/v1/chat/completions");
    assert_eq!(r.api_key.as_deref(), Some("test-key"));
    assert!(r.headers.is_empty());
    let r2 = Request::new("http://h/v1", None, ChatCompletionRequest::default());
    assert_eq!(r2.url, "http://h/v1/chat/completions");
    assert_eq!(models_endpoint("http://h/v1//"), "http://h/v1/models");
}

#[test]
fn request_body_from_messages() {
    let msgs = vec![Message {
        role: "user".to_string(),
        content: "Say hello".to_string(),
        reasoning: None,
    }];
    let b = ChatCompletionRequest::from_messages("test-model", msgs, 10, true, false);
    assert_eq!(b.model, "test-model");
    assert_eq!(b.messages.len(), 1);
    assert_eq!(b.messages[0].content, "Say hello");
    assert_eq!(b.max_tokens, 10);
    assert!(b.stream);
    assert!(b.stream_options.include_usage);
    assert_eq!(
        b.chat_template_kwargs,
        Some(ChatTemplateKwargs {
            enable_thinking: false,
            thinking: false
        })
    );
    let t = ChatCompletionRequest::from_messages("m", vec![], 1, false, true);
    assert_eq!(t.chat_template_kwargs, None);
    assert!(!t.stream);
    assert_eq!(ChatTemplateKwargs::new(true), ChatTemplateKwargs { enable_thinking: true, thinking: true });
}

#[test]
fn reserved_headers_ignore_case() {
    assert!(is_reserved_header("Content-Type"));
    assert!(is_reserved_header("AUTHORIZATION"));
    assert!(is_reserved_header("authorization"));
    assert!(!is_reserved_header("x-trace"));
    assert!(!is_reserved_header("content-typ"));
}

#[test]
fn model_list_lookup() {
    let list = ModelList {
        data: vec![
            ModelInfo { id: "gpt-3.5-turbo".to_string() },
            ModelInfo { id: "gpt-4".to_string() },
        ],
    };
    assert!(list.contains_model("gpt-4"));
    assert!(list.contains_model("gpt-3.5-turbo"));
    assert!(!list.contains_model("non-existent-model"));
    assert!(!ModelList { data: vec![] }.contains_model("gpt-4"));
}

#[test]
fn finish_reason_names() {
    assert_eq!(FinishReason::from_name("stop"), FinishReason::Stop);
    assert_eq!(FinishReason::from_name("max_tokens"), FinishReason::Stop);
    assert_eq!(FinishReason::from_name("length"), FinishReason::Length);
    assert_eq!(FinishReason::from_name("end_turn"), FinishReason::Length);
    assert_eq!(FinishReason::from_name("content_filter"), FinishReason::ContentFilter);
    assert_eq!(FinishReason::from_name("rejected"), FinishReason::Other);
    for r in [
        FinishReason::Stop,
        FinishReason::Length,
        FinishReason::ContentFilter,
        FinishReason::Other,
    ] {
        assert_eq!(FinishReason::from_name(r.as_str()), r);
    }
}

#[test]
fn message_copies_are_equal() {
    let m = Message {
        role: "assistant".to_string(),
        content: "hi".to_string(),
        reasoning: Some("because".to_string()),
    };
    let c = m.duplicate();
    assert_eq!(c.role, m.role);
    assert_eq!(c.content, m.content);
    assert_eq!(c.reasoning, m.reasoning);
}

#[test]
fn api_key_is_masked_for_logs() {
    assert_eq!(mask_api_key(Some("sk-1234567890abcd")), "sk-1...abcd");
    assert_eq!(mask_api_key(Some("12345678")), "********");
    assert_eq!(mask_api_key(Some("")), "");
    assert_eq!(mask_api_key(None), "None");
    assert_eq!(mask_api_key(Some("\u{e9}\u{e9}xxxxxx\u{e9}\u{e9}")), "\u{e9}\u{e9}...\u{e9}\u{e9}");
}

#[test]
fn reserved_headers_are_not_sent() {
    let pairs: Vec<(String, String)> = [
        ("x-trace", "abc-123"),
        ("Content-Type", "text/plain"),
        ("authorization", "Bearer other"),
        ("x-bf-store-raw-request-response", "true"),
    ]
    .iter()
    .map(|(k, v)| (k.to_string(), v.to_string()))
    .collect();
    assert_eq!(
        sendable_headers(&pairs),
        vec![
            ("x-trace".to_string(), "abc-123".to_string()),
            ("x-bf-store-raw-request-response".to_string(), "true".to_string()),
        ]
    );
}

#[test]
fn finishing_chunk_is_recognized() {
    assert_eq!(chunk_finish_reason(&chunk(delta(Some("a"), None, None), None, None)), None);
    assert_eq!(
        chunk_finish_reason(&chunk(delta(None, None, None), None, Some(FinishReason::Length))),
        Some(FinishReason::Length)
    );
    assert_eq!(
        chunk_finish_reason(&chunk(delta(None, None, None), Some(FinishReason::Stop), Some(FinishReason::Length))),
        Some(FinishReason::Stop)
    );
    assert_eq!(chunk_finish_reason(&StreamResponse { choices: vec![], usage: None }), None);
}

#[test]
fn a_stream_of_n_tokens_has_n_minus_one_gaps() {
    let mut state = StreamState::new();
    let mut m = MetricCounts::default();
    let chunks = [
        chunk(delta(None, None, Some(" the")), None, None),
        chunk(delta(None, Some(" point"), None), None, None),
        chunk(delta(Some(""), None, None), None, None),
        chunk(delta(Some(" of"), None, None), None, None),
        chunk(delta(Some(" physics"), Some(" so"), None), None, None),
        chunk(delta(Some(" are"), None, None), Some(FinishReason::Length), None),
    ];
    let mut all = Vec::new();
    for c in &chunks {
        all.extend(handle_response(c, &mut state, &mut m));
    }
    assert_eq!(state.token_count, 6);
    assert_eq!(all.len(), 6);
    assert_eq!(all[0], TokenArrival::First);
    assert_eq!(all.iter().filter(|a| **a == TokenArrival::Next).count(), 5);
    assert_eq!(m.finish_reason, Some(FinishReason::Length));
}
