use llmperf::api::models::ChatTemplateKwargs;
use llmperf::file::{collapse_dash_runs, path_join, sanitize_filename, ResultsSaver};
use llmperf::prompt::{
    create_prompt, create_prompt_in_order, prompt_token_mean, sample_prompt_ids, sonnet_lines,
};
use llmperf::metrics::models::MetricCounts;
use llmperf::session::MultiTurnSession;

fn lines() -> Vec<Vec<u32>> {
    vec![vec![1, 2, 3], vec![4, 5], vec![6]]
}

#[test]
fn prompt_in_order_cycles_lines_then_appends_prompt() {
    let l = lines();
    assert_eq!(create_prompt_in_order(&[9, 9], &l, &[0, 1, 2], 4), vec![1, 2, 3, 4, 9, 9]);
    assert_eq!(create_prompt_in_order(&[9], &l, &[2, 0, 1], 8), vec![6, 1, 2, 3, 4, 5, 6, 1, 9]);
    assert_eq!(create_prompt_in_order(&[9], &l, &[1, 0, 2], 0), vec![9]);
    assert_eq!(create_prompt_in_order(&[7], &[], &[], 5), vec![7]);
}

#[test]
fn prompt_has_exact_length_and_uses_a_permutation() {
    let l = lines();
    let prompt = [100u32, 101];
    for remaining in 0..20u32 {
        let ids = create_prompt(&prompt, &l, remaining);
        assert_eq!(ids.len(), remaining as usize + prompt.len());
        assert_eq!(&ids[remaining as usize..], &prompt);
        // The round of six tokens repeats: each full round holds every token once.
        let body = &ids[..remaining as usize];
        for chunk in body.chunks(6).filter(|c| c.len() == 6) {
            let mut sorted = chunk.to_vec();
            sorted.sort();
            assert_eq!(sorted, vec![1, 2, 3, 4, 5, 6]);
        }
        if remaining >= 6 {
            assert_eq!(&body[6..], &body[..body.len() - 6]);
        }
    }
}

#[test]
fn prompt_without_lines_is_the_instruction_prompt() {
    assert_eq!(create_prompt(&[5, 6], &[], 10), vec![5, 6]);
}

#[test]
fn sampled_prompt_has_the_requested_total() {
    let l = lines();
    let ids = sample_prompt_ids(&[100, 101, 102], &l, 11);
    assert_eq!(ids.len(), 11);
    assert_eq!(&ids[8..], &[100, 101, 102]);
    assert_eq!(sample_prompt_ids(&[1, 2], &l, 2), vec![1, 2]);
}

#[test]
fn mean_is_never_below_instruction_length() {
    assert_eq!(prompt_token_mean(550, 30), 550);
    assert_eq!(prompt_token_mean(20, 30), 30);
    assert_eq!(prompt_token_mean(30, 30), 30);
}

#[test]
fn session_alternates_user_and_assistant() {
    let mut s = MultiTurnSession::new(3, "first".to_string(), "m".to_string(), 64, false);
    assert_eq!(s.current_turn(), 1);
    assert!(!s.is_complete());
    s.store_response_and_advance("answer 1".to_string(), "thought".to_string(), || "second".to_string());
    assert_eq!(s.current_turn(), 2);
    s.store_response_and_advance("answer 2".to_string(), String::new(), || "third".to_string());
    s.store_response_and_advance("answer 3".to_string(), "last".to_string(), || panic!("no prompt after the last turn"));
    assert!(s.is_complete());
    let roles: Vec<&str> = s.messages.iter().map(|m| m.role.as_str()).collect();
    assert_eq!(roles, vec!["user", "assistant", "user", "assistant", "user", "assistant"]);
    let contents: Vec<&str> = s.messages.iter().map(|m| m.content.as_str()).collect();
    assert_eq!(contents, vec!["first", "answer 1", "second", "answer 2", "third", "answer 3"]);
    let reasoning: Vec<Option<&str>> = s.messages.iter().map(|m| m.reasoning.as_deref()).collect();
    assert_eq!(
        reasoning,
        vec![None, Some("thought"), None, None, None, Some("last")]
    );
}

#[test]
fn session_request_carries_history() {
    let mut s = MultiTurnSession::new(2, "hello".to_string(), "test-model".to_string(), 10, true);
    s.store_response_and_advance("hi".to_string(), String::new(), || "again".to_string());
    let r = s.build_request();
    assert_eq!(r.model, "test-model");
    assert_eq!(r.max_tokens, 10);
    assert!(r.stream);
    assert!(r.stream_options.include_usage);
    assert_eq!(r.chat_template_kwargs, None);
    assert_eq!(r.messages.len(), 3);
    assert_eq!(r.messages[2].content, "again");
    let single = MultiTurnSession::new(1, "only".to_string(), "m".to_string(), 5, false);
    assert_eq!(
        single.build_request().chat_template_kwargs,
        Some(ChatTemplateKwargs {
            enable_thinking: false,
            thinking: false
        })
    );
}

#[test]
fn single_turn_session_completes_after_one_response() {
    let mut s = MultiTurnSession::new(1, "q".to_string(), "m".to_string(), 5, false);
    s.store_response_and_advance("a".to_string(), String::new(), || panic!("no second prompt"));
    assert!(s.is_complete());
    assert_eq!(s.messages.len(), 2);
}

#[test]
fn filenames_are_sanitized() {
    assert_eq!(sanitize_filename("meta-llama/Llama 3.1:8b"), "meta-llama-Llama-3-1-8b");
    assert_eq!(sanitize_filename("a--b---c"), "a-b-c");
    assert_eq!(sanitize_filename("plain_name-1"), "plain_name-1");
    assert_eq!(sanitize_filename("x / y"), "x-y");
}

#[test]
fn results_paths() {
    assert_eq!(path_join("out", "f.json"), "out/f.json");
    assert_eq!(path_join("out/", "f.json"), "out/f.json");
    assert_eq!(path_join("", "f.json"), "f.json");
    let s = ResultsSaver::with_timestamp("results", "2024-01-02 03:04:05", "org/model", 550, 150);
    assert_eq!(s.results_dir, "results");
    assert_eq!(s.summary_path, "results/2024-01-02-03-04-05_org-model_550_150_summary.json");
    assert_eq!(
        s.individual_responses_path,
        "results/2024-01-02-03-04-05_org-model_550_150_individual_responses.jsonl.zst"
    );
}

#[test]
fn finishing_turns_drives_the_session() {
    let mut s = MultiTurnSession::new(2, "q1".to_string(), "m".to_string(), 5, true);
    let mut c = MetricCounts::for_turn(10, 5, 0);
    c.number_total_tokens = 1;
    assert!(s.finish_turn(&mut c, false, "a1".to_string(), "r1".to_string(), || "q2".to_string()));
    assert_eq!(c.number_total_tokens, 15);
    assert_eq!(s.messages.len(), 3);
    assert_eq!(s.messages[1].reasoning.as_deref(), Some("r1"));
    assert_eq!(s.messages[2].content, "q2");
    let mut failed = MetricCounts::for_turn(10, 5, 1);
    failed.number_total_tokens = 7;
    assert!(!s.finish_turn(&mut failed, true, String::new(), String::new(), || panic!("no prompt")));
    assert_eq!(failed.number_total_tokens, 7);
    assert_eq!(s.turn_index, 1);
    assert_eq!(s.messages.len(), 3);
    let mut last = MetricCounts::for_turn(20, 5, 1);
    assert!(!s.finish_turn(&mut last, false, "a2".to_string(), String::new(), || panic!("no prompt")));
    assert!(s.is_complete());
    assert_eq!(s.messages.len(), 4);
    assert_eq!(s.messages[3].reasoning, None);
}

#[test]
fn sonnet_text_splits_like_str_lines() {
    use_lines("Shall I compare thee\nThou art more lovely\n");
    use_lines("a\r\nb\rc\n\nlast");
    use_lines("");
    use_lines("\n\n");
    use_lines("x\r");
    assert_eq!(sonnet_lines("a\r\nb"), vec!["a\n".to_string(), "b\n".to_string()]);
}

fn use_lines(text: &str) {
    let expected: Vec<String> = text.lines().map(|l| l.to_string() + "\n").collect();
    assert_eq!(sonnet_lines(text), expected, "text {text:?}");
}

#[test]
fn dash_runs_collapse_to_one() {
    assert_eq!(collapse_dash_runs("a--b---c-d"), "a-b-c-d");
    assert_eq!(collapse_dash_runs("--"), "-");
    assert_eq!(collapse_dash_runs(""), "");
    assert_eq!(collapse_dash_runs("no dashes"), "no dashes");
}
