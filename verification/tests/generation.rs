use mia::genloop::{build_response, check_prompt_fits, sampler_plan, throughput_milli, GenError,
    GenLoop};
use mia::lifecycle::{default_model_path, ModelHandle};
use mia::WebSource;

#[test]
fn loop_never_emits_more_than_the_budget() {
    let mut gen = GenLoop::new();
    let mut fed = 0u32;
    loop {
        let cont = gen.on_sampled(false, "x");
        fed += 1;
        if !cont {
            break;
        }
        assert!(fed < 600, "loop failed to stop");
    }
    let (text, tokens, truncated) = gen.finish();
    assert_eq!(tokens, 512);
    assert_eq!(fed, 512);
    assert!(truncated);
    assert_eq!(text.len(), 512);
}

#[test]
fn loop_stops_exactly_at_first_end_token() {
    let mut gen = GenLoop::new();
    assert!(gen.on_sampled(false, "a"));
    assert!(gen.on_sampled(false, "b"));
    assert!(gen.on_sampled(false, "c"));
    let cont = gen.on_sampled(true, "");
    assert!(!cont);
    assert!(gen.is_done());
    let (text, tokens, truncated) = gen.finish();
    assert_eq!(text, "abc");
    assert_eq!(tokens, 3);
    assert!(!truncated);
}

#[test]
fn immediate_end_token_yields_empty_answer() {
    let mut gen = GenLoop::new();
    assert!(!gen.on_sampled(true, ""));
    let (text, tokens, truncated) = gen.finish();
    assert_eq!(text, "");
    assert_eq!(tokens, 0);
    assert!(!truncated);
}

#[test]
fn finish_trims_surrounding_whitespace() {
    let mut gen = GenLoop::new();
    gen.on_sampled(false, " \n ");
    gen.on_sampled(false, "answer");
    gen.on_sampled(false, " text");
    gen.on_sampled(false, " \t\r\n");
    gen.on_sampled(true, "");
    let (text, tokens, _) = gen.finish();
    assert_eq!(text, "answer text");
    assert_eq!(tokens, 4);
}

#[test]
fn finish_trims_unicode_whitespace() {
    let mut gen = GenLoop::new();
    gen.on_sampled(false, "\u{a0}\u{2003}answer\u{3000}");
    gen.on_sampled(true, "");
    let (text, _, _) = gen.finish();
    assert_eq!(text, "answer");
    assert_eq!(text, "\u{a0}\u{2003}answer\u{3000}".trim());
}

#[test]
fn prompt_length_is_checked_before_decode() {
    assert!(check_prompt_fits(0).is_ok());
    assert!(check_prompt_fits(2048).is_ok());
    let err = check_prompt_fits(2049).unwrap_err();
    assert!(matches!(err, GenError::PromptTooLong));
    assert_eq!(err.message(), "Prompt exceeds the context window");
}

#[test]
fn throughput_formula() {
    assert_eq!(throughput_milli(100, 2000), 50_000);
    assert_eq!(throughput_milli(1, 1000), 1_000);
    assert_eq!(throughput_milli(7, 0), 0);
    assert_eq!(throughput_milli(0, 5000), 0);
}

#[test]
fn response_packaging() {
    let sources = vec![WebSource { title: "T".to_string(), url: "U".to_string() }];
    let r = build_response("hi".to_string(), 10, 500, sources);
    assert_eq!(r.content, "hi");
    assert_eq!(r.tokens, 10);
    assert_eq!(r.speed_milli, 20_000);
    assert_eq!(r.sources.len(), 1);
    assert_eq!(r.sources[0].title, "T");
}

#[test]
fn sampler_plan_carries_fixed_filters() {
    let p = sampler_plan(125);
    assert_eq!(p.temperature_centi, 125);
    assert_eq!(p.top_k, 40);
    assert_eq!(p.top_p_milli, 950);
    assert_eq!(p.min_keep, 1);
}

#[test]
fn release_twice_is_safe_and_idempotent() {
    let mut handle = ModelHandle::new();
    assert!(!handle.is_loaded());
    handle.mark_loaded();
    assert!(handle.is_loaded());
    handle.release();
    assert!(!handle.is_loaded());
    handle.release();
    assert!(!handle.is_loaded());
}

#[test]
fn ensure_loaded_decision_is_idempotent() {
    let mut handle = ModelHandle::new();
    assert!(handle.needs_load());
    handle.mark_loaded();
    assert!(!handle.needs_load());
    assert_eq!(default_model_path(), "models/mia-brain-q4.gguf");
}
