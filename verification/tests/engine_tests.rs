use local_llm::engine::{
    effective_window, prime, GenerationState, InferenceContext, StepAction, StopReason,
    TokenOutput, DEFAULT_WINDOW, MIN_BATCH_CAPACITY,
};
use local_llm::errors::RunError;
use local_llm::functions::{
    all_functions, registry_definitions, resolve_function, UnixTimeFunction,
};

fn text_token(s: &str) -> TokenOutput {
    TokenOutput { is_eog: false, text: Ok(s.to_string()) }
}

fn step_text(state: &mut GenerationState, s: &str) -> StepAction {
    state.step(false, text_token(s))
}

#[test]
fn window_enforcement_rejects_long_prompt() {
    // A tokenized input longer than the context window fails before any
    // decode step, with the exact counts reported.
    let r = prime(10, 11, false);
    assert!(matches!(r, Err(RunError::ContextWindowExceeded { tokens: 11, window: 10 })));
    let r = InferenceContext::create(10, 11);
    assert!(matches!(r, Err(RunError::ContextWindowExceeded { tokens: 11, window: 10 })));
    assert!(prime(10, 10, false).is_ok());
}

#[test]
fn context_sizes_batch_to_larger_of_minimum_and_hint() {
    let c = InferenceContext::create(4096, 5).unwrap();
    assert_eq!(c.n_ctx, 4096);
    assert_eq!(c.batch_capacity, MIN_BATCH_CAPACITY);
    let c = InferenceContext::create(4096, 600).unwrap();
    assert_eq!(c.batch_capacity, 600);
}

#[test]
fn effective_window_defaults() {
    assert_eq!(effective_window(None), DEFAULT_WINDOW);
    assert_eq!(effective_window(Some(0)), DEFAULT_WINDOW);
    assert_eq!(effective_window(Some(4096)), 4096);
}

#[test]
fn stop_conditions() {
    let mut s = prime(100, 1, false).unwrap();
    assert!(matches!(s.step(true, text_token("x")), StepAction::Stop(StopReason::StopRequested)));

    let mut s = prime(100, 1, false).unwrap();
    let eog = TokenOutput { is_eog: true, text: Ok(String::new()) };
    assert!(matches!(s.step(false, eog), StepAction::Stop(StopReason::EndOfGeneration)));

    let mut s = prime(100, 1, false).unwrap();
    assert!(matches!(
        step_text(&mut s, "<|end_of_text|>"),
        StepAction::Stop(StopReason::EndOfText)
    ));

    let mut s = prime(100, 1, false).unwrap();
    let bad = TokenOutput { is_eog: false, text: Err("bad utf8".to_string()) };
    match s.step(false, bad) {
        StepAction::Fatal(RunError::TokenConversionFailure(d)) => assert_eq!(d, "bad utf8"),
        _ => panic!("expected a fatal conversion error"),
    }
}

#[test]
fn window_full_stops_generation() {
    let mut s = prime(2, 2, false).unwrap();
    assert!(matches!(step_text(&mut s, "x"), StepAction::Stop(StopReason::WindowFull)));
}

#[test]
fn streaming_accumulates_output() {
    let mut s = prime(100, 1, false).unwrap();
    assert!(matches!(step_text(&mut s, "Hel"), StepAction::Continue));
    assert!(matches!(step_text(&mut s, "lo"), StepAction::Continue));
    assert_eq!(s.output, "Hello");
    assert_eq!(s.n_cur, 3);
    let m = s.final_message();
    assert_eq!(m.role, "assistant");
    assert_eq!(m.content, "Hello");
    assert!(m.done);
}

const CALL_TEXT: &str = "<tool_call>{\"function_name\":\"get_unix_time\",\"arguments\":{}}</tool_call>";

#[test]
fn one_shot_detection() {
    // Once a well-formed tool call is detected and dispatched, no second call
    // is ever dispatched in the same run, even if more call-shaped text
    // appears later.
    let mut s = prime(10000, 1, true).unwrap();
    let mut dispatches = 0;
    for _round in 0..3 {
        for piece in [
            "<tool_call>",
            "{\"function_name\":\"get_unix_time\",",
            "\"arguments\":{}}",
            "</tool_call>",
        ] {
            match step_text(&mut s, piece) {
                StepAction::Dispatch(req) => {
                    dispatches += 1;
                    assert_eq!(req.function_name, "get_unix_time");
                }
                StepAction::Continue => {}
                _ => panic!("run should still be streaming"),
            }
        }
    }
    assert_eq!(dispatches, 1);
    assert!(s.function_called);
}

#[test]
fn detection_disabled_without_tool_support() {
    let mut s = prime(10000, 1, false).unwrap();
    assert!(matches!(step_text(&mut s, CALL_TEXT), StepAction::Continue));
    assert!(!s.function_called);
}

#[test]
fn detection_ignores_malformed_payloads() {
    // An array payload, a non-string name, and missing arguments never fire.
    for bad in [
        "<tool_call>[1,2]</tool_call>",
        "<tool_call>{\"function_name\":3,\"arguments\":{}}</tool_call>",
        "<tool_call>{\"function_name\":\"f\"}</tool_call>",
        "<tool_call>{\"function_name\":\"f\",\"arguments\":[]}</tool_call>",
        "<tool_call>not json</tool_call>",
    ] {
        let mut s = prime(10000, 1, true).unwrap();
        assert!(matches!(step_text(&mut s, bad), StepAction::Continue));
        assert!(!s.function_called);
    }
}

#[test]
fn unix_time_run_scenario() {
    // A run with get_unix_time enabled and a model that emits a tool call:
    // the terminal output is a single tool-role message embedding the numeric
    // timestamp, and generation halts there.
    let registry = all_functions("bge-m3-Q4_0.gguf");
    let defs = registry_definitions(&registry);

    let mut s = prime(2048, 12, true).unwrap();
    assert!(matches!(step_text(&mut s, "Sure, let me check. "), StepAction::Continue));
    let req = match step_text(&mut s, CALL_TEXT) {
        StepAction::Dispatch(req) => req,
        _ => panic!("expected a dispatch"),
    };
    assert_eq!(req.function_name, "get_unix_time");

    let idx = resolve_function(&defs, &req.function_name).unwrap();
    assert_eq!(idx, 0);
    let result = UnixTimeFunction.call(&req.arguments).unwrap();
    assert!(result.starts_with("{\"unix_time\":"));
    // the payload embeds a plausible numeric timestamp
    let digits: String =
        result.chars().filter(|c| c.is_ascii_digit()).collect();
    assert!(digits.parse::<u64>().unwrap() > 1_600_000_000);

    let msg = s.on_tool_result(&req.function_name, Ok(result.clone())).unwrap();
    assert_eq!(msg.role, "tool");
    assert_eq!(msg.tool_call_id, "get_unix_time");
    assert_eq!(msg.content, format!("Result of function get_unix_time: {result}"));

    // generation has halted: further tokens are not sampled into the output
    assert!(matches!(
        step_text(&mut s, "more text"),
        StepAction::Stop(StopReason::ToolCompleted)
    ));
    assert!(!s.output.contains("more text"));
}

#[test]
fn failed_function_call_continues_run() {
    let mut s = prime(2048, 1, true).unwrap();
    let req = match step_text(&mut s, CALL_TEXT) {
        StepAction::Dispatch(req) => req,
        _ => panic!("expected a dispatch"),
    };
    let out = s.on_tool_result(&req.function_name, Err("boom".to_string()));
    assert!(out.is_none());
    // the run continues streaming, but never dispatches again
    assert!(matches!(step_text(&mut s, "tail"), StepAction::Continue));
    assert!(matches!(step_text(&mut s, CALL_TEXT), StepAction::Continue));
}

#[test]
fn unknown_function_reported() {
    let registry = all_functions("m.gguf");
    let defs = registry_definitions(&registry);
    let e = resolve_function(&defs, &"launch_rockets".to_string()).unwrap_err();
    assert!(matches!(e, RunError::FunctionNotFound(_)));
    assert_eq!(e.message(), "Function launch_rockets not found");
}
