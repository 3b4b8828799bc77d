use local_llm::engine::{tool_result_content, LLMOptions};
use local_llm::errors::RunError;
use local_llm::functions::{
    enabled_function_indices, reader_api_url, unix_time_payload, UnixTimeFunction,
    WebPageReaderFunction,
};
use local_llm::functions::{all_functions, registry_definitions};
use local_llm::provider::{
    filter_gguf_models, hf_model_url, split_model_spec, LlamaCppProvider, OllamaProvider,
};
use local_llm::strutil::{find_sub, tail_window, u64_to_dec};

#[test]
fn model_path_joins_directory_and_name() {
    let p = LlamaCppProvider::new("models".to_string());
    assert_eq!(p.name(), "llama.cpp");
    assert_eq!(p.model_path("m.gguf"), "models/m.gguf");
}

#[test]
fn run_slot_is_exclusive() {
    // A second run request while one is active is rejected immediately.
    let mut p = LlamaCppProvider::new("models".to_string());
    assert!(p.try_begin_run().is_ok());
    let e = p.try_begin_run().unwrap_err();
    assert!(matches!(e, RunError::AlreadyRunning));
    assert_eq!(e.message(), "Model is already running");
    p.finish_run();
    assert!(p.try_begin_run().is_ok());
}

#[test]
fn stop_flag_is_set_and_cleared_per_run() {
    let mut p = LlamaCppProvider::new("models".to_string());
    p.stop_model();
    assert!(p.stop_requested);
    // beginning a new run clears the stale stop request
    assert!(p.try_begin_run().is_ok());
    assert!(!p.stop_requested);

    let mut o = OllamaProvider::new();
    assert_eq!(o.name(), "ollama");
    assert!(!o.stop_requested);
    o.stop_model();
    assert!(o.stop_requested);
    o.begin_run();
    assert!(!o.stop_requested);
}

#[test]
fn gguf_files_are_the_installed_models() {
    let names = vec![
        "model-a.gguf".to_string(),
        "notes.txt".to_string(),
        ".gguf".to_string(),
        "model-b.gguf".to_string(),
        "gguf".to_string(),
    ];
    let models = filter_gguf_models(&names);
    assert_eq!(models, vec!["model-a.gguf".to_string(), "model-b.gguf".to_string()]);
}

#[test]
fn model_spec_splits_at_first_colon() {
    let (repo, file) = split_model_spec("org/repo:model.gguf").unwrap();
    assert_eq!(repo, "org/repo");
    assert_eq!(file, "model.gguf");
    let e = split_model_spec("no-colon-here").unwrap_err();
    assert_eq!(e, "Model format must be <repo>:<filename.gguf>");
    assert_eq!(
        hf_model_url("org/repo", "model.gguf"),
        "https://huggingface.co/org/repo/resolve/main/model.gguf"
    );
}

#[test]
fn tool_call_tag_extraction() {
    assert_eq!(
        LlamaCppProvider::extract_tool_call_tag("before <tool_call>{\"a\":1}</tool_call> after"),
        Some("{\"a\":1}".to_string())
    );
    assert_eq!(LlamaCppProvider::extract_tool_call_tag("no tags at all"), None);
    assert_eq!(LlamaCppProvider::extract_tool_call_tag("<tool_call> unterminated"), None);
    assert_eq!(LlamaCppProvider::extract_tool_call_tag("</tool_call><tool_call>"), None);
    // the first opening marker wins
    assert_eq!(
        LlamaCppProvider::extract_tool_call_tag("<tool_call>x</tool_call><tool_call>y</tool_call>"),
        Some("x".to_string())
    );
}

#[test]
fn tool_call_payload_parsing_accepts_both_key_names() {
    let r = LlamaCppProvider::try_extract_tool_call(
        "{\"function_name\":\"get_unix_time\",\"arguments\":{}}",
    );
    assert_eq!(r.unwrap().0, "get_unix_time");
    let r = LlamaCppProvider::try_extract_tool_call(
        "{\"name\":\"analyze_web_page\",\"arguments\":{\"url\":\"http://e\"}}",
    );
    let (name, args) = r.unwrap();
    assert_eq!(name, "analyze_web_page");
    assert_eq!(args.get("url").and_then(|v| v.as_str()), Some("http://e"));
    assert!(LlamaCppProvider::try_extract_tool_call("{\"arguments\":{}}").is_none());
    assert!(LlamaCppProvider::try_extract_tool_call("{\"name\":\"f\"}").is_none());
}

#[test]
fn registry_and_enabled_selection() {
    let registry = all_functions("embed.gguf");
    let defs = registry_definitions(&registry);
    assert_eq!(defs.len(), 2);
    assert_eq!(defs[0].name, "get_unix_time");
    assert_eq!(defs[1].name, "analyze_web_page");

    let enabled = vec![
        "analyze_web_page".to_string(),
        "unknown".to_string(),
        "get_unix_time".to_string(),
    ];
    let picked = enabled_function_indices(&defs, &enabled);
    assert_eq!(picked, vec![1, 0]);
}

#[test]
fn function_definitions_describe_parameters() {
    let d = UnixTimeFunction.definition();
    assert_eq!(d.name, "get_unix_time");
    assert_eq!(d.description.as_deref(), Some("Returns current UNIX timestamp."));
    assert!(d.parameters.is_empty());

    let w = WebPageReaderFunction::new("embed.gguf".to_string(), 512, 3);
    let d = w.definition();
    assert_eq!(d.name, "analyze_web_page");
    assert_eq!(d.parameters.len(), 2);
    assert_eq!(d.parameters[0].name, "url");
    assert_eq!(d.parameters[1].name, "query");
    assert_eq!(d.parameters[0].param_type, "string");
}

#[test]
fn urls_and_payload_formats() {
    assert_eq!(reader_api_url("http://example.com/x"), "https://r.jina.ai/http://example.com/x");
    assert_eq!(unix_time_payload(0), "{\"unix_time\":0}");
    assert_eq!(unix_time_payload(1700000000), "{\"unix_time\":1700000000}");
    assert_eq!(u64_to_dec(u64::MAX), "18446744073709551615");
    assert_eq!(
        tool_result_content("get_unix_time", "{\"unix_time\":7}"),
        "Result of function get_unix_time: {\"unix_time\":7}"
    );
}

#[test]
fn string_search_utilities() {
    assert_eq!(find_sub("hello world", "world"), Some(6));
    assert_eq!(find_sub("hello", "xyz"), None);
    assert_eq!(find_sub("aaa", "aa"), Some(0));
    assert_eq!(tail_window("abcdef", 3), "def");
    assert_eq!(tail_window("ab", 3), "ab");
}

#[test]
fn error_messages_are_exact() {
    let e = RunError::ContextWindowExceeded { tokens: 11, window: 10 };
    assert_eq!(e.message(), "Prompt too long: 11 tokens, but context window is 10");
    assert_eq!(
        RunError::DecodeFailure("batch rejected".to_string()).message(),
        "Decoding failed: batch rejected"
    );
    let opts = LLMOptions { num_gpu: None, num_ctx: Some(2048), functions: None, stream: true };
    assert!(opts.stream);
}

#[test]
fn ollama_response_first_tool_call_only() {
    let body = "{\"message\":{\"tool_calls\":[\
        {\"function\":{\"name\":\"get_unix_time\",\"arguments\":{}}},\
        {\"function\":{\"name\":\"second\",\"arguments\":{}}}]}}";
    let (name, args) = OllamaProvider::extract_first_tool_call(body).unwrap();
    assert_eq!(name, "get_unix_time");
    assert!(args.is_object());

    assert!(OllamaProvider::extract_first_tool_call("{\"message\":{\"content\":\"hi\"}}")
        .is_none());
    assert!(OllamaProvider::extract_first_tool_call("{\"message\":{\"tool_calls\":[]}}")
        .is_none());
    assert!(OllamaProvider::extract_first_tool_call("not json").is_none());
}

#[test]
fn ollama_tags_response_model_names() {
    let body = "{\"models\":[{\"name\":\"llama3:8b\"},{\"name\":\"bge-m3\"}]}";
    let names = OllamaProvider::parse_installed_models(body).unwrap();
    assert_eq!(names, vec!["llama3:8b".to_string(), "bge-m3".to_string()]);
    assert_eq!(
        OllamaProvider::parse_installed_models("{\"models\":[]}"),
        Some(Vec::new())
    );
    assert!(OllamaProvider::parse_installed_models("{\"models\":[{\"size\":3}]}").is_none());
    assert!(OllamaProvider::parse_installed_models("{}").is_none());
}

#[test]
fn tool_call_prefers_function_name_key() {
    // when both accepted key names are present, `function_name` wins
    let r = LlamaCppProvider::try_extract_tool_call(
        "{\"function_name\":\"first\",\"name\":\"second\",\"arguments\":{}}",
    );
    assert_eq!(r.unwrap().0, "first");
}
