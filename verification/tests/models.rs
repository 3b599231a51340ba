use wtf_english::feedback::{build_prompt, feedback_without_llm, with_original, FeedbackResult, SYSTEM_PROMPT};
use wtf_english::ollama::{
    is_model_listed, server_poll_attempts, take_ndjson_lines, OLLAMA_MODEL, SERVER_START_TIMEOUT_SECS,
};
use wtf_english::transcribe::{get_model_path, model_download_instructions, text_from_segments};

#[test]
fn short_utterances_skip_the_tutor() {
    let f = feedback_without_llm("Yes please").unwrap();
    assert_eq!(f.original, "Yes please");
    assert!(!f.has_error && f.corrected.is_none() && f.better_expression.is_none() && f.idiom_or_vocab.is_none());
    assert!(feedback_without_llm("I go there yesterday").is_none());
    assert!(feedback_without_llm("   ").is_some());
}

#[test]
fn prompt_quotes_the_student() {
    let p = build_prompt("I go home");
    assert_eq!(p, format!("{SYSTEM_PROMPT}\n\nStudent said: \"I go home\""));
    assert!(p.starts_with("You are a concise English language tutor"));
}

#[test]
fn answer_gets_the_students_sentence() {
    let answer = FeedbackResult {
        original: String::new(),
        corrected: Some("I went home".into()),
        better_expression: None,
        idiom_or_vocab: None,
        has_error: true,
    };
    let f = with_original(answer, "I go home yesterday");
    assert_eq!(f.original, "I go home yesterday");
    assert_eq!(f.corrected.as_deref(), Some("I went home"));
    assert!(f.has_error);
}

#[test]
fn model_is_found_under_another_tag() {
    assert_eq!(OLLAMA_MODEL, "llama3.1:8b");
    let names = vec!["mistral:7b".to_string(), "llama3.1:latest".to_string()];
    assert!(is_model_listed(OLLAMA_MODEL, &names));
    assert!(!is_model_listed(OLLAMA_MODEL, &vec!["mistral:7b".to_string()]));
    assert!(!is_model_listed(OLLAMA_MODEL, &vec![]));
    assert!(is_model_listed("qwen", &vec!["qwen2:1b".to_string()]));
}

#[test]
fn progress_stream_is_split_into_lines() {
    let (lines, rest) = take_ndjson_lines("{\"status\":\"a\"}\n  \n {\"status\":\"b\"} \n{\"sta");
    assert_eq!(lines, vec!["{\"status\":\"a\"}".to_string(), "{\"status\":\"b\"}".to_string()]);
    assert_eq!(rest, "{\"sta");
    let (lines, rest) = take_ndjson_lines("partial");
    assert!(lines.is_empty());
    assert_eq!(rest, "partial");
    let (lines, rest) = take_ndjson_lines("x\n");
    assert_eq!(lines, vec!["x".to_string()]);
    assert_eq!(rest, "");
}

#[test]
fn model_path_prefers_the_bundled_copy() {
    assert_eq!(get_model_path(Some(b"/app/model.bin")), b"/app/model.bin".to_vec());
    assert!(get_model_path(None).ends_with(b"/.wtf-english/models/ggml-medium.en.bin"));
}

#[test]
fn download_instructions_quote_the_path() {
    let m = model_download_instructions("/home/me/.wtf-english/models/ggml-medium.en.bin");
    assert!(m.starts_with("Whisper 모델이 없습니다.\n\n"));
    assert!(m.contains("  -o \"/home/me/.wtf-english/models/ggml-medium.en.bin\"\n\n파일 크기: 약 1.5GB"));
    let q = model_download_instructions("/tmp/a\"b");
    assert!(q.contains("-o \"/tmp/a\\\"b\""));
}

#[test]
fn segment_texts_are_joined_and_trimmed() {
    let t = text_from_segments(&vec![Some(" Hello".into()), None, Some("world. ".into())]);
    assert_eq!(t, "Hello world.");
    assert_eq!(text_from_segments(&vec![]), "");
    assert_eq!(text_from_segments(&vec![None, Some("  ".into())]), "");
}

#[test]
fn progress_stream_gives_the_same_lines_however_it_is_chunked() {
    let body = "{\"status\":\"pulling\"}\n\n  {\"status\":\"verifying\"}  \n{\"status\":\"success\"}\n{\"par";
    let (whole, whole_rest) = take_ndjson_lines(body);
    for cut in 0..=body.len() {
        if !body.is_char_boundary(cut) {
            continue;
        }
        let (first, rest) = take_ndjson_lines(&body[..cut]);
        let (second, rest2) = take_ndjson_lines(&format!("{rest}{}", &body[cut..]));
        let mut lines = first;
        lines.extend(second);
        assert_eq!(lines, whole, "cut at {cut}");
        assert_eq!(rest2, whole_rest);
    }
    assert_eq!(whole.len(), 3);
}

#[test]
fn server_is_polled_twice_a_second() {
    assert_eq!(server_poll_attempts(SERVER_START_TIMEOUT_SECS), 30);
    assert_eq!(server_poll_attempts(0), 0);
}
