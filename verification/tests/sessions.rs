use wtf_english::clock::SessionTime;
use wtf_english::feedback::FeedbackResult;
use wtf_english::session::{
    assemble_utterances, build_markdown, build_transcript, get_session_info, get_stats,
    list_sessions, read_custom_title, read_source_sidecar, session_file_path, source_sidecar_text,
    title_sidecar_contents, upload_original_filename, RawUtterance, ReportEntry, SessionSource,
    Utterance,
};

fn fb(original: &str, corrected: Option<&str>, better: Option<&str>, vocab: Option<&str>, err: bool) -> FeedbackResult {
    FeedbackResult {
        original: original.to_string(),
        corrected: corrected.map(str::to_string),
        better_expression: better.map(str::to_string),
        idiom_or_vocab: vocab.map(str::to_string),
        has_error: err,
    }
}

fn utt(ts: &str, f: FeedbackResult) -> Utterance {
    Utterance { timestamp: ts.to_string(), feedback: f }
}

fn raw(ts: &str, text: &str) -> RawUtterance {
    RawUtterance { timestamp: ts.to_string(), text: text.to_string() }
}

fn source_name(s: &SessionSource) -> Option<String> {
    match s {
        SessionSource::Recorded => None,
        SessionSource::Uploaded { original_filename } => Some(original_filename.clone()),
    }
}

#[test]
fn source_sidecar_round_trips() {
    let rec = source_sidecar_text(&SessionSource::Recorded);
    assert_eq!(rec, "recorded");
    assert_eq!(source_name(&read_source_sidecar(Some(&rec))), None);
    let up = SessionSource::Uploaded { original_filename: "녹음본.m4a".to_string() };
    let text = source_sidecar_text(&up);
    assert_eq!(text, "uploaded\n녹음본.m4a");
    assert_eq!(source_name(&read_source_sidecar(Some(&text))), Some("녹음본.m4a".to_string()));
    let empty = SessionSource::Uploaded { original_filename: String::new() };
    assert_eq!(source_name(&read_source_sidecar(Some(&source_sidecar_text(&empty)))), Some(String::new()));
}

#[test]
fn source_sidecar_reading_follows_lines() {
    assert_eq!(source_name(&read_source_sidecar(None)), None);
    assert_eq!(source_name(&read_source_sidecar(Some(""))), None);
    assert_eq!(source_name(&read_source_sidecar(Some("uploaded"))), Some(String::new()));
    assert_eq!(source_name(&read_source_sidecar(Some("uploaded\r\nclip.wav\r\n"))), Some("clip.wav".to_string()));
    assert_eq!(source_name(&read_source_sidecar(Some("uploaded\nclip.wav\r"))), Some("clip.wav\r".to_string()));
    assert_eq!(source_name(&read_source_sidecar(Some("uploaded\n\nx"))), Some(String::new()));
    assert_eq!(source_name(&read_source_sidecar(Some("Uploaded\nclip.wav"))), None);
    assert_eq!(source_name(&read_source_sidecar(Some("garbage"))), None);
}

#[test]
fn custom_title_is_trimmed_and_blank_means_none() {
    assert_eq!(read_custom_title(Some("  Friday lesson \n")), Some("Friday lesson".to_string()));
    assert_eq!(read_custom_title(Some("   ")), None);
    assert_eq!(read_custom_title(None), None);
}

#[test]
fn rename_then_read_gives_the_trimmed_title() {
    let written = title_sidecar_contents("  Job interview practice ");
    assert_eq!(written, Some("Job interview practice".to_string()));
    assert_eq!(read_custom_title(written.as_deref()), Some("Job interview practice".to_string()));
    assert_eq!(title_sidecar_contents(" \t "), None);
}

#[test]
fn session_info_uses_sidecars_or_the_time_stamp() {
    let info = get_session_info("/s/2025-01-20_14-30-45.md", None, None);
    assert_eq!(info.filename, "2025-01-20_14-30-45.md");
    assert_eq!(info.title, "Jan 20, 2:30 PM");
    assert_eq!(info.path, "/s/2025-01-20_14-30-45.md");
    assert_eq!(source_name(&info.source), None);
    let info = get_session_info("/s/2025-01-20_14-30-45.md", Some(" My title "), Some("uploaded\na.mp3"));
    assert_eq!(info.title, "My title");
    assert_eq!(source_name(&info.source), Some("a.mp3".to_string()));
    let info = get_session_info("/", None, None);
    assert_eq!(info.filename, "");
    assert_eq!(info.title, "");
}

#[test]
fn upload_is_remembered_by_file_name() {
    assert_eq!(upload_original_filename("/Users/me/Downloads/lesson.m4a"), "lesson.m4a");
    assert_eq!(upload_original_filename("/"), "/");
}

#[test]
fn transcript_has_one_line_per_utterance() {
    let t = build_transcript(&vec![raw("14:30:01", "Hello there"), raw("14:30:09", "I go yesterday")]);
    assert_eq!(t, "[14:30:01] Hello there\n[14:30:09] I go yesterday\n");
    assert_eq!(build_transcript(&vec![]), "");
}

#[test]
fn failed_feedback_keeps_the_utterance_as_said() {
    let raws = vec![raw("00:01", "I go to school yesterday"), raw("00:05", "Hi")];
    let answers = vec![None, Some(fb("Hi", None, None, None, false))];
    let us = assemble_utterances(&raws, &answers);
    assert_eq!(us.len(), 2);
    assert_eq!(us[0].timestamp, "00:01");
    assert_eq!(us[0].feedback.original, "I go to school yesterday");
    assert!(!us[0].feedback.has_error);
    assert!(us[0].feedback.corrected.is_none());
    assert_eq!(us[1].timestamp, "00:05");
    assert_eq!(us[1].feedback.original, "Hi");
}

fn start() -> SessionTime {
    SessionTime { year: 2025, month: 1, day: 20, hour: 14, minute: 30, second: 45 }
}

#[test]
fn empty_report_has_only_heading_and_summary() {
    let md = build_markdown(&vec![], &start());
    assert_eq!(
        md,
        "# 🎙️ English Session — 2025년 01월 20일 14:30\n\n## 📊 요약\n\n- 총 발화: **0**문장\n- 교정 필요: **0**문장\n- 새로운 표현/어휘: **0**개\n\n"
    );
}

#[test]
fn report_lists_corrections_vocabulary_and_record() {
    let us = vec![
        utt("14:30:01", fb("I go school yesterday", Some("I went to school yesterday"), None, Some("head to: go toward"), true)),
        utt("14:31:00", fb("Nice to meet you", None, Some("Pleased to meet you"), None, false)),
    ];
    let md = build_markdown(&us, &start());
    let expected = "# 🎙️ English Session — 2025년 01월 20일 14:30\n\n\
## 📊 요약\n\n- 총 발화: **2**문장\n- 교정 필요: **1**문장\n- 새로운 표현/어휘: **1**개\n\n\
## 🔴 교정 목록\n\n| 내가 한 말 | 교정 | 더 자연스럽게 |\n|:----------|:-----|:--------------|\n\
| I go school yesterday | I went to school yesterday | — |\n\n\
## 📚 오늘 배운 표현\n\n- **head to: go toward**\n\n\
## 📝 전체 발화 기록\n\n\
**[14:30:01]** I go school yesterday\n→ 교정: _I went to school yesterday_\n\n\
**[14:31:00]** Nice to meet you\n→ 더 자연스럽게: _Pleased to meet you_\n\n";
    assert_eq!(md, expected);
}

#[test]
fn stats_add_up_all_sessions() {
    let s1 = vec![
        utt("a", fb("x", Some("y"), None, None, true)),
        utt("b", fb("z", None, None, None, false)),
    ];
    let s2 = vec![utt("c", fb("w", Some("v"), None, None, true))];
    let st = get_stats(&vec![s1, s2, vec![]]);
    assert_eq!(st.total_sessions, 3);
    assert_eq!(st.total_utterances, 3);
    assert_eq!(st.total_corrections, 2);
    let none = get_stats(&vec![]);
    assert_eq!((none.total_sessions, none.total_utterances, none.total_corrections), (0, 0, 0));
}

fn entry(name: &str, title: Option<&str>, source: Option<&str>) -> ReportEntry {
    ReportEntry {
        path: format!("/s/{name}"),
        file_name: Some(name.to_string()),
        title_sidecar: title.map(str::to_string),
        source_sidecar: source.map(str::to_string),
    }
}

#[test]
fn sessions_are_listed_newest_first() {
    let entries = vec![
        entry("2025-01-20_14-30-45.md", None, None),
        entry("2025-01-20_14-30-45.json", None, None),
        entry("2025-03-01_09-00-00.md", Some("Interview"), Some("uploaded\nclip.wav")),
        entry("2024-12-31_23-59-59.md", None, None),
        entry("2025-01-20_14-30-45.txt", None, None),
        ReportEntry { path: "/s/bad".into(), file_name: None, title_sidecar: None, source_sidecar: None },
    ];
    let list = list_sessions(&entries);
    let names: Vec<&str> = list.iter().map(|i| i.filename.as_str()).collect();
    assert_eq!(names, vec!["2025-03-01_09-00-00.md", "2025-01-20_14-30-45.md", "2024-12-31_23-59-59.md"]);
    assert_eq!(list[0].title, "Interview");
    assert_eq!(source_name(&list[0].source), Some("clip.wav".to_string()));
    assert_eq!(list[1].title, "Jan 20, 2:30 PM");
    assert_eq!(list[2].title, "Dec 31, 11:59 PM");
    assert_eq!(list[2].path, "/s/2024-12-31_23-59-59.md");
    assert!(list_sessions(&vec![]).is_empty());
}

#[test]
fn listing_is_strictly_newest_first_for_distinct_names() {
    let entries = vec![
        entry("2025-01-20_14-30-45.md", None, None),
        entry("2025-01-20_14-30-46.md", None, None),
        entry("2024-01-20_14-30-45.md", None, None),
        entry("2025-01-20_14-30-44.md", None, None),
    ];
    let list = list_sessions(&entries);
    for w in list.windows(2) {
        assert!(w[0].filename > w[1].filename);
    }
}

#[test]
fn listed_entry_is_the_looked_up_entry() {
    let entries = vec![
        entry("2025-03-01_09-00-00.md", Some("  Interview "), Some("uploaded\nclip.wav")),
        entry("2025-01-20_14-30-45.md", None, None),
    ];
    for info in list_sessions(&entries) {
        let e = entries.iter().find(|e| e.path == info.path).unwrap();
        let direct = get_session_info(&e.path, e.title_sidecar.as_deref(), e.source_sidecar.as_deref());
        assert_eq!(direct.filename, info.filename);
        assert_eq!(direct.title, info.title);
        assert_eq!(direct.path, info.path);
        assert_eq!(source_name(&direct.source), source_name(&info.source));
    }
}

#[test]
fn report_entries_hold_what_was_said() {
    let raws = vec![raw("00:01", "I goes home"), raw("00:04", "Hello there friend"), raw("00:09", "Ok")];
    let answers = vec![
        Some(fb("I goes home", Some("I go home"), None, None, true)),
        None,
        Some(fb("Ok", None, None, None, false)),
    ];
    let us = assemble_utterances(&raws, &answers);
    for (u, r) in us.iter().zip(raws.iter()) {
        assert_eq!(u.feedback.original, r.text);
        assert_eq!(u.timestamp, r.timestamp);
    }
}

#[test]
fn session_files_are_named_by_the_save_time() {
    assert_eq!(
        session_file_path(b"/home/me/.wtf-english/sessions", &start(), "md"),
        b"/home/me/.wtf-english/sessions/2025-01-20_14-30-45.md".to_vec()
    );
    assert_eq!(session_file_path(b"dir/", &start(), "json"), b"dir/2025-01-20_14-30-45.json".to_vec());
}
