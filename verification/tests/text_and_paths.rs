use wtf_english::paths::{
    data_root_in, file_name_of, get_bundled_model_path, get_home_model_path, get_ollama_binary_path,
    get_ollama_dir, get_ollama_models_dir, get_sessions_dir, home_model_path_in, is_markdown_file,
    join_path, ollama_binary_in, ollama_dir_in, ollama_models_dir_in, sessions_dir_in,
};
use wtf_english::text::{count_words, parse_u32, trim_str, trimmed_nonblank};

#[test]
fn trim_removes_unicode_white_space_at_both_ends() {
    assert_eq!(trim_str("  \t hello world \n"), "hello world");
    assert_eq!(trim_str("\u{3000}title\u{00A0}"), "title");
    assert_eq!(trim_str("   "), "");
}

#[test]
fn trimmed_nonblank_rejects_blank_text() {
    assert_eq!(trimmed_nonblank("  My lesson  "), Some("My lesson".to_string()));
    assert_eq!(trimmed_nonblank(" \n\t "), None);
    assert_eq!(trimmed_nonblank(""), None);
}

#[test]
fn words_are_counted_like_split_whitespace() {
    assert_eq!(count_words("I went home"), 3);
    assert_eq!(count_words("  hello   there "), 2);
    assert_eq!(count_words(""), 0);
    assert_eq!(count_words("one"), 1);
}

#[test]
fn parse_u32_follows_from_str() {
    let p = |s: &str| parse_u32(&s.chars().collect::<Vec<char>>());
    assert_eq!(p("07"), Some(7));
    assert_eq!(p("+12"), Some(12));
    assert_eq!(p("+"), None);
    assert_eq!(p(""), None);
    assert_eq!(p("-1"), None);
    assert_eq!(p("4294967295"), Some(u32::MAX));
    assert_eq!(p("4294967296"), None);
    assert_eq!(p("1a"), None);
}

#[test]
fn join_inserts_one_separator() {
    assert_eq!(join_path(b"/home/me", b".wtf-english"), b"/home/me/.wtf-english".to_vec());
    assert_eq!(join_path(b"/home/me/", b"sessions"), b"/home/me/sessions".to_vec());
    assert_eq!(join_path(b"", b"a"), b"a".to_vec());
    assert_eq!(join_path(b"/x", b"/abs"), b"/abs".to_vec());
    for (base, comp) in [("/home/me", "x"), ("/home/me/", "x"), ("", "a"), ("/x", "/abs"), ("a", "")] {
        let std_says = std::path::Path::new(base).join(comp);
        assert_eq!(join_path(base.as_bytes(), comp.as_bytes()), std_says.as_os_str().as_encoded_bytes().to_vec());
    }
}

#[test]
fn file_name_matches_std_path() {
    for p in ["/a/b/2025-01-20_14-30-45.md", "foo.txt/.", "foo.txt/.//", "/", "a/..", ".", "./x", "", "a//b/"] {
        let expected = std::path::Path::new(p).file_name().map(|f| f.to_string_lossy().into_owned());
        assert_eq!(file_name_of(p), expected, "path {p:?}");
    }
}

#[test]
fn markdown_files_are_recognised_by_extension() {
    assert!(is_markdown_file("2025-01-20_14-30-45.md"));
    assert!(is_markdown_file("a.b.md"));
    assert!(!is_markdown_file(".md"));
    assert!(!is_markdown_file("notes.json"));
    assert!(!is_markdown_file("md"));
    assert!(!is_markdown_file("x.mdx"));
    for n in ["a.md", ".md", "..", "x.", "x.md.txt"] {
        let std_says = std::path::Path::new(n).extension().map_or(false, |e| e == "md");
        assert_eq!(is_markdown_file(n), std_says, "name {n:?}");
    }
}

#[test]
fn data_directories_live_under_the_home_directory() {
    assert_eq!(data_root_in(Some(b"/home/me")), b"/home/me/.wtf-english".to_vec());
    assert_eq!(data_root_in(None), b"./.wtf-english".to_vec());
    assert_eq!(sessions_dir_in(Some(b"/home/me")), b"/home/me/.wtf-english/sessions".to_vec());
    assert_eq!(ollama_dir_in(Some(b"/home/me/")), b"/home/me/.wtf-english/ollama".to_vec());
    assert_eq!(ollama_binary_in(None), b"./.wtf-english/ollama/ollama".to_vec());
    assert_eq!(ollama_models_dir_in(Some(b"/h")), b"/h/.wtf-english/ollama-models".to_vec());
    assert_eq!(
        home_model_path_in(Some(b"/h")),
        b"/h/.wtf-english/models/ggml-medium.en.bin".to_vec()
    );
}

#[test]
fn a_home_that_is_not_utf8_is_kept_byte_for_byte() {
    let home: &[u8] = b"/home/\xffme";
    let mut expected = home.to_vec();
    expected.extend_from_slice(b"/.wtf-english/sessions");
    assert_eq!(sessions_dir_in(Some(home)), expected);
}

#[test]
fn directories_follow_the_current_home() {
    let home = dirs::home_dir().unwrap_or_else(|| std::path::PathBuf::from("."));
    let root = home.join(".wtf-english");
    let bytes = |p: std::path::PathBuf| p.into_os_string().into_encoded_bytes();
    assert_eq!(get_sessions_dir(), bytes(root.join("sessions")));
    assert_eq!(get_ollama_dir(), bytes(root.join("ollama")));
    assert_eq!(get_ollama_binary_path(), bytes(root.join("ollama").join("ollama")));
    assert_eq!(get_ollama_models_dir(), bytes(root.join("ollama-models")));
    assert_eq!(get_home_model_path(), bytes(root.join("models").join("ggml-medium.en.bin")));
}

#[test]
fn bundled_model_sits_in_the_app_resources() {
    assert_eq!(
        get_bundled_model_path(b"/Applications/Scoldler.app/Contents/MacOS"),
        b"/Applications/Scoldler.app/Contents/MacOS/../Resources/models/ggml-medium.en.bin".to_vec()
    );
}

#[test]
fn trimming_twice_is_trimming_once() {
    for s in ["  a b  ", "\u{2003}x\u{2028}", "", " \t"] {
        assert_eq!(trim_str(&trim_str(s)), trim_str(s));
    }
}
