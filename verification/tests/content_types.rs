use clipd::clipboard::{detect_content_type, is_code, is_file_path, is_url};
use clipd::models::ContentType;

const ALL: [ContentType; 6] = [
    ContentType::PlainText,
    ContentType::RichText,
    ContentType::Image,
    ContentType::FilePath,
    ContentType::Url,
    ContentType::Code,
];

#[test]
fn content_type_names_are_stable() {
    assert_eq!(ContentType::PlainText.as_str(), "plain_text");
    assert_eq!(ContentType::RichText.as_str(), "rich_text");
    assert_eq!(ContentType::Image.as_str(), "image");
    assert_eq!(ContentType::FilePath.as_str(), "file_path");
    assert_eq!(ContentType::Url.as_str(), "url");
    assert_eq!(ContentType::Code.as_str(), "code");
}

#[test]
fn content_type_name_roundtrip() {
    for t in ALL {
        assert_eq!(ContentType::from_str(t.as_str()), t);
    }
}

#[test]
fn unknown_content_type_name_reads_as_plain_text() {
    assert_eq!(ContentType::from_str("video"), ContentType::PlainText);
    assert_eq!(ContentType::from_str(""), ContentType::PlainText);
    assert_eq!(ContentType::from_str("URL"), ContentType::PlainText);
    assert_eq!(ContentType::from_str("video").as_str(), "plain_text");
}

#[test]
fn detects_urls_with_scheme() {
    assert_eq!(detect_content_type("https://github.com/aeschylus/clipd"), ContentType::Url);
    assert_eq!(detect_content_type("http://x"), ContentType::Url);
    assert_eq!(detect_content_type("ftp://files.example.org"), ContentType::Url);
    assert_eq!(detect_content_type("ssh://host"), ContentType::Url);
    assert_eq!(detect_content_type("git://repo"), ContentType::Url);
    assert_eq!(detect_content_type("   https://example.com  \n"), ContentType::Url);
}

#[test]
fn detects_bare_domains() {
    assert_eq!(detect_content_type("example.com"), ContentType::Url);
    assert_eq!(detect_content_type("github.com/aeschylus"), ContentType::Url);
    assert_eq!(detect_content_type("openai.ai"), ContentType::Url);
    assert!(!is_url("notes.txt"));
    assert!(!is_url("hello world.com"));
    assert!(!is_url(".com"));
}

#[test]
fn long_first_label_is_not_a_domain() {
    let label63 = "a".repeat(63);
    let label64 = "a".repeat(64);
    assert!(is_url(&format!("{}.com", label63)));
    assert!(!is_url(&format!("{}.com", label64)));
    // the limit counts bytes: 32 two-byte characters are 64 bytes
    let wide = "\u{e9}".repeat(32);
    assert!(!is_url(&format!("{}.com", wide)));
}

#[test]
fn detects_file_paths() {
    assert_eq!(detect_content_type("/usr/local/bin"), ContentType::FilePath);
    assert_eq!(detect_content_type("~/Documents"), ContentType::FilePath);
    assert_eq!(detect_content_type("C:\\Windows\\System32"), ContentType::FilePath);
    assert_eq!(detect_content_type("D:/data"), ContentType::FilePath);
    assert_eq!(detect_content_type("\\\\server\\share"), ContentType::FilePath);
    assert!(!is_file_path("C:"));
    assert!(!is_file_path("\u{e9}:/x"));
}

#[test]
fn paths_are_never_read_as_bare_domains() {
    // these also hold a dot and a slash, as a bare domain does
    assert!(is_url("/tmp/site.com"));
    assert_eq!(detect_content_type("/tmp/site.com"), ContentType::FilePath);
    assert_eq!(detect_content_type("/home/user/notes.txt"), ContentType::FilePath);
    assert_eq!(detect_content_type("~/notes.md"), ContentType::FilePath);
    assert_eq!(detect_content_type("  ~/notes.txt\n"), ContentType::FilePath);
    assert_eq!(detect_content_type("/tmp/site com"), ContentType::FilePath);
    assert_eq!(detect_content_type("site.com/tmp"), ContentType::Url);
    assert_eq!(detect_content_type("https://site.com/x"), ContentType::Url);
}

#[test]
fn detects_code() {
    assert_eq!(detect_content_type("#!/bin/sh\necho hi"), ContentType::Code);
    assert_eq!(detect_content_type("fn main() { let x = 1; }"), ContentType::Code);
    assert!(is_code("a && b || c"));
    assert!(!is_code("let it be"));
    assert!(is_code("block:\n    one\n    two\nend"));
    assert!(!is_code("block:\n    one\ntwo"));
    assert!(is_code("x {\n}()"));
    assert!(!is_code("x { }()"));
}

#[test]
fn indentation_counts_lines_like_str_lines() {
    // three lines, two indented by a tab, with CRLF endings
    assert!(is_code("head\r\n\tone\r\n\ttwo\r\n"));
    // a trailing newline does not make an extra line
    assert!(!is_code("head\n\tone\n"));
}

#[test]
fn plain_text_fallback() {
    assert_eq!(detect_content_type("hello world"), ContentType::PlainText);
    assert_eq!(detect_content_type(""), ContentType::PlainText);
    assert_eq!(detect_content_type("notes.txt"), ContentType::PlainText);
}

#[test]
fn surrounding_white_space_keeps_the_type() {
    let samples = [
        "https://x.com/a",
        "/tmp/a.txt",
        "fn main() { let x = 1; }",
        "hello there",
        "example.io",
        "\u{3000}~/notes\u{2028}",
    ];
    for c in samples {
        let t = detect_content_type(c);
        assert_eq!(detect_content_type(&format!(" \n{}\t ", c)), t);
        assert_eq!(detect_content_type(&format!("\u{a0}\u{2003}{}\u{85}", c)), t);
        assert_eq!(detect_content_type(c.trim()), t);
    }
}
