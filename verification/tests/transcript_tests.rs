use thoughtcast::transcript::{clean_transcript, generate_preview};

#[test]
fn test_clean_transcript_removes_timestamps() {
    let raw = "[00:00:00.000 --> 00:00:02.000]\nHello world\n[00:00:02.000 --> 00:00:04.000]\nThis is a test";
    let cleaned = clean_transcript(raw);
    assert_eq!(cleaned, "Hello world\nThis is a test");
}

#[test]
fn test_clean_transcript_preserves_text() {
    let raw = "Hello world\nThis is a test";
    let cleaned = clean_transcript(raw);
    assert_eq!(cleaned, "Hello world\nThis is a test");
}

#[test]
fn test_clean_transcript_handles_empty() {
    let raw = "";
    let cleaned = clean_transcript(raw);
    assert_eq!(cleaned, "");
}

#[test]
fn test_clean_transcript_preserves_brackets_in_text() {
    let raw = "The formula is [a + b] equals c\nAnother line with [brackets]";
    let cleaned = clean_transcript(raw);
    assert_eq!(cleaned, "The formula is [a + b] equals c\nAnother line with [brackets]");
}

#[test]
fn test_clean_transcript_mixed_timestamps_and_text() {
    let raw = "[00:00:00.000 --> 00:00:02.000]\nHello world\nSome text\n[00:00:02.000 --> 00:00:04.000]\nMore text";
    let cleaned = clean_transcript(raw);
    assert_eq!(cleaned, "Hello world\nSome text\nMore text");
}

#[test]
fn test_clean_transcript_only_timestamps() {
    let raw = "[00:00:00.000 --> 00:00:02.000]\n[00:00:02.000 --> 00:00:04.000]";
    let cleaned = clean_transcript(raw);
    assert_eq!(cleaned, "");
}

#[test]
fn test_clean_transcript_whitespace_handling() {
    let raw = "  \n  Hello world  \n  [00:00:00.000 --> 00:00:02.000]  \n  Test  \n  ";
    let cleaned = clean_transcript(raw);
    // Preserves internal lines but trims overall
    assert_eq!(cleaned, "Hello world  \n  Test");
}

#[test]
fn test_clean_transcript_multiline_text() {
    let raw = "[00:00:00.000 --> 00:00:02.000]\nLine 1\nLine 2\nLine 3\n[00:00:02.000 --> 00:00:04.000]\nLine 4";
    let cleaned = clean_transcript(raw);
    assert_eq!(cleaned, "Line 1\nLine 2\nLine 3\nLine 4");
}

#[test]
fn test_clean_transcript_single_annotation_line() {
    let cleaned = clean_transcript("[00:00:00.000 --> 00:00:02.000]\nHello");
    assert_eq!(cleaned, "Hello");
}

#[test]
fn test_clean_transcript_bracket_without_arrow_preserved() {
    let cleaned = clean_transcript("[note to self]\nHello");
    assert_eq!(cleaned, "[note to self]\nHello");
}

#[test]
fn test_generate_preview_empty() {
    assert_eq!(generate_preview(""), "No transcript");
}

#[test]
fn test_generate_preview_short() {
    assert_eq!(generate_preview("short text"), "short text");
}

#[test]
fn test_generate_preview_long() {
    let long: String = "a".repeat(150);
    let preview = generate_preview(&long);
    assert_eq!(preview.chars().count(), 103);
    assert!(preview.ends_with("..."));
    assert!(preview.starts_with(&"a".repeat(100)));
}

#[test]
fn test_generate_preview_exactly_hundred() {
    let text: String = "b".repeat(100);
    assert_eq!(generate_preview(&text), text);
}
