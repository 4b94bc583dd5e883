use thoughtcast::errors::{LedgerError, SetupError};
use thoughtcast::lifecycle::{
    audio_relative_path, retranscribe_session, transcript_relative_path, transcription_artifacts,
    TranscriptionOutcome,
};
use thoughtcast::session::{
    extract_transcription_stats, validate_whisper_setup, Session, SessionIndex, WhisperConfig,
};

fn create_test_session(id: &str, duration_ms: u64) -> Session {
    Session {
        id: id.to_string(),
        timestamp: "2024-11-02T15:30:00Z".to_string(),
        audio_path: format!("audio/{}.wav", id),
        duration_ms,
        preview: format!("Preview for {}", id),
        transcript_path: format!("text/{}.txt", id),
        clipboard_copied: false,
        transcription_time_ms: None,
        model_path: None,
    }
}

#[test]
fn test_session_ordering_insert_at_beginning() {
    let mut index = SessionIndex::new();
    index.add_session(create_test_session("old-session", 30000));
    index.add_session(create_test_session("new-session", 45000));

    assert_eq!(index.sessions[0].id, "new-session");
    assert_eq!(index.sessions[1].id, "old-session");
}

#[test]
fn test_update_session_finder() {
    let mut index = SessionIndex::new();
    index.add_session(create_test_session("session3", 60000));
    index.add_session(create_test_session("session2", 45000));
    index.add_session(create_test_session("session1", 30000));

    let updated = index
        .record_transcription("session2", "text/session2.txt", "Updated preview", true, 0, &None)
        .unwrap();

    assert_eq!(updated.id, "session2");
    assert_eq!(index.sessions[1].clipboard_copied, true);
    assert_eq!(index.sessions[1].preview, "Updated preview");
    // the others are untouched
    assert_eq!(index.sessions[0].preview, "Preview for session1");
    assert_eq!(index.sessions[2].preview, "Preview for session3");
}

#[test]
fn test_session_not_found() {
    let mut index = SessionIndex::new();
    index.add_session(create_test_session("session1", 30000));

    assert!(index.find_session("nonexistent").is_none());
    let result = index.record_transcription("nonexistent", "", "x", false, 0, &None);
    assert_eq!(result.unwrap_err(), LedgerError::NotFound);
}

#[test]
fn test_record_transcription_sets_statistics() {
    let mut index = SessionIndex::new();
    index.add_session(create_test_session("s1", 30000));

    let updated = index
        .record_transcription(
            "s1",
            "text/s1.txt",
            "hello",
            true,
            4500,
            &Some("/model.bin".to_string()),
        )
        .unwrap();

    assert_eq!(updated.transcription_time_ms, Some(4500));
    assert_eq!(updated.model_path, Some("/model.bin".to_string()));
    assert_eq!(index.sessions[0].transcription_time_ms, Some(4500));
}

#[test]
fn test_record_transcription_no_statistics_without_transcript() {
    let mut index = SessionIndex::new();
    index.add_session(create_test_session("s1", 30000));

    // empty transcript reference: a failed transcription records no timing
    let updated = index
        .record_transcription("s1", "", "Transcription failed: boom", false, 4500, &None)
        .unwrap();

    assert_eq!(updated.transcription_time_ms, None);
    assert_eq!(updated.model_path, None);
    assert_eq!(updated.preview, "Transcription failed: boom");
}

#[test]
fn test_record_transcription_no_statistics_for_zero_duration() {
    let mut index = SessionIndex::new();
    index.add_session(create_test_session("s1", 0));

    let updated = index
        .record_transcription("s1", "text/s1.txt", "hello", false, 4500, &None)
        .unwrap();

    assert_eq!(updated.transcription_time_ms, None);
}

#[test]
fn test_retranscribe_session_updates_ledger() {
    let mut index = SessionIndex::new();
    let mut s = create_test_session("s1", 30000);
    s.clipboard_copied = true;
    index.add_session(s);

    let text = retranscribe_session(
        &mut index,
        "s1",
        "text/s1.txt",
        "the new transcript",
        2500,
        &Some("/model.bin".to_string()),
    )
    .unwrap();

    assert_eq!(text, "the new transcript");
    assert_eq!(index.sessions[0].preview, "the new transcript");
    assert_eq!(index.sessions[0].transcript_path, "text/s1.txt");
    // the clipboard flag is left as it was
    assert_eq!(index.sessions[0].clipboard_copied, true);
    assert_eq!(index.sessions[0].transcription_time_ms, Some(2500));
}

#[test]
fn test_retranscribe_session_not_found() {
    let mut index = SessionIndex::new();
    let r = retranscribe_session(&mut index, "ghost", "text/ghost.txt", "x", 1, &None);
    assert_eq!(r.unwrap_err(), LedgerError::NotFound);
}

#[test]
fn test_extract_transcription_stats_filters() {
    let mut with_stats = create_test_session("a", 60000);
    with_stats.transcription_time_ms = Some(9000);
    with_stats.model_path = Some("/m.bin".to_string());
    let without_time = create_test_session("b", 30000);
    let mut without_model = create_test_session("c", 30000);
    without_model.transcription_time_ms = Some(5000);

    let sessions = vec![with_stats, without_time, without_model];
    let stats = extract_transcription_stats(&sessions);

    assert_eq!(stats.version, 1);
    assert_eq!(stats.stats.len(), 1);
    assert_eq!(stats.stats[0].audio_duration_ms, 60000);
    assert_eq!(stats.stats[0].transcription_time_ms, 9000);
    assert_eq!(stats.stats[0].model_path, "/m.bin");
}

#[test]
fn test_validate_whisper_setup() {
    let config = WhisperConfig {
        whisper_path: "/usr/local/bin/whisper-cli".to_string(),
        model_path: "/models/ggml-base.bin".to_string(),
        voice_notes_dir: None,
    };
    assert_eq!(validate_whisper_setup(&config, false, false), Err(SetupError::ToolMissing));
    assert_eq!(validate_whisper_setup(&config, false, true), Err(SetupError::ToolMissing));
    assert_eq!(validate_whisper_setup(&config, true, false), Err(SetupError::ModelMissing));
    assert_eq!(validate_whisper_setup(&config, true, true), Ok(()));
}

#[test]
fn test_relative_paths() {
    assert_eq!(audio_relative_path("2024-11-02_15-30-00"), "audio/2024-11-02_15-30-00.wav");
    assert_eq!(transcript_relative_path("2024-11-02_15-30-00"), "text/2024-11-02_15-30-00.txt");
}

#[test]
fn test_transcription_artifacts_success() {
    let outcome = TranscriptionOutcome::Done {
        transcript_path: "text/a.txt".to_string(),
        text: "hello world".to_string(),
    };
    let (path, preview, wants_clipboard) = transcription_artifacts(&outcome);
    assert_eq!(path, "text/a.txt");
    assert_eq!(preview, "hello world");
    assert!(wants_clipboard);
}

#[test]
fn test_transcription_artifacts_empty_text() {
    let outcome = TranscriptionOutcome::Done {
        transcript_path: "text/a.txt".to_string(),
        text: "".to_string(),
    };
    let (path, preview, wants_clipboard) = transcription_artifacts(&outcome);
    assert_eq!(path, "text/a.txt");
    assert_eq!(preview, "No transcript");
    assert!(!wants_clipboard);
}

#[test]
fn test_transcription_artifacts_failure() {
    let outcome = TranscriptionOutcome::Failed { message: "tool crashed".to_string() };
    let (path, preview, wants_clipboard) = transcription_artifacts(&outcome);
    assert_eq!(path, "");
    assert_eq!(preview, "Transcription failed: tool crashed");
    assert!(!wants_clipboard);
}
