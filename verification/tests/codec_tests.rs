use thoughtcast::lifecycle::stop_recording;
use thoughtcast::session::{Session, SessionIndex};
use thoughtcast::state::RecordingState;

fn create_test_session(id: &str, duration_ms: u64) -> Session {
    Session {
        id: id.to_string(),
        timestamp: "2024-11-02T15:30:00Z".to_string(),
        audio_path: format!("audio/{}.wav", id),
        duration_ms,
        preview: format!("Preview for {}", id),
        transcript_path: format!("text/{}.txt", id),
        clipboard_copied: false,
        transcription_time_ms: None,
        model_path: None,
    }
}

#[test]
fn test_empty_session_index() {
    let index = SessionIndex::new();
    let json = index.to_json();
    let parsed = SessionIndex::from_json(&json).unwrap();
    assert_eq!(parsed.sessions.len(), 0);
}

#[test]
fn test_session_index_serialization() {
    let mut index = SessionIndex::new();
    index.add_session(create_test_session("session2", 45000));
    index.add_session(create_test_session("session1", 30000));

    let json = index.to_json();
    let parsed = SessionIndex::from_json(&json).unwrap();

    assert_eq!(parsed.sessions.len(), 2);
    assert_eq!(parsed.sessions[0].id, "session1");
    assert_eq!(parsed.sessions[1].id, "session2");
}

#[test]
fn test_session_index_round_trip() {
    let mut index = SessionIndex::new();
    index.add_session(create_test_session("test2", 20300));
    index.add_session(create_test_session("test1", 10500));

    let json = index.to_json();
    let parsed = SessionIndex::from_json(&json).unwrap();

    assert_eq!(parsed.sessions.len(), 2);
    assert_eq!(parsed.sessions[0].id, "test1");
    assert_eq!(parsed.sessions[0].duration_ms, 10500);
    assert_eq!(parsed.sessions[1].id, "test2");
    assert_eq!(parsed.sessions[1].duration_ms, 20300);
}

#[test]
fn test_session_with_all_fields() {
    let session = Session {
        id: "full-session".to_string(),
        timestamp: "2024-11-02T15:30:00Z".to_string(),
        audio_path: "audio/full-session.wav".to_string(),
        duration_ms: 123450,
        preview: "Complete preview text".to_string(),
        transcript_path: "text/full-session.txt".to_string(),
        clipboard_copied: true,
        transcription_time_ms: Some(18500),
        model_path: Some("/path/to/model.bin".to_string()),
    };
    let mut index = SessionIndex::new();
    index.add_session(session);

    let json = index.to_json();
    let parsed = SessionIndex::from_json(&json).unwrap();
    let s = &parsed.sessions[0];

    assert_eq!(s.id, "full-session");
    assert_eq!(s.timestamp, "2024-11-02T15:30:00Z");
    assert_eq!(s.audio_path, "audio/full-session.wav");
    assert_eq!(s.duration_ms, 123450);
    assert_eq!(s.preview, "Complete preview text");
    assert_eq!(s.transcript_path, "text/full-session.txt");
    assert_eq!(s.clipboard_copied, true);
    assert_eq!(s.transcription_time_ms, Some(18500));
    assert_eq!(s.model_path, Some("/path/to/model.bin".to_string()));
}

#[test]
fn test_round_trip_with_special_characters() {
    let mut session = create_test_session("s1", 1000);
    session.preview = "line\nbreak \"quoted\" back\\slash\ttab\rreturn".to_string();
    session.id = "weird \"id\"".to_string();
    let mut index = SessionIndex::new();
    index.add_session(session);

    let json = index.to_json();
    let parsed = SessionIndex::from_json(&json).unwrap();

    assert_eq!(parsed.sessions[0].preview, "line\nbreak \"quoted\" back\\slash\ttab\rreturn");
    assert_eq!(parsed.sessions[0].id, "weird \"id\"");
}

#[test]
fn test_from_json_rejects_garbage() {
    assert!(SessionIndex::from_json("").is_none());
    assert!(SessionIndex::from_json("nonsense").is_none());
    assert!(SessionIndex::from_json("{\"sessions\":[").is_none());
    assert!(SessionIndex::from_json("{\"sessions\":[]}extra").is_none());
}

#[test]
fn test_stop_recording_stamps_id_and_timestamp() {
    // 2024-11-02 15:30:00 UTC, in milliseconds since the epoch
    let now_ms: u64 = 1730561400000;
    let mut st = RecordingState::new();
    let mut index = SessionIndex::new();
    assert!(st.start(now_ms - 45500).is_ok());
    st.append_samples(&vec![3; 1200]);
    let (session, samples) = stop_recording(&mut st, &mut index, now_ms).unwrap();

    assert_eq!(session.id, "2024-11-02_15-30-00");
    assert_eq!(session.timestamp, "2024-11-02T15:30:00+00:00");
    assert_eq!(session.audio_path, "audio/2024-11-02_15-30-00.wav");
    assert_eq!(session.duration_ms, 45500);
    assert_eq!(session.preview, "Processing...");
    assert_eq!(samples.len(), 1200);
    assert_eq!(index.sessions.len(), 1);
    assert_eq!(index.sessions[0].id, "2024-11-02_15-30-00");
}

#[test]
fn test_stop_recording_ledger_round_trip() {
    let mut st = RecordingState::new();
    let mut index = SessionIndex::new();
    assert!(st.start(1000).is_ok());
    let _ = stop_recording(&mut st, &mut index, 61000).unwrap();

    let json = index.to_json();
    let parsed = SessionIndex::from_json(&json).unwrap();
    assert_eq!(parsed.sessions.len(), 1);
    assert_eq!(parsed.sessions[0].duration_ms, 60000);
    assert_eq!(parsed.sessions[0].id, index.sessions[0].id);
}
