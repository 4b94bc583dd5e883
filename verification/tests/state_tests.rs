use thoughtcast::errors::StateError;
use thoughtcast::session::SessionIndex;
use thoughtcast::state::{RecordingState, RecordingStatus};

#[test]
fn test_stop_on_idle_fails_not_active() {
    let mut st = RecordingState::new();
    assert_eq!(st.stop(5), Err(StateError::NotActive));
}

#[test]
fn test_start_while_recording_fails_already_active() {
    let mut st = RecordingState::new();
    assert!(st.start(10).is_ok());
    assert_eq!(st.start(20), Err(StateError::AlreadyActive));
}

#[test]
fn test_start_while_paused_fails_already_active() {
    let mut st = RecordingState::new();
    assert!(st.start(10).is_ok());
    assert!(st.pause(20).is_ok());
    assert_eq!(st.start(30), Err(StateError::AlreadyActive));
}

#[test]
fn test_pause_when_idle_fails_not_recording() {
    let mut st = RecordingState::new();
    assert_eq!(st.pause(5), Err(StateError::NotRecording));
}

#[test]
fn test_resume_when_recording_fails_not_paused() {
    let mut st = RecordingState::new();
    assert!(st.start(10).is_ok());
    assert_eq!(st.resume(20), Err(StateError::NotPaused));
}

#[test]
fn test_cancel_when_idle_fails_not_active() {
    let mut st = RecordingState::new();
    assert_eq!(st.cancel(), Err(StateError::NotActive));
}

#[test]
fn test_paused_duration_accounting() {
    // two completed pause intervals: 500 ms and 1000 ms
    let mut st = RecordingState::new();
    assert!(st.start(0).is_ok());
    assert!(st.pause(1000).is_ok());
    assert!(st.resume(1500).is_ok());
    assert!(st.pause(2000).is_ok());
    assert!(st.resume(3000).is_ok());
    assert_eq!(st.total_paused_ms, 1500);
    let snap = st.stop(4000).unwrap();
    assert_eq!(snap.duration_ms, 2500);
}

#[test]
fn test_stop_folds_open_pause_interval() {
    let mut st = RecordingState::new();
    assert!(st.start(0).is_ok());
    assert!(st.pause(1000).is_ok());
    // stop while paused: the open interval 1000..3000 is folded in
    let snap = st.stop(3000).unwrap();
    assert_eq!(snap.duration_ms, 1000);
    assert_eq!(st.total_paused_ms, 2000);
}

#[test]
fn test_stop_scenario_duration_excludes_pause() {
    // start, capture 2000 samples, pause, resume 500 ms later, stop:
    // active duration is elapsed wall time minus the 500 ms pause.
    let mut st = RecordingState::new();
    assert!(st.start(1000).is_ok());
    let chunk: Vec<i16> = vec![100; 2000];
    st.append_samples(&chunk);
    assert!(st.pause(3000).is_ok());
    assert!(st.resume(3500).is_ok());
    let snap = st.stop(6000).unwrap();
    assert_eq!(snap.duration_ms, (6000 - 1000) - 500);
    assert_eq!(snap.samples.len(), 2000);
}

#[test]
fn test_cancel_creates_nothing() {
    let mut st = RecordingState::new();
    let index = SessionIndex::new();
    assert!(st.start(10).is_ok());
    let chunk: Vec<i16> = vec![5; 100];
    st.append_samples(&chunk);
    assert_eq!(st.cancel(), Ok(()));
    assert_eq!(st.samples.len(), 0);
    assert!(st.start_time_ms.is_none());
    assert_eq!(st.total_paused_ms, 0);
    // nothing was ever produced to persist
    assert_eq!(index.len(), 0);
}

#[test]
fn test_samples_discarded_while_paused() {
    let mut st = RecordingState::new();
    assert!(st.start(0).is_ok());
    st.append_samples(&vec![1; 10]);
    assert!(st.pause(100).is_ok());
    st.append_samples(&vec![2; 5]);
    assert_eq!(st.samples.len(), 10);
    assert!(st.resume(200).is_ok());
    st.append_samples(&vec![3; 5]);
    assert_eq!(st.samples.len(), 15);
}

#[test]
fn test_duration_counts_open_pause() {
    let mut st = RecordingState::new();
    assert!(st.start(0).is_ok());
    assert!(st.pause(1000).is_ok());
    // while paused the duration is frozen at the pause start
    assert_eq!(st.duration_ms(2000), 1000);
    assert!(st.resume(3000).is_ok());
    assert_eq!(st.duration_ms(4000), 2000);
}

#[test]
fn test_duration_zero_when_inactive() {
    let mut st = RecordingState::new();
    assert_eq!(st.duration_ms(500), 0);
    assert!(st.start(1000).is_ok());
    let _ = st.stop(2000).unwrap();
    // Processing is not active: observers see zero
    assert_eq!(st.duration_ms(3000), 0);
}

#[test]
fn test_status_transitions() {
    let mut st = RecordingState::new();
    assert_eq!(st.status, RecordingStatus::Idle);
    assert!(!st.is_active());
    assert!(st.start(10).is_ok());
    assert_eq!(st.status, RecordingStatus::Recording);
    assert!(st.is_recording());
    assert!(st.is_active());
    assert!(st.pause(20).is_ok());
    assert_eq!(st.status, RecordingStatus::Paused);
    assert!(!st.is_recording());
    assert!(st.is_active());
    assert!(st.resume(30).is_ok());
    assert_eq!(st.status, RecordingStatus::Recording);
    let _ = st.stop(40).unwrap();
    assert_eq!(st.status, RecordingStatus::Processing);
    assert!(!st.is_active());
    st.finish_processing();
    assert_eq!(st.status, RecordingStatus::Idle);
}

#[test]
fn test_get_levels_empty_unless_recording() {
    let mut st = RecordingState::new();
    assert_eq!(st.get_levels().len(), 0);
    assert!(st.start(0).is_ok());
    st.append_samples(&vec![1000; 800]);
    assert_eq!(st.get_levels().len(), 20);
    assert!(st.pause(10).is_ok());
    assert_eq!(st.get_levels().len(), 0);
}

#[test]
fn test_start_clears_previous_buffer() {
    let mut st = RecordingState::new();
    assert!(st.start(0).is_ok());
    st.append_samples(&vec![7; 50]);
    let _ = st.stop(100).unwrap();
    st.finish_processing();
    assert!(st.start(200).is_ok());
    assert_eq!(st.samples.len(), 0);
    assert_eq!(st.total_paused_ms, 0);
}

#[test]
fn test_error_messages() {
    assert_eq!(StateError::AlreadyActive.message(), "Recording is already in progress.");
    assert_eq!(StateError::NotActive.message(), "No active recording to stop.");
    assert_eq!(StateError::NotRecording.message(), "No active recording to pause.");
    assert_eq!(StateError::NotPaused.message(), "No paused recording to resume.");
}
