use vstd::prelude::*;

use crate::errors::{LedgerError, StateError};
use crate::session::{updated_session_view, Session, SessionIndex, SessionV};
use crate::state::{RecordingState, RecordingStatus};
use crate::timefmt::{format_rfc3339, format_session_id, rfc3339_chars, session_id_chars};
use crate::transcript::{generate_preview, preview_spec};

verus! {

/// The outcome of one run of the external transcription pipeline, as its
/// caller observed it.
pub enum TranscriptionOutcome {
    /// The tool produced a transcript, saved under `transcript_path`.
    Done { transcript_path: String, text: String },
    /// The pipeline failed, with a diagnostic message.
    Failed { message: String },
}

/// Payload of the completion notification.
pub struct TranscriptionCompleteEvent {
    pub session: Session,
}

/// Payload of the failure notification.
pub struct TranscriptionErrorEvent {
    pub session_id: String,
    pub error: String,
}

/// The terminal notification of one `stop`: emitted exactly once by the
/// transcription worker, on success or failure.
pub enum TranscriptionResult {
    /// The updated session record.
    Success(Session),
    /// The session id and what went wrong.
    Error { session_id: String, error: String },
}

/// The relative path under which a session's audio is stored.
pub fn audio_relative_path(id: &str) -> (r: String)
    ensures
        r@ == "audio/"@ + id@ + ".wav"@,
{
    let mut p = "audio/".to_owned();
    p.append(id);
    p.append(".wav");
    p
}

/// The relative path under which a session's transcript is stored.
pub fn transcript_relative_path(id: &str) -> (r: String)
    ensures
        r@ == "text/"@ + id@ + ".txt"@,
{
    let mut p = "text/".to_owned();
    p.append(id);
    p.append(".txt");
    p
}

/// The provisional session record that `stop_recording` creates: a
/// placeholder preview, no transcript, no statistics.
fn provisional_session(id: &str, timestamp: &str, audio_path: &str, duration_ms: u64) -> (r:
    Session)
    ensures
        r@ == (SessionV {
            id: id@,
            timestamp: timestamp@,
            audio_path: audio_path@,
            duration_ms: duration_ms,
            preview: "Processing..."@,
            transcript_path: Seq::<char>::empty(),
            clipboard_copied: false,
            transcription_time_ms: None,
            model_path: None,
        }),
{
    let r = Session {
        id: id.to_owned(),
        timestamp: timestamp.to_owned(),
        audio_path: audio_path.to_owned(),
        duration_ms,
        preview: "Processing...".to_owned(),
        transcript_path: String::new(),
        clipboard_copied: false,
        transcription_time_ms: None,
        model_path: None,
    };
    proof {
        assert(r@ =~= (SessionV {
            id: id@,
            timestamp: timestamp@,
            audio_path: audio_path@,
            duration_ms: duration_ms,
            preview: "Processing..."@,
            transcript_path: Seq::<char>::empty(),
            clipboard_copied: false,
            transcription_time_ms: None,
            model_path: None,
        }));
    }
    r
}

/// End the active session at clock reading `now_ms`: fold any open pause
/// interval, compute the active duration, move the state machine to
/// `Processing`, drain the sample buffer, stamp an id and a timestamp from
/// the clock reading, and prepend a provisional session record to the ledger.
/// Fails with `NotActive`, changing nothing, exactly when no session is
/// active. The caller persists the returned samples under the session's
/// audio path and runs the transcription phase; the status returns to `Idle`
/// only through `RecordingState::finish_processing`.
pub fn stop_recording(state: &mut RecordingState, index: &mut SessionIndex, now_ms: u64) -> (r:
    Result<(Session, Vec<i16>), StateError>)
    requires
        old(state).wf(),
        old(state).clock_ms@ <= now_ms,
    ensures
        final(state).wf(),
        r is Err <==> !old(state).spec_is_active(),
        r is Err ==> r == Err::<(Session, Vec<i16>), StateError>(StateError::NotActive)
            && *final(state) == *old(state) && *final(index) == *old(index),
        r matches Ok(p) ==> {
            let folded = if old(state).status == RecordingStatus::Paused {
                old(state).total_paused_ms + (now_ms - old(state).pause_start_ms.unwrap())
            } else {
                old(state).total_paused_ms as int
            };
            &&& p.0@.id == session_id_chars(now_ms)
            &&& p.0@.timestamp == rfc3339_chars(now_ms)
            &&& p.0@.audio_path == "audio/"@ + session_id_chars(now_ms) + ".wav"@
            &&& p.0.duration_ms == now_ms - old(state).start_time_ms.unwrap() - folded
            &&& p.0@.preview == "Processing..."@
            &&& p.0@.transcript_path == Seq::<char>::empty()
            &&& p.0.clipboard_copied == false
            &&& p.0.transcription_time_ms is None
            &&& p.0@.model_path is None
            &&& p.1@ == old(state).samples@
            &&& final(state).status == RecordingStatus::Processing
            &&& final(state).samples@ == Seq::<i16>::empty()
            &&& final(index)@ == seq![p.0@] + old(index)@
        },
{
    let snapshot = match state.stop(now_ms) {
        Ok(s) => s,
        Err(e) => {
            return Err(e);
        },
    };
    let id = format_session_id(now_ms);
    let timestamp = format_rfc3339(now_ms);
    let audio_path = audio_relative_path(id.as_str());
    let for_ledger = provisional_session(
        id.as_str(),
        timestamp.as_str(),
        audio_path.as_str(),
        snapshot.duration_ms,
    );
    let for_caller = provisional_session(
        id.as_str(),
        timestamp.as_str(),
        audio_path.as_str(),
        snapshot.duration_ms,
    );
    index.add_session(for_ledger);
    Ok((for_caller, snapshot.samples))
}

/// What the transcription worker writes back, derived from the pipeline's
/// outcome: the transcript reference (empty on failure), the preview (from
/// the text on success, the failure message otherwise — a failure never
/// discards the already-saved audio), and whether the text is worth copying
/// to the clipboard (only a non-empty transcript is).
pub fn transcription_artifacts(outcome: &TranscriptionOutcome) -> (r: (String, String, bool))
    ensures
        match *outcome {
            TranscriptionOutcome::Done { transcript_path, text } => {
                &&& r.0@ == transcript_path@
                &&& r.1@ == preview_spec(text@)
                &&& r.2 == (text@.len() > 0)
            },
            TranscriptionOutcome::Failed { message } => {
                &&& r.0@ == Seq::<char>::empty()
                &&& r.1@ == "Transcription failed: "@ + message@
                &&& r.2 == false
            },
        },
{
    match outcome {
        TranscriptionOutcome::Done { transcript_path, text } => {
            let preview = generate_preview(text.as_str());
            (transcript_path.clone(), preview, text.unicode_len() > 0)
        },
        TranscriptionOutcome::Failed { message } => {
            let mut msg = "Transcription failed: ".to_owned();
            msg.append(message.as_str());
            (String::new(), msg, false)
        },
    }
}

/// The session value after a re-transcription: like the transcription phase's
/// update, except that the clipboard flag is left as it was.
pub open spec fn retranscribed_session_view(
    s: SessionV,
    transcript_path: Seq<char>,
    preview: Seq<char>,
    elapsed_ms: u64,
    model_path: Option<Seq<char>>,
) -> SessionV {
    updated_session_view(s, transcript_path, preview, s.clipboard_copied, elapsed_ms, model_path)
}

/// Write a re-transcription of an existing session into the ledger: the new
/// transcript reference, a preview derived from the new text, and — exactly
/// when a transcript exists and the session's duration is positive — fresh
/// timing statistics. Fails with `NotFound`, changing nothing, exactly when
/// no session has the id. Returns the transcript text.
pub fn retranscribe_session(
    index: &mut SessionIndex,
    session_id: &str,
    transcript_path: &str,
    text: &str,
    elapsed_ms: u64,
    model_path: &Option<String>,
) -> (r: Result<String, LedgerError>)
    ensures
        r is Err <==> (forall|k: int|
            0 <= k < old(index)@.len() ==> (#[trigger] old(index)@[k]).id != session_id@),
        r is Err ==> r == Err::<String, LedgerError>(LedgerError::NotFound) && *final(index)
            == *old(index),
        r matches Ok(t) ==> {
            &&& t@ == text@
            &&& exists|i: int|
                {
                    &&& 0 <= i < old(index)@.len()
                    &&& (#[trigger] old(index)@[i]).id == session_id@
                    &&& (forall|k: int|
                        0 <= k < i ==> (#[trigger] old(index)@[k]).id != session_id@)
                    &&& final(index)@ == old(index)@.update(
                        i,
                        retranscribed_session_view(
                            old(index)@[i],
                            transcript_path@,
                            preview_spec(text@),
                            elapsed_ms,
                            match *model_path {
                                Some(m) => Some(m@),
                                None => None,
                            },
                        ),
                    )
                }
        },
{
    let found = index.find_session(session_id);
    let i = match found {
        Some(i) => i,
        None => {
            return Err(LedgerError::NotFound);
        },
    };
    let clipboard_copied = index.sessions[i].clipboard_copied;
    let preview = generate_preview(text);
    let updated = index.record_transcription(
        session_id,
        transcript_path,
        preview.as_str(),
        clipboard_copied,
        elapsed_ms,
        model_path,
    );
    match updated {
        Ok(_) => Ok(text.to_owned()),
        Err(e) => {
            // unreachable: the session was found above
            Err(e)
        },
    }
}

} // verus!
