use vstd::prelude::*;

use crate::errors::{LedgerError, SetupError};
use crate::estimator::{TranscriptionStat, TranscriptionStatV, TranscriptionStats};
use crate::text::str_eq;

verus! {

/// Configuration of the external speech tool: where the binary and the model
/// live, and optionally where notes should go. Read-only, externally supplied.
#[derive(Clone, Debug)]
pub struct WhisperConfig {
    pub whisper_path: String,
    pub model_path: String,
    pub voice_notes_dir: Option<String>,
}

/// One completed recording and its derived artifacts.
#[derive(Debug)]
pub struct Session {
    /// Timestamp-derived, unique, sortable id.
    pub id: String,
    /// RFC 3339 timestamp of when the session was stopped.
    pub timestamp: String,
    /// Audio file reference, relative to the storage directory.
    pub audio_path: String,
    /// Active duration in milliseconds: wall-clock time minus paused time.
    pub duration_ms: u64,
    /// Preview text shown in the session list.
    pub preview: String,
    /// Transcript file reference; empty until transcription succeeds.
    pub transcript_path: String,
    /// Whether the transcript was automatically copied to the clipboard.
    pub clipboard_copied: bool,
    /// How long transcription took, used only for statistics.
    pub transcription_time_ms: Option<u64>,
    /// The model used, used only for statistics.
    pub model_path: Option<String>,
}

/// The mathematical value of a `Session`.
#[verifier::ext_equal]
pub ghost struct SessionV {
    pub id: Seq<char>,
    pub timestamp: Seq<char>,
    pub audio_path: Seq<char>,
    pub duration_ms: u64,
    pub preview: Seq<char>,
    pub transcript_path: Seq<char>,
    pub clipboard_copied: bool,
    pub transcription_time_ms: Option<u64>,
    pub model_path: Option<Seq<char>>,
}

impl View for Session {
    type V = SessionV;

    open spec fn view(&self) -> SessionV {
        SessionV {
            id: self.id@,
            timestamp: self.timestamp@,
            audio_path: self.audio_path@,
            duration_ms: self.duration_ms,
            preview: self.preview@,
            transcript_path: self.transcript_path@,
            clipboard_copied: self.clipboard_copied,
            transcription_time_ms: self.transcription_time_ms,
            model_path: match self.model_path {
                Some(m) => Some(m@),
                None => None,
            },
        }
    }
}

/// The ordered ledger of sessions, newest first.
pub struct SessionIndex {
    pub sessions: Vec<Session>,
}

impl View for SessionIndex {
    type V = Seq<SessionV>;

    open spec fn view(&self) -> Seq<SessionV> {
        self.sessions@.map_values(|s: Session| s@)
    }
}

impl SessionIndex {
    /// An empty ledger.
    pub fn new() -> (r: SessionIndex)
        ensures
            r@ == Seq::<SessionV>::empty(),
    {
        let r = SessionIndex { sessions: Vec::new() };
        proof {
            assert(r@ =~= Seq::<SessionV>::empty());
        }
        r
    }

    /// Number of sessions in the ledger.
    pub fn len(&self) -> (r: usize)
        ensures
            r == self@.len(),
    {
        self.sessions.len()
    }

    /// Prepend a session: the newest entry always comes first.
    pub fn add_session(&mut self, session: Session)
        ensures
            final(self)@ == seq![session@] + old(self)@,
    {
        let ghost old_view = self@;
        let ghost sv = session@;
        self.sessions.insert(0, session);
        proof {
            old(self).sessions@.insert_ensures(0, self.sessions@[0]);
            assert(self@ =~= seq![sv] + old_view);
        }
    }

    /// Index of the first session with the given id, if any.
    pub fn find_session(&self, session_id: &str) -> (r: Option<usize>)
        ensures
            match r {
                Some(i) => {
                    &&& 0 <= i < self@.len()
                    &&& self@[i as int].id == session_id@
                    &&& forall|k: int| 0 <= k < i ==> (#[trigger] self@[k]).id != session_id@
                },
                None => forall|k: int|
                    0 <= k < self@.len() ==> (#[trigger] self@[k]).id != session_id@,
            },
    {
        let mut i: usize = 0;
        while i < self.sessions.len()
            invariant
                i <= self@.len(),
                self@.len() == self.sessions@.len(),
                forall|k: int| 0 <= k < i ==> (#[trigger] self@[k]).id != session_id@,
            decreases self@.len() - i,
        {
            if str_eq(self.sessions[i].id.as_str(), session_id) {
                return Some(i);
            }
            i = i + 1;
        }
        None
    }
}

/// The session value after the transcription phase wrote its results: the
/// transcript reference, preview and clipboard flag are replaced, and the
/// timing statistics are recorded exactly when a transcript exists and the
/// audio duration is known to be positive.
pub open spec fn updated_session_view(
    s: SessionV,
    transcript_path: Seq<char>,
    preview: Seq<char>,
    clipboard_copied: bool,
    elapsed_ms: u64,
    model_path: Option<Seq<char>>,
) -> SessionV {
    SessionV {
        id: s.id,
        timestamp: s.timestamp,
        audio_path: s.audio_path,
        duration_ms: s.duration_ms,
        preview: preview,
        transcript_path: transcript_path,
        clipboard_copied: clipboard_copied,
        transcription_time_ms: if transcript_path.len() > 0 && s.duration_ms > 0 {
            Some(elapsed_ms)
        } else {
            s.transcription_time_ms
        },
        model_path: if transcript_path.len() > 0 && s.duration_ms > 0 {
            model_path
        } else {
            s.model_path
        },
    }
}

/// Build the updated session record from the existing one.
fn make_updated_session(
    s: &Session,
    transcript_path: &str,
    preview: &str,
    clipboard_copied: bool,
    elapsed_ms: u64,
    model_path: &Option<String>,
) -> (r: Session)
    ensures
        r@ == updated_session_view(
            s@,
            transcript_path@,
            preview@,
            clipboard_copied,
            elapsed_ms,
            match *model_path {
                Some(m) => Some(m@),
                None => None,
            },
        ),
{
    let has_stats = transcript_path.unicode_len() > 0 && s.duration_ms > 0;
    Session {
        id: s.id.clone(),
        timestamp: s.timestamp.clone(),
        audio_path: s.audio_path.clone(),
        duration_ms: s.duration_ms,
        preview: preview.to_owned(),
        transcript_path: transcript_path.to_owned(),
        clipboard_copied,
        transcription_time_ms: if has_stats {
            Some(elapsed_ms)
        } else {
            s.transcription_time_ms
        },
        model_path: if has_stats {
            match model_path {
                Some(m) => Some(m.clone()),
                None => None,
            }
        } else {
            match &s.model_path {
                Some(m) => Some(m.clone()),
                None => None,
            }
        },
    }
}

impl SessionIndex {
    /// Write the results of a transcription phase into the session with the
    /// given id: transcript reference, preview, clipboard flag, and — exactly
    /// when a transcript exists and the session's duration is positive — the
    /// timing statistics. Fails with `NotFound`, changing nothing, exactly
    /// when no session has the id. Returns the updated record.
    pub fn record_transcription(
        &mut self,
        session_id: &str,
        transcript_path: &str,
        preview: &str,
        clipboard_copied: bool,
        elapsed_ms: u64,
        model_path: &Option<String>,
    ) -> (r: Result<Session, LedgerError>)
        ensures
            r is Err <==> (forall|k: int|
                0 <= k < old(self)@.len() ==> (#[trigger] old(self)@[k]).id != session_id@),
            r is Err ==> r == Err::<Session, LedgerError>(LedgerError::NotFound) && *final(self)
                == *old(self),
            r matches Ok(s) ==> exists|i: int|
                {
                    &&& 0 <= i < old(self)@.len()
                    &&& (#[trigger] old(self)@[i]).id == session_id@
                    &&& (forall|k: int|
                        0 <= k < i ==> (#[trigger] old(self)@[k]).id != session_id@)
                    &&& final(self)@ == old(self)@.update(
                        i,
                        updated_session_view(
                            old(self)@[i],
                            transcript_path@,
                            preview@,
                            clipboard_copied,
                            elapsed_ms,
                            match *model_path {
                                Some(m) => Some(m@),
                                None => None,
                            },
                        ),
                    )
                    &&& s@ == final(self)@[i]
                },
    {
        let found = self.find_session(session_id);
        let i = match found {
            Some(i) => i,
            None => {
                return Err(LedgerError::NotFound);
            },
        };
        let updated = make_updated_session(
            &self.sessions[i],
            transcript_path,
            preview,
            clipboard_copied,
            elapsed_ms,
            model_path,
        );
        let result = make_updated_session(
            &self.sessions[i],
            transcript_path,
            preview,
            clipboard_copied,
            elapsed_ms,
            model_path,
        );
        let ghost old_view = self@;
        let ghost old_seq = self.sessions@;
        self.sessions.remove(i);
        self.sessions.insert(i, updated);
        proof {
            assert(self.sessions@ =~= old_seq.update(i as int, self.sessions@[i as int]));
            assert(self@ =~= old_view.update(i as int, self.sessions@[i as int]@));
        }
        Ok(result)
    }
}

/// Decide whether the external speech tool can run: the tool binary and the
/// model file must both exist on disk (the caller supplies those two facts).
pub fn validate_whisper_setup(config: &WhisperConfig, whisper_exists: bool, model_exists: bool) -> (r:
    Result<(), SetupError>)
    ensures
        !whisper_exists ==> r == Err::<(), SetupError>(SetupError::ToolMissing),
        whisper_exists && !model_exists ==> r == Err::<(), SetupError>(SetupError::ModelMissing),
        whisper_exists && model_exists ==> r == Ok::<(), SetupError>(()),
{
    let _ = config;
    if !whisper_exists {
        return Err(SetupError::ToolMissing);
    }
    if !model_exists {
        return Err(SetupError::ModelMissing);
    }
    Ok(())
}

/// The timing statistics hidden in a session list: one entry per session that
/// carries both a transcription time and a model reference, in order.
pub open spec fn stats_of(ix: Seq<SessionV>) -> Seq<TranscriptionStatV>
    decreases ix.len(),
{
    if ix.len() == 0 {
        Seq::empty()
    } else {
        let rest = stats_of(ix.drop_last());
        let s = ix.last();
        match (s.transcription_time_ms, s.model_path) {
            (Some(t), Some(m)) => rest.push(
                TranscriptionStatV {
                    audio_duration_ms: s.duration_ms,
                    transcription_time_ms: t,
                    timestamp: s.timestamp,
                    model_path: m,
                },
            ),
            _ => rest,
        }
    }
}

/// Extract the transcription timing statistics from a session list: only
/// sessions carrying both timing fields contribute, projected to
/// (duration, time, timestamp, model) measurements.
pub fn extract_transcription_stats(sessions: &Vec<Session>) -> (r: TranscriptionStats)
    ensures
        r.version == 1,
        r.stats@.map_values(|t: TranscriptionStat| t@) == stats_of(
            sessions@.map_values(|s: Session| s@),
        ),
{
    let ghost all = sessions@.map_values(|s: Session| s@);
    let mut stats: Vec<TranscriptionStat> = Vec::new();
    let mut i: usize = 0;
    proof {
        assert(all.subrange(0, 0) =~= Seq::<SessionV>::empty());
        assert(stats@.map_values(|t: TranscriptionStat| t@) =~= stats_of(all.subrange(0, 0)));
    }
    while i < sessions.len()
        invariant
            i <= sessions@.len(),
            all == sessions@.map_values(|s: Session| s@),
            stats@.map_values(|t: TranscriptionStat| t@) == stats_of(all.subrange(0, i as int)),
        decreases sessions@.len() - i,
    {
        proof {
            assert(all.subrange(0, (i + 1) as int).drop_last() =~= all.subrange(0, i as int));
            assert(all.subrange(0, (i + 1) as int).last() == all[i as int]);
        }
        let s = &sessions[i];
        let time = match &s.transcription_time_ms {
            Some(t) => Some(*t),
            None => None,
        };
        let model = match &s.model_path {
            Some(m) => Some(m.clone()),
            None => None,
        };
        match (time, model) {
            (Some(t), Some(m)) => {
                let ghost old_stats = stats@;
                stats.push(
                    TranscriptionStat {
                        audio_duration_ms: s.duration_ms,
                        transcription_time_ms: t,
                        timestamp: s.timestamp.clone(),
                        model_path: m,
                    },
                );
                proof {
                    assert(stats@.map_values(|t: TranscriptionStat| t@) =~= old_stats.map_values(
                        |t: TranscriptionStat| t@,
                    ).push(stats@.last()@));
                    assert(stats@.map_values(|t: TranscriptionStat| t@) =~= stats_of(
                        all.subrange(0, (i + 1) as int),
                    ));
                }
            },
            _ => {
                proof {
                    assert(stats_of(all.subrange(0, (i + 1) as int)) =~= stats_of(
                        all.subrange(0, i as int),
                    ));
                }
            },
        }
        i = i + 1;
    }
    proof {
        assert(all.subrange(0, all.len() as int) =~= all);
    }
    TranscriptionStats { version: 1, stats }
}

} // verus!
