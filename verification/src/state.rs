use vstd::prelude::*;

use crate::errors::StateError;

verus! {

/// The recording lifecycle: `Idle` (initial and terminal), `Recording`,
/// `Paused`, and the transient `Processing` phase between `stop` and the
/// completion of the asynchronous transcription.
#[derive(Clone, Copy, Debug, PartialEq, Eq, Structural)]
pub enum RecordingStatus {
    Idle,
    Recording,
    Paused,
    Processing,
}

/// Sum of the lengths of a sequence of closed pause intervals.
pub open spec fn interval_sum(log: Seq<(u64, u64)>) -> int
    decreases log.len(),
{
    if log.len() == 0 {
        0
    } else {
        interval_sum(log.drop_last()) + (log.last().1 - log.last().0)
    }
}

/// What `stop` hands back: the active duration of the session and the drained
/// sample buffer, ready to be encoded and persisted by the caller.
#[derive(Debug, PartialEq)]
pub struct StopSnapshot {
    /// Wall-clock recording time in milliseconds, excluding paused intervals.
    pub duration_ms: u64,
    /// The captured samples, oldest first.
    pub samples: Vec<i16>,
}

/// State of the single recording session: the status machine, the shared
/// sample buffer, and pause accounting with millisecond precision.
///
/// Every operation takes the current clock reading as an argument; the ghost
/// field `clock_ms` records the latest reading seen, so that the contracts can
/// insist the clock never runs backwards.
pub struct RecordingState {
    pub status: RecordingStatus,
    /// Amplitude samples captured so far, 16-bit signed PCM, oldest first.
    pub samples: Vec<i16>,
    /// Clock reading at `start`, in milliseconds.
    pub start_time_ms: Option<u64>,
    /// Clock reading at the most recent `pause`, while paused.
    pub pause_start_ms: Option<u64>,
    /// Total length of all completed pause intervals, in milliseconds.
    pub total_paused_ms: u64,
    /// The completed (pause, resume) intervals of the current session.
    pub pause_log: Ghost<Seq<(u64, u64)>>,
    /// The greatest clock reading any operation has seen.
    pub clock_ms: Ghost<u64>,
}

impl RecordingState {
    /// Well-formedness: pause accounting matches the interval log, and the
    /// stamps are consistent with the status and the clock.
    pub open spec fn wf(self) -> bool {
        &&& self.total_paused_ms == interval_sum(self.pause_log@)
        &&& forall|i: int|
            0 <= i < self.pause_log@.len() ==> (#[trigger] self.pause_log@[i]).0
                <= self.pause_log@[i].1
        &&& match self.status {
            RecordingStatus::Idle => self.pause_start_ms.is_none(),
            RecordingStatus::Processing => self.pause_start_ms.is_none(),
            RecordingStatus::Recording => {
                &&& self.start_time_ms.is_some()
                &&& self.pause_start_ms.is_none()
                &&& self.start_time_ms.unwrap() + self.total_paused_ms <= self.clock_ms@
            },
            RecordingStatus::Paused => {
                &&& self.start_time_ms.is_some()
                &&& self.pause_start_ms.is_some()
                &&& self.pause_start_ms.unwrap() <= self.clock_ms@
                &&& self.start_time_ms.unwrap() + self.total_paused_ms
                    <= self.pause_start_ms.unwrap()
            },
        }
    }

    /// A session is active while recording or paused; `Processing` and `Idle`
    /// reject a concurrent `start` differently, see `start`.
    pub open spec fn spec_is_active(self) -> bool {
        self.status == RecordingStatus::Recording || self.status == RecordingStatus::Paused
    }

    /// Active duration in milliseconds at clock reading `now_ms`: elapsed time
    /// since `start`, minus all paused time, counting a still-open pause up to
    /// `now_ms`. Zero when no session is active.
    pub open spec fn spec_duration_ms(self, now_ms: u64) -> int {
        if self.status == RecordingStatus::Recording {
            now_ms - self.start_time_ms.unwrap() - self.total_paused_ms
        } else if self.status == RecordingStatus::Paused {
            self.pause_start_ms.unwrap() - self.start_time_ms.unwrap() - self.total_paused_ms
        } else {
            0
        }
    }

    /// A fresh state: idle, empty buffer, zeroed pause accounting.
    pub fn new() -> (r: RecordingState)
        ensures
            r.wf(),
            r.status == RecordingStatus::Idle,
            r.samples@ == Seq::<i16>::empty(),
            r.start_time_ms.is_none(),
            r.pause_start_ms.is_none(),
            r.total_paused_ms == 0,
            r.pause_log@ == Seq::<(u64, u64)>::empty(),
            r.clock_ms@ == 0,
    {
        RecordingState {
            status: RecordingStatus::Idle,
            samples: Vec::new(),
            start_time_ms: None,
            pause_start_ms: None,
            total_paused_ms: 0,
            pause_log: Ghost(Seq::empty()),
            clock_ms: Ghost(0),
        }
    }

    /// True exactly while status is `Recording`; gates sample collection.
    pub fn is_recording(&self) -> (r: bool)
        ensures
            r == (self.status == RecordingStatus::Recording),
    {
        self.status == RecordingStatus::Recording
    }

    /// True exactly while status is `Recording` or `Paused`; gates duration
    /// display and rejects concurrent starts.
    pub fn is_active(&self) -> (r: bool)
        ensures
            r == self.spec_is_active(),
    {
        self.status == RecordingStatus::Recording || self.status == RecordingStatus::Paused
    }

    /// Begin a new session. Fails with `AlreadyActive` unless idle; otherwise
    /// clears the buffer and all pause accounting and stamps the start time.
    pub fn start(&mut self, now_ms: u64) -> (r: Result<(), StateError>)
        requires
            old(self).wf(),
            old(self).clock_ms@ <= now_ms,
        ensures
            final(self).wf(),
            r is Err <==> old(self).status != RecordingStatus::Idle,
            r is Err ==> r == Err::<(), StateError>(StateError::AlreadyActive) && *final(self) == *old(
                self,
            ),
            r is Ok ==> {
                &&& final(self).status == RecordingStatus::Recording
                &&& final(self).samples@ == Seq::<i16>::empty()
                &&& final(self).start_time_ms == Some(now_ms)
                &&& final(self).pause_start_ms.is_none()
                &&& final(self).total_paused_ms == 0
                &&& final(self).pause_log@ == Seq::<(u64, u64)>::empty()
                &&& final(self).clock_ms@ == now_ms
            },
    {
        if self.status != RecordingStatus::Idle {
            return Err(StateError::AlreadyActive);
        }
        self.samples = Vec::new();
        self.start_time_ms = Some(now_ms);
        self.pause_start_ms = None;
        self.total_paused_ms = 0;
        self.pause_log = Ghost(Seq::empty());
        self.clock_ms = Ghost(now_ms);
        self.status = RecordingStatus::Recording;
        Ok(())
    }

    /// Pause the running session. Fails with `NotRecording` unless recording;
    /// otherwise stamps the pause start time.
    pub fn pause(&mut self, now_ms: u64) -> (r: Result<(), StateError>)
        requires
            old(self).wf(),
            old(self).clock_ms@ <= now_ms,
        ensures
            final(self).wf(),
            r is Err <==> old(self).status != RecordingStatus::Recording,
            r is Err ==> r == Err::<(), StateError>(StateError::NotRecording) && *final(self) == *old(
                self,
            ),
            r is Ok ==> {
                &&& final(self).status == RecordingStatus::Paused
                &&& final(self).pause_start_ms == Some(now_ms)
                &&& final(self).samples@ == old(self).samples@
                &&& final(self).start_time_ms == old(self).start_time_ms
                &&& final(self).total_paused_ms == old(self).total_paused_ms
                &&& final(self).pause_log@ == old(self).pause_log@
                &&& final(self).clock_ms@ == now_ms
            },
    {
        if self.status != RecordingStatus::Recording {
            return Err(StateError::NotRecording);
        }
        self.pause_start_ms = Some(now_ms);
        self.clock_ms = Ghost(now_ms);
        self.status = RecordingStatus::Paused;
        Ok(())
    }

    /// Resume a paused session. Fails with `NotPaused` unless paused;
    /// otherwise folds the completed interval (pause start to `now_ms`) into
    /// the cumulative paused duration and clears the pause stamp.
    pub fn resume(&mut self, now_ms: u64) -> (r: Result<(), StateError>)
        requires
            old(self).wf(),
            old(self).clock_ms@ <= now_ms,
        ensures
            final(self).wf(),
            r is Err <==> old(self).status != RecordingStatus::Paused,
            r is Err ==> r == Err::<(), StateError>(StateError::NotPaused) && *final(self) == *old(self),
            r is Ok ==> {
                &&& final(self).status == RecordingStatus::Recording
                &&& final(self).pause_start_ms.is_none()
                &&& final(self).total_paused_ms == old(self).total_paused_ms + (now_ms - old(
                    self,
                ).pause_start_ms.unwrap())
                &&& final(self).pause_log@ == old(self).pause_log@.push(
                    (old(self).pause_start_ms.unwrap(), now_ms),
                )
                &&& final(self).samples@ == old(self).samples@
                &&& final(self).start_time_ms == old(self).start_time_ms
                &&& final(self).clock_ms@ == now_ms
            },
    {
        if self.status != RecordingStatus::Paused {
            return Err(StateError::NotPaused);
        }
        let pause_start = match self.pause_start_ms {
            Some(t) => t,
            None => 0,  // unreachable: wf guarantees a stamp while paused
        };
        let pause_len = now_ms - pause_start;
        proof {
            assert(self.pause_log@.push((pause_start, now_ms)).drop_last() =~= self.pause_log@);
        }
        self.total_paused_ms = self.total_paused_ms + pause_len;
        self.pause_log = Ghost(self.pause_log@.push((pause_start, now_ms)));
        self.pause_start_ms = None;
        self.clock_ms = Ghost(now_ms);
        self.status = RecordingStatus::Recording;
        Ok(())
    }

    /// Discard the session: no audio file and no ledger entry is ever produced
    /// from a cancelled session, because the buffer and all timing state are
    /// dropped here and nothing is returned. Fails with `NotActive` unless a
    /// session is active.
    pub fn cancel(&mut self) -> (r: Result<(), StateError>)
        requires
            old(self).wf(),
        ensures
            final(self).wf(),
            r is Err <==> !old(self).spec_is_active(),
            r is Err ==> r == Err::<(), StateError>(StateError::NotActive) && *final(self) == *old(self),
            r is Ok ==> {
                &&& final(self).status == RecordingStatus::Idle
                &&& final(self).samples@ == Seq::<i16>::empty()
                &&& final(self).start_time_ms.is_none()
                &&& final(self).pause_start_ms.is_none()
                &&& final(self).total_paused_ms == 0
                &&& final(self).pause_log@ == Seq::<(u64, u64)>::empty()
                &&& final(self).clock_ms@ == old(self).clock_ms@
            },
    {
        if !self.is_active() {
            return Err(StateError::NotActive);
        }
        self.status = RecordingStatus::Idle;
        self.start_time_ms = None;
        self.pause_start_ms = None;
        self.total_paused_ms = 0;
        self.pause_log = Ghost(Seq::empty());
        self.samples = Vec::new();
        Ok(())
    }

    /// End the session: fold any open pause interval, compute the active
    /// duration, move to `Processing` (which tells the capture loop to exit),
    /// and drain the sample buffer. Fails with `NotActive` unless a session is
    /// active. Status returns to `Idle` only via `finish_processing`.
    pub fn stop(&mut self, now_ms: u64) -> (r: Result<StopSnapshot, StateError>)
        requires
            old(self).wf(),
            old(self).clock_ms@ <= now_ms,
        ensures
            final(self).wf(),
            r is Err <==> !old(self).spec_is_active(),
            r is Err ==> r == Err::<StopSnapshot, StateError>(StateError::NotActive)
                && *final(self) == *old(self),
            r is Ok ==> {
                let folded = if old(self).status == RecordingStatus::Paused {
                    old(self).total_paused_ms + (now_ms - old(self).pause_start_ms.unwrap())
                } else {
                    old(self).total_paused_ms as int
                };
                &&& r.unwrap().duration_ms == now_ms - old(self).start_time_ms.unwrap() - folded
                &&& r.unwrap().samples@ == old(self).samples@
                &&& final(self).status == RecordingStatus::Processing
                &&& final(self).samples@ == Seq::<i16>::empty()
                &&& final(self).start_time_ms == old(self).start_time_ms
                &&& final(self).pause_start_ms.is_none()
                &&& final(self).total_paused_ms == folded
                &&& final(self).pause_log@ == if old(self).status == RecordingStatus::Paused {
                    old(self).pause_log@.push((old(self).pause_start_ms.unwrap(), now_ms))
                } else {
                    old(self).pause_log@
                }
                &&& final(self).clock_ms@ == now_ms
            },
    {
        if !self.is_active() {
            return Err(StateError::NotActive);
        }
        if self.status == RecordingStatus::Paused {
            let pause_start = match self.pause_start_ms {
                Some(t) => t,
                None => 0,  // unreachable: wf guarantees a stamp while paused
            };
            proof {
                assert(self.pause_log@.push((pause_start, now_ms)).drop_last()
                    =~= self.pause_log@);
            }
            self.total_paused_ms = self.total_paused_ms + (now_ms - pause_start);
            self.pause_log = Ghost(self.pause_log@.push((pause_start, now_ms)));
            self.pause_start_ms = None;
        }
        let start_time = match self.start_time_ms {
            Some(t) => t,
            None => 0,  // unreachable: wf guarantees a stamp while active
        };
        let duration_ms = now_ms - start_time - self.total_paused_ms;
        let mut drained = Vec::new();
        std::mem::swap(&mut drained, &mut self.samples);
        self.clock_ms = Ghost(now_ms);
        self.status = RecordingStatus::Processing;
        Ok(StopSnapshot { duration_ms, samples: drained })
    }

    /// The transcription worker's final act: return to `Idle`, whatever the
    /// current status. Called exactly once per `stop`, on success or failure.
    pub fn finish_processing(&mut self)
        requires
            old(self).wf(),
        ensures
            final(self).wf(),
            final(self).status == RecordingStatus::Idle,
            final(self).samples@ == old(self).samples@,
            final(self).start_time_ms == old(self).start_time_ms,
            final(self).pause_start_ms.is_none(),
            final(self).total_paused_ms == old(self).total_paused_ms,
            final(self).pause_log@ == old(self).pause_log@,
            final(self).clock_ms@ == old(self).clock_ms@,
    {
        self.status = RecordingStatus::Idle;
        self.pause_start_ms = None;
    }

    /// Append one delivered frame of samples to the buffer — but only while
    /// recording: frames arriving while paused (or otherwise inactive) are
    /// silently discarded, so paused time never needs trimming downstream.
    pub fn append_samples(&mut self, data: &Vec<i16>)
        requires
            old(self).wf(),
        ensures
            final(self).wf(),
            old(self).status == RecordingStatus::Recording ==> final(self).samples@ == old(
                self,
            ).samples@ + data@,
            old(self).status != RecordingStatus::Recording ==> *final(self) == *old(self),
            final(self).status == old(self).status,
            final(self).start_time_ms == old(self).start_time_ms,
            final(self).pause_start_ms == old(self).pause_start_ms,
            final(self).total_paused_ms == old(self).total_paused_ms,
            final(self).pause_log@ == old(self).pause_log@,
            final(self).clock_ms@ == old(self).clock_ms@,
    {
        if self.status == RecordingStatus::Recording {
            let mut i: usize = 0;
            while i < data.len()
                invariant
                    i <= data.len(),
                    self.samples@ == old(self).samples@ + data@.subrange(0, i as int),
                    self.status == old(self).status,
                    self.start_time_ms == old(self).start_time_ms,
                    self.pause_start_ms == old(self).pause_start_ms,
                    self.total_paused_ms == old(self).total_paused_ms,
                    self.pause_log@ == old(self).pause_log@,
                    self.clock_ms@ == old(self).clock_ms@,
                decreases data.len() - i,
            {
                self.samples.push(data[i]);
                i = i + 1;
                proof {
                    assert(data@.subrange(0, i as int) == data@.subrange(0, i - 1).push(
                        data@[i - 1],
                    ));
                }
            }
            proof {
                assert(data@.subrange(0, data@.len() as int) == data@);
            }
        }
    }

    /// Current active duration in milliseconds; zero when no session is
    /// active (also while `Processing`, so observers can tell "saved" from
    /// "fully processed").
    pub fn duration_ms(&self, now_ms: u64) -> (r: u64)
        requires
            self.wf(),
            self.clock_ms@ <= now_ms,
        ensures
            r == self.spec_duration_ms(now_ms),
    {
        if self.status == RecordingStatus::Recording {
            let start_time = match self.start_time_ms {
                Some(t) => t,
                None => 0,  // unreachable: wf guarantees a stamp while active
            };
            now_ms - start_time - self.total_paused_ms
        } else if self.status == RecordingStatus::Paused {
            let start_time = match self.start_time_ms {
                Some(t) => t,
                None => 0,  // unreachable
            };
            let pause_start = match self.pause_start_ms {
                Some(t) => t,
                None => 0,  // unreachable
            };
            pause_start - start_time - self.total_paused_ms
        } else {
            0
        }
    }
}

impl Default for RecordingState {
    /// Same as `RecordingState::new`.
    fn default() -> (r: Self)
        ensures
            r.wf(),
            r.status == RecordingStatus::Idle,
            r.samples@ == Seq::<i16>::empty(),
    {
        RecordingState::new()
    }
}

/// Law: however start, pause and resume were interleaved, the cumulative
/// paused duration equals the sum of (resume time − pause time) over the
/// completed pause intervals, each of which is properly ordered. `stop` and
/// `resume` fold any open interval into the log atomically, so this holds in
/// every reachable state.
pub proof fn lemma_paused_duration_accounting(s: RecordingState)
    requires
        s.wf(),
    ensures
        s.total_paused_ms == interval_sum(s.pause_log@),
        forall|i: int|
            0 <= i < s.pause_log@.len() ==> (#[trigger] s.pause_log@[i]).0 <= s.pause_log@[i].1,
{
}

} // verus!
