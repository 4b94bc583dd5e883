use vstd::prelude::*;

verus! {

/// Why a lifecycle command was rejected by the recording state machine.
#[derive(Clone, Copy, Debug, PartialEq, Eq, Structural)]
pub enum StateError {
    /// `start` was issued while a session was already recording or paused.
    AlreadyActive,
    /// `stop` or `cancel` was issued with no active session.
    NotActive,
    /// `pause` was issued while not recording.
    NotRecording,
    /// `resume` was issued while not paused.
    NotPaused,
}

impl StateError {
    /// The message surfaced to the caller, matching the command layer's wording.
    pub fn message(&self) -> (r: &'static str)
        ensures
            *self == StateError::AlreadyActive ==> r@ == "Recording is already in progress."@,
            *self == StateError::NotActive ==> r@ == "No active recording to stop."@,
            *self == StateError::NotRecording ==> r@ == "No active recording to pause."@,
            *self == StateError::NotPaused ==> r@ == "No paused recording to resume."@,
    {
        match self {
            StateError::AlreadyActive => "Recording is already in progress.",
            StateError::NotActive => "No active recording to stop.",
            StateError::NotRecording => "No active recording to pause.",
            StateError::NotPaused => "No paused recording to resume.",
        }
    }
}

/// Why the speech tool could not be invoked for a session.
#[derive(Clone, Copy, Debug, PartialEq, Eq, Structural)]
pub enum SetupError {
    /// The configured tool binary does not exist on disk.
    ToolMissing,
    /// The configured model file does not exist on disk.
    ModelMissing,
}

/// Why a ledger operation failed.
#[derive(Clone, Copy, Debug, PartialEq, Eq, Structural)]
pub enum LedgerError {
    /// No session with the requested id exists in the index.
    NotFound,
}

} // verus!
