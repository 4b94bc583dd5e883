//! Core engine of a voice-memo application: the recording lifecycle state
//! machine, audio level metering, transcript post-processing, the session
//! ledger with its on-disk codec, and a statistics-driven transcription time
//! estimator.
//!
//! All I/O (microphone capture, files, the speech tool subprocess, the
//! clipboard) lives outside this crate; the functions here work on plain
//! values and carry machine-checked contracts.

pub mod codec;
pub mod errors;
pub mod estimator;
pub mod levels;
pub mod lifecycle;
pub mod session;
pub mod state;
pub mod text;
pub mod timefmt;
pub mod transcript;
