//! Types that the parts of the program share.
use vstd::prelude::*;

verus! {

/// The state of the recording.
#[derive(Debug, Clone, Copy, PartialEq, Eq)]
pub struct RecordingState {
    pub is_recording: bool,
    /// When the recording started, in milliseconds of a monotonic clock.
    pub start_time: Option<u64>,
}

impl Default for RecordingState {
    fn default() -> (r: RecordingState)
        ensures
            !r.is_recording,
            r.start_time is None,
    {
        RecordingState { is_recording: false, start_time: None }
    }
}

/// A transcription and what is known of it.
#[derive(Debug, Clone)]
pub struct TranscriptionResult {
    pub text: String,
    /// How sure the recogniser is, in per cent.
    pub confidence_percent: u8,
    pub language: Option<String>,
    pub duration_ms: u64,
}

/// Hotkey trigger event.
#[derive(Debug, Clone, Copy, PartialEq, Eq, Structural)]
pub enum HotkeyEvent {
    Pressed,
    Released,
}

}
