//! The tray icon's states.
use vstd::prelude::*;

verus! {

/// What the tray icon shows: gray, red or yellow.
#[derive(Debug, Clone, Copy, PartialEq, Eq, Structural)]
pub enum TrayIconState {
    Idle,
    Recording,
    Transcribing,
}

}
