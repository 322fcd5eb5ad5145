//! The floating indicator: what it shows in each state.
use crate::tray::TrayIconState;
use vstd::prelude::*;

verus! {

/// The colour of the indicator's dot.
#[derive(Debug, Clone, Copy, PartialEq, Eq, Structural)]
pub enum DotColor {
    Red,
    Orange,
}

/// What is to be drawn for a recording or a transcription.
#[derive(Debug, Clone, Copy, PartialEq, Eq)]
pub struct Indicator {
    /// Place the indicator near the cursor first.
    pub reposition: bool,
    pub label: &'static str,
    pub dot: DotColor,
    /// Whether the dot pulses.
    pub pulse: bool,
}

/// What changes on the screen.
#[derive(Debug, Clone, Copy, PartialEq, Eq)]
pub struct OverlayUpdate {
    /// What to draw, where anything is drawn anew.
    pub draw: Option<Indicator>,
    /// Show (`true`) or hide (`false`) the indicator, where that changes.
    pub show: Option<bool>,
}

/// Whether the indicator is visible in a state.
pub open spec fn shown_in(state: TrayIconState) -> bool {
    state != TrayIconState::Idle
}

/// The floating indicator.
pub struct OverlayWindow {
    visible: bool,
}

impl OverlayWindow {
    /// Whether the indicator is on the screen.
    pub closed spec fn on_screen(self) -> bool {
        self.visible
    }

    /// A hidden indicator.
    pub fn new() -> (r: OverlayWindow)
        ensures
            !r.on_screen(),
    {
        OverlayWindow { visible: false }
    }

    /// Takes in a state: the indicator is hidden when idle; it follows the
    /// cursor to where a recording starts, with a red pulsing dot, and stays
    /// there, with a steady orange one, while the recording is transcribed.
    pub fn update_state(&mut self, state: TrayIconState) -> (r: OverlayUpdate)
        ensures
            final(self).on_screen() == shown_in(state),
            r.show == (if old(self).on_screen() == shown_in(state) {
                None
            } else {
                Some(shown_in(state))
            }),
            match state {
                TrayIconState::Idle => r.draw is None,
                TrayIconState::Recording => {
                    &&& r.draw matches Some(i)
                    &&& i.reposition
                    &&& i.label@ == "Recording..."@
                    &&& i.dot == DotColor::Red
                    &&& i.pulse
                },
                TrayIconState::Transcribing => {
                    &&& r.draw matches Some(i)
                    &&& !i.reposition
                    &&& i.label@ == "Transcribing..."@
                    &&& i.dot == DotColor::Orange
                    &&& !i.pulse
                },
            },
    {
        let was: bool = self.visible;
        match state {
            TrayIconState::Idle => {
                self.visible = false;
                OverlayUpdate {
                    draw: None,
                    show: if was {
                        Some(false)
                    } else {
                        None
                    },
                }
            },
            TrayIconState::Recording => {
                self.visible = true;
                OverlayUpdate {
                    draw: Some(
                        Indicator {
                            reposition: true,
                            label: "Recording...",
                            dot: DotColor::Red,
                            pulse: true,
                        },
                    ),
                    show: if was {
                        None
                    } else {
                        Some(true)
                    },
                }
            },
            TrayIconState::Transcribing => {
                self.visible = true;
                OverlayUpdate {
                    draw: Some(
                        Indicator {
                            reposition: false,
                            label: "Transcribing...",
                            dot: DotColor::Orange,
                            pulse: false,
                        },
                    ),
                    show: if was {
                        None
                    } else {
                        Some(true)
                    },
                }
            },
        }
    }
}

// ── Laws ─────────────────────────────────────────────────────────────────────

/// The indicator is hidden exactly when nothing is in progress.
pub proof fn law_indicator_is_shown_while_busy()
    ensures
        !shown_in(TrayIconState::Idle),
        shown_in(TrayIconState::Recording),
        shown_in(TrayIconState::Transcribing),
{
}

}
