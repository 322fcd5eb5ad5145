//! The daemon: what a hotkey event does, and what becomes of a recording.
use crate::common::config::Config;
use crate::common::types::HotkeyEvent;
use crate::common::types::RecordingState;
use crate::single;
use crate::text;
use crate::tray::TrayIconState;
use vstd::prelude::*;

verus! {

/// How long a transcription may take, in seconds.
pub const TRANSCRIPTION_TIMEOUT_SECS: u64 = 30;

/// How long to wait before typing, in milliseconds, so that the user can let go
/// of the hotkey.
pub const TYPING_PAUSE_MS: u64 = 50;

/// How often the tray's exit flag is looked at, in milliseconds.
pub const EXIT_POLL_MS: u64 = 200;

/// The amplitude below which a recording counts as silent: the pattern of 0.001.
pub const QUIET_AMPLITUDE: u32 = 0x3a83_126f;

/// Daemon event types
#[derive(Debug)]
pub enum DaemonEvent {
    Hotkey(HotkeyEvent),
    TranscriptionComplete(String),
    /// Hotkey listener thread has exited (crashed or channel disconnected),
    /// daemon should stop
    HotkeyListenerDead,
}

/// What a hotkey event asks for.
#[derive(Debug, Clone, Copy, PartialEq, Eq, Structural)]
pub enum HotkeyAction {
    Ignore,
    StartRecording,
    StopAndTranscribe,
}

/// What the daemon takes in.
#[derive(Debug)]
pub enum DaemonInput {
    /// An event of its queue.
    Queue(DaemonEvent),
    /// A recording stream was opened, or could not be opened.
    StreamOpened(bool),
    /// The stream was closed; the samples that it recorded.
    Recorded(Vec<u32>),
    /// The transcription ended.
    Transcribed(TranscriptionOutcome),
    /// The text was typed.
    Typed,
}

/// What is to be done next.
#[derive(Debug)]
pub enum DaemonCommand {
    /// Wait for the next event of the queue.
    Wait,
    /// Open a recording stream, and report whether that worked.
    OpenStream,
    /// Close the recording stream, and report the samples. The recording lasted
    /// so many milliseconds.
    CloseStream(u64),
    /// The recording is given up; wait for the next event.
    GiveUp(RecordingVerdict),
    /// Transcribe the recording, put the events that were queued meanwhile
    /// through, and report how the transcription ended.
    Transcribe,
    /// Put an event into the queue, and wait for the next one.
    Enqueue(DaemonEvent),
    /// Type the text after a short pause, put the events that were queued
    /// meanwhile through, and report that the text was typed.
    Type(String),
    /// End the loop.
    Exit,
}

/// What becomes of a finished recording.
#[derive(Debug, Clone, Copy, PartialEq, Eq, Structural)]
pub enum RecordingVerdict {
    /// Nothing was recorded.
    Empty,
    /// The recording's peak amplitude is too low: its pattern.
    TooQuiet(u32),
    Transcribe,
}

/// How a transcription ended.
#[derive(Debug)]
pub enum TranscriptionOutcome {
    Text(String),
    Failed,
    TimedOut,
}

/// Permissions that the system grants.
#[derive(Debug, Clone, Copy, PartialEq, Eq, Structural)]
pub enum Permission {
    Accessibility,
    InputMonitoring,
    Microphone,
}

/// The daemon's state.
pub struct Daemon {
    pub state: RecordingState,
    /// Ignore new hotkeys while transcription/paste is in progress, avoiding
    /// race conditions
    pub is_processing: bool,
    /// Number of hotkey events received (for logging: Nth keypress)
    pub hotkey_recv_count: u64,
    /// Trigger mode: "toggle" or "hold"
    pub trigger_mode: String,
    /// What the tray icon shows
    pub tray: TrayIconState,
}

/// What a hotkey event asks for. A press is ignored while a text is transcribed
/// or typed; otherwise it starts a recording, or, in toggle mode, stops the one
/// in progress. A release stops the recording in hold mode, always.
pub open spec fn hotkey_action(
    hold: bool,
    recording: bool,
    processing: bool,
    event: HotkeyEvent,
) -> HotkeyAction {
    match event {
        HotkeyEvent::Pressed => if processing {
            HotkeyAction::Ignore
        } else if !recording {
            HotkeyAction::StartRecording
        } else if hold {
            HotkeyAction::Ignore
        } else {
            HotkeyAction::StopAndTranscribe
        },
        HotkeyEvent::Released => if hold && recording {
            HotkeyAction::StopAndTranscribe
        } else {
            HotkeyAction::Ignore
        },
    }
}

/// The part of the daemon's state that its decisions depend on.
#[verifier::ext_equal]
pub struct Status {
    pub recording: bool,
    pub processing: bool,
    pub tray: TrayIconState,
}

/// The status after the recording stream was opened, or failed to open.
pub open spec fn after_start(s: Status, opened: bool) -> Status {
    if s.recording || opened {
        Status { recording: true, tray: TrayIconState::Recording, ..s }
    } else {
        s
    }
}

/// The status after the recording was stopped.
pub open spec fn after_stop(s: Status) -> Status {
    Status { recording: false, processing: true, tray: TrayIconState::Transcribing }
}

/// The status after the recording was looked at: one that is given up leaves
/// nothing in progress.
pub open spec fn after_check(s: Status, verdict: RecordingVerdict) -> Status {
    if verdict == RecordingVerdict::Transcribe {
        s
    } else {
        after_complete(s)
    }
}

/// The status after the transcription ended: without a text, nothing is in
/// progress any more.
pub open spec fn after_finish(s: Status, outcome: TranscriptionOutcome) -> Status {
    match outcome {
        TranscriptionOutcome::Text(_) => s,
        _ => after_complete(s),
    }
}

/// The status once a transcribed text is being typed.
pub open spec fn after_text(s: Status) -> Status {
    Status { processing: true, tray: TrayIconState::Transcribing, ..s }
}

/// The status after a text was typed, or it is clear that none will be.
pub open spec fn after_complete(s: Status) -> Status {
    Status { processing: false, tray: TrayIconState::Idle, ..s }
}

/// The status after an input.
pub open spec fn next_status(s: Status, hold: bool, input: DaemonInput) -> Status {
    match input {
        DaemonInput::Queue(DaemonEvent::Hotkey(e)) => if hotkey_action(
            hold,
            s.recording,
            s.processing,
            e,
        ) == HotkeyAction::StopAndTranscribe {
            after_stop(s)
        } else {
            s
        },
        DaemonInput::Queue(DaemonEvent::TranscriptionComplete(_)) => after_text(s),
        DaemonInput::Queue(DaemonEvent::HotkeyListenerDead) => s,
        DaemonInput::StreamOpened(opened) => after_start(s, opened),
        DaemonInput::Recorded(samples) => after_check(s, verdict_of(samples@)),
        DaemonInput::Transcribed(outcome) => after_finish(s, outcome),
        DaemonInput::Typed => after_complete(s),
    }
}

/// What is to be done after an input; `elapsed` is how long the recording in
/// progress has lasted.
pub open spec fn next_command(
    s: Status,
    hold: bool,
    elapsed: u64,
    input: DaemonInput,
) -> DaemonCommand {
    match input {
        DaemonInput::Queue(DaemonEvent::Hotkey(e)) => match hotkey_action(
            hold,
            s.recording,
            s.processing,
            e,
        ) {
            HotkeyAction::Ignore => DaemonCommand::Wait,
            HotkeyAction::StartRecording => DaemonCommand::OpenStream,
            HotkeyAction::StopAndTranscribe => DaemonCommand::CloseStream(elapsed),
        },
        DaemonInput::Queue(DaemonEvent::TranscriptionComplete(text)) => DaemonCommand::Type(text),
        DaemonInput::Queue(DaemonEvent::HotkeyListenerDead) => DaemonCommand::Exit,
        DaemonInput::StreamOpened(_) => DaemonCommand::Wait,
        DaemonInput::Recorded(samples) => if verdict_of(samples@) == RecordingVerdict::Transcribe {
            DaemonCommand::Transcribe
        } else {
            DaemonCommand::GiveUp(verdict_of(samples@))
        },
        DaemonInput::Transcribed(TranscriptionOutcome::Text(text)) => DaemonCommand::Enqueue(
            DaemonEvent::TranscriptionComplete(text),
        ),
        DaemonInput::Transcribed(_) => DaemonCommand::Wait,
        DaemonInput::Typed => DaemonCommand::Wait,
    }
}

/// How long a recording that was started at `start` has lasted at the time `now`.
pub open spec fn elapsed_ms(start: Option<u64>, now: u64) -> u64 {
    match start {
        Some(t) => if t <= now {
            (now - t) as u64
        } else {
            0
        },
        None => 0,
    }
}

/// What holds of the status between events: no recording is in progress while a
/// text is transcribed or typed, and the tray icon shows a recording exactly
/// while there is one, a transcription exactly while a text is transcribed or
/// typed, and otherwise that nothing is in progress.
pub open spec fn consistent(s: Status) -> bool {
    &&& !(s.recording && s.processing)
    &&& s.recording <==> s.tray == TrayIconState::Recording
    &&& s.processing <==> s.tray == TrayIconState::Transcribing
}

/// The largest amplitude among the samples that are numbers, as a pattern; zero
/// where there is none.
pub open spec fn peak(samples: Seq<u32>) -> u32
    decreases samples.len(),
{
    if samples.len() == 0 {
        0
    } else {
        let before = peak(samples.drop_last());
        let amplitude = single::abs_bits(samples.last());
        if amplitude <= single::INFINITY && amplitude > before {
            amplitude
        } else {
            before
        }
    }
}

/// What becomes of a recording with the given samples.
pub open spec fn verdict_of(samples: Seq<u32>) -> RecordingVerdict {
    if samples.len() == 0 {
        RecordingVerdict::Empty
    } else if single::is_greater(QUIET_AMPLITUDE, peak(samples)) {
        RecordingVerdict::TooQuiet(peak(samples))
    } else {
        RecordingVerdict::Transcribe
    }
}

/// The largest amplitude among the samples, as a pattern.
pub fn peak_amplitude(samples: &Vec<u32>) -> (r: u32)
    ensures
        r == peak(samples@),
{
    let mut max: u32 = 0;
    let mut i: usize = 0;
    assert(samples@.take(0) =~= seq![]);
    while i < samples.len()
        invariant
            i <= samples@.len(),
            max == peak(samples@.take(i as int)),
        decreases samples@.len() - i,
    {
        let amplitude = single::abs(samples[i]);
        assert(samples@.take(i + 1).drop_last() =~= samples@.take(i as int));
        if amplitude <= single::INFINITY && amplitude > max {
            max = amplitude;
        }
        i = i + 1;
    }
    assert(samples@.take(i as int) =~= samples@);
    max
}

impl Daemon {
    /// The part of the state that decisions depend on.
    pub open spec fn status(self) -> Status {
        Status {
            recording: self.state.is_recording,
            processing: self.is_processing,
            tray: self.tray,
        }
    }

    /// Whether the hotkey records only while it is held.
    pub open spec fn hold_mode(self) -> bool {
        self.trigger_mode@ == "hold"@
    }

    /// A daemon with nothing going on.
    pub fn new(config: &Config) -> (r: Daemon)
        ensures
            r.status() == (Status {
                recording: false,
                processing: false,
                tray: TrayIconState::Idle,
            }),
            consistent(r.status()),
            r.state.start_time is None,
            r.hotkey_recv_count == 0,
            r.trigger_mode@ == config@.trigger_mode,
    {
        Daemon {
            state: RecordingState::default(),
            is_processing: false,
            hotkey_recv_count: 0,
            trigger_mode: config.trigger_mode.clone(),
            tray: TrayIconState::Idle,
        }
    }

    /// Takes in a hotkey event: counts it, and says what it asks for.
    pub fn handle_hotkey(&mut self, event: HotkeyEvent) -> (action: HotkeyAction)
        ensures
            action == hotkey_action(
                old(self).hold_mode(),
                old(self).state.is_recording,
                old(self).is_processing,
                event,
            ),
            *final(self) == (Daemon {
                hotkey_recv_count: old(self).hotkey_recv_count.wrapping_add(1),
                ..*old(self)
            }),
    {
        self.hotkey_recv_count = self.hotkey_recv_count.wrapping_add(1);
        let hold = text::same_text(self.trigger_mode.as_str(), "hold");
        match event {
            HotkeyEvent::Pressed => {
                if self.is_processing {
                    return HotkeyAction::Ignore;
                }
                if hold {
                    if !self.state.is_recording {
                        HotkeyAction::StartRecording
                    } else {
                        HotkeyAction::Ignore
                    }
                } else if self.state.is_recording {
                    HotkeyAction::StopAndTranscribe
                } else {
                    HotkeyAction::StartRecording
                }
            },
            HotkeyEvent::Released => {
                if hold && self.state.is_recording {
                    HotkeyAction::StopAndTranscribe
                } else {
                    HotkeyAction::Ignore
                }
            },
        }
    }

    /// Starts a recording at the time `now`, in milliseconds, if its stream
    /// could be opened. A recording in progress goes on. Returns whether one is
    /// in progress.
    pub fn start_recording(&mut self, opened: bool, now: u64) -> (started: bool)
        ensures
            started == (old(self).state.is_recording || opened),
            final(self).status() == after_start(old(self).status(), opened),
            final(self).state.start_time == (if opened && !old(self).state.is_recording {
                Some(now)
            } else {
                old(self).state.start_time
            }),
            final(self).hotkey_recv_count == old(self).hotkey_recv_count,
            final(self).trigger_mode == old(self).trigger_mode,
            consistent(old(self).status()) && !old(self).is_processing ==> consistent(
                final(self).status(),
            ),
    {
        if !self.state.is_recording {
            if !opened {
                return false;
            }
            self.state = RecordingState { is_recording: true, start_time: Some(now) };
        }
        self.tray = TrayIconState::Recording;
        true
    }

    /// Stops the recording at the time `now` and returns how long it lasted, in
    /// milliseconds. Where there is no recording, nothing changes and there is
    /// nothing to return.
    pub fn stop_recording(&mut self, now: u64) -> (elapsed: Option<u64>)
        ensures
            elapsed == (if old(self).state.is_recording {
                Some(elapsed_ms(old(self).state.start_time, now))
            } else {
                None
            }),
            final(self).status() == (if old(self).state.is_recording {
                after_stop(old(self).status())
            } else {
                old(self).status()
            }),
            final(self).state.start_time == old(self).state.start_time,
            final(self).hotkey_recv_count == old(self).hotkey_recv_count,
            final(self).trigger_mode == old(self).trigger_mode,
            consistent(old(self).status()) ==> consistent(final(self).status()),
    {
        if !self.state.is_recording {
            return None;
        }
        self.tray = TrayIconState::Transcribing;
        self.is_processing = true;
        let start = self.state.start_time;
        self.state = RecordingState { is_recording: false, start_time: start };
        match start {
            Some(t) => if t <= now {
                Some(now - t)
            } else {
                Some(0)
            },
            None => Some(0),
        }
    }

    /// Looks at the samples of a finished recording: one without samples, or
    /// with hardly any sound, is given up.
    pub fn check_recording(&mut self, samples: &Vec<u32>) -> (verdict: RecordingVerdict)
        ensures
            verdict == verdict_of(samples@),
            final(self).status() == after_check(old(self).status(), verdict),
            final(self).state == old(self).state,
            final(self).hotkey_recv_count == old(self).hotkey_recv_count,
            final(self).trigger_mode == old(self).trigger_mode,
            consistent(old(self).status()) && !old(self).state.is_recording ==> consistent(
                final(self).status(),
            ),
    {
        if samples.len() == 0 {
            self.is_processing = false;
            self.tray = TrayIconState::Idle;
            return RecordingVerdict::Empty;
        }
        let max = peak_amplitude(samples);
        if single::greater(QUIET_AMPLITUDE, max) {
            self.is_processing = false;
            self.tray = TrayIconState::Idle;
            return RecordingVerdict::TooQuiet(max);
        }
        RecordingVerdict::Transcribe
    }

    /// Takes in how the transcription ended. A text becomes an event of the
    /// daemon's own queue.
    pub fn finish_transcription(&mut self, outcome: TranscriptionOutcome) -> (event: Option<
        DaemonEvent,
    >)
        ensures
            event == (match outcome {
                TranscriptionOutcome::Text(text) => Some(DaemonEvent::TranscriptionComplete(text)),
                _ => None,
            }),
            final(self).status() == after_finish(old(self).status(), outcome),
            final(self).state == old(self).state,
            final(self).hotkey_recv_count == old(self).hotkey_recv_count,
            final(self).trigger_mode == old(self).trigger_mode,
            consistent(old(self).status()) && !old(self).state.is_recording ==> consistent(
                final(self).status(),
            ),
    {
        match outcome {
            TranscriptionOutcome::Text(text) => Some(DaemonEvent::TranscriptionComplete(text)),
            _ => {
                self.is_processing = false;
                self.tray = TrayIconState::Idle;
                None
            },
        }
    }

    /// Takes in an event of the queue, or the report on the command before, at
    /// the time `now` in milliseconds, and says what is to be done next.
    pub fn step(&mut self, input: DaemonInput, now: u64) -> (command: DaemonCommand)
        ensures
            command == next_command(
                old(self).status(),
                old(self).hold_mode(),
                elapsed_ms(old(self).state.start_time, now),
                input,
            ),
            final(self).status() == next_status(old(self).status(), old(self).hold_mode(), input),
            final(self).state.start_time == (if input == DaemonInput::StreamOpened(true)
                && !old(self).state.is_recording {
                Some(now)
            } else {
                old(self).state.start_time
            }),
            final(self).hotkey_recv_count == (if input matches DaemonInput::Queue(
                DaemonEvent::Hotkey(_),
            ) {
                old(self).hotkey_recv_count.wrapping_add(1)
            } else {
                old(self).hotkey_recv_count
            }),
            final(self).trigger_mode == old(self).trigger_mode,
    {
        match input {
            DaemonInput::Queue(DaemonEvent::Hotkey(e)) => match self.handle_hotkey(e) {
                HotkeyAction::Ignore => DaemonCommand::Wait,
                HotkeyAction::StartRecording => DaemonCommand::OpenStream,
                HotkeyAction::StopAndTranscribe => match self.stop_recording(now) {
                    Some(elapsed) => DaemonCommand::CloseStream(elapsed),
                    None => DaemonCommand::Wait,
                },
            },
            DaemonInput::Queue(DaemonEvent::TranscriptionComplete(text)) => {
                self.is_processing = true;
                self.tray = TrayIconState::Transcribing;
                DaemonCommand::Type(text)
            },
            DaemonInput::Queue(DaemonEvent::HotkeyListenerDead) => DaemonCommand::Exit,
            DaemonInput::StreamOpened(opened) => {
                self.start_recording(opened, now);
                DaemonCommand::Wait
            },
            DaemonInput::Recorded(samples) => match self.check_recording(&samples) {
                RecordingVerdict::Transcribe => DaemonCommand::Transcribe,
                verdict => DaemonCommand::GiveUp(verdict),
            },
            DaemonInput::Transcribed(outcome) => match self.finish_transcription(outcome) {
                Some(event) => DaemonCommand::Enqueue(event),
                None => DaemonCommand::Wait,
            },
            DaemonInput::Typed => {
                self.is_processing = false;
                self.tray = TrayIconState::Idle;
                DaemonCommand::Wait
            },
        }
    }
}

/// The permissions to ask for, in order, and whether the hotkey has to wait for
/// one of them.
pub fn missing_permissions(accessibility: bool, input_monitoring: bool, microphone: bool) -> (r: (
    Vec<Permission>,
    bool,
))
    ensures
        r.0@ == (if accessibility {
            seq![]
        } else {
            seq![Permission::Accessibility]
        }) + (if input_monitoring {
            seq![]
        } else {
            seq![Permission::InputMonitoring]
        }) + (if microphone {
            seq![]
        } else {
            seq![Permission::Microphone]
        }),
        r.1 == (!accessibility || !input_monitoring),
{
    let mut missing: Vec<Permission> = Vec::new();
    if !accessibility {
        missing.push(Permission::Accessibility);
    }
    if !input_monitoring {
        missing.push(Permission::InputMonitoring);
    }
    if !microphone {
        missing.push(Permission::Microphone);
    }
    (missing, !accessibility || !input_monitoring)
}

// ── Laws ─────────────────────────────────────────────────────────────────────

/// While a text is transcribed or typed, a press starts nothing and stops
/// nothing, in either mode.
pub proof fn law_press_is_ignored_while_processing(hold: bool, recording: bool)
    ensures
        hotkey_action(hold, recording, true, HotkeyEvent::Pressed) == HotkeyAction::Ignore,
{
}

/// In hold mode a release stops the recording in progress, whether or not a
/// transcription is in progress too.
pub proof fn law_release_always_stops_in_hold_mode(processing: bool)
    ensures
        hotkey_action(true, true, processing, HotkeyEvent::Released)
            == HotkeyAction::StopAndTranscribe,
{
}

/// In toggle mode a release does nothing.
pub proof fn law_release_is_ignored_in_toggle_mode(recording: bool, processing: bool)
    ensures
        hotkey_action(false, recording, processing, HotkeyEvent::Released) == HotkeyAction::Ignore,
{
}

/// In toggle mode, presses start and stop in turn: one starts a recording, and
/// the next stops it, whatever is released between them.
pub proof fn law_toggle_presses_start_and_stop(s: Status)
    requires
        !s.recording,
        !s.processing,
    ensures
        hotkey_action(false, s.recording, s.processing, HotkeyEvent::Pressed)
            == HotkeyAction::StartRecording,
        ({
            let started = after_start(s, true);
            &&& hotkey_action(false, started.recording, started.processing, HotkeyEvent::Released)
                == HotkeyAction::Ignore
            &&& hotkey_action(false, started.recording, started.processing, HotkeyEvent::Pressed)
                == HotkeyAction::StopAndTranscribe
        }),
{
}

/// In hold mode the recording follows the key: a press starts it, repeated
/// presses change nothing, and the release stops it.
pub proof fn law_hold_follows_the_key(s: Status)
    requires
        !s.recording,
        !s.processing,
    ensures
        hotkey_action(true, s.recording, s.processing, HotkeyEvent::Pressed)
            == HotkeyAction::StartRecording,
        ({
            let started = after_start(s, true);
            &&& hotkey_action(true, started.recording, started.processing, HotkeyEvent::Pressed)
                == HotkeyAction::Ignore
            &&& hotkey_action(true, started.recording, started.processing, HotkeyEvent::Released)
                == HotkeyAction::StopAndTranscribe
        }),
{
}

/// A recording is started only where none is in progress, and stopped only
/// where one is.
pub proof fn law_actions_fit_the_status(s: Status, hold: bool, event: HotkeyEvent)
    ensures
        hotkey_action(hold, s.recording, s.processing, event) == HotkeyAction::StartRecording
            ==> !s.recording && !s.processing,
        hotkey_action(hold, s.recording, s.processing, event) == HotkeyAction::StopAndTranscribe
            ==> s.recording,
{
}

/// Every step that the daemon takes keeps its status consistent: starting a
/// recording or stopping one when a hotkey event asks for it, looking at a
/// stopped recording, ending its transcription, and typing the text.
pub proof fn law_status_stays_consistent(
    s: Status,
    hold: bool,
    event: HotkeyEvent,
    opened: bool,
    verdict: RecordingVerdict,
    outcome: TranscriptionOutcome,
)
    requires
        consistent(s),
    ensures
        hotkey_action(hold, s.recording, s.processing, event) == HotkeyAction::StartRecording
            ==> consistent(after_start(s, opened)),
        consistent(after_stop(s)),
        s.processing ==> consistent(after_check(s, verdict)),
        s.processing ==> consistent(after_finish(s, outcome)),
        s.processing ==> consistent(after_text(s)),
        s.processing ==> consistent(after_complete(s)),
{
}

/// The status once a stopped recording is done with: it was given up, its
/// transcription failed or timed out, or its text was typed.
pub open spec fn after_recording(
    s: Status,
    verdict: RecordingVerdict,
    outcome: TranscriptionOutcome,
) -> Status {
    let checked = after_check(after_stop(s), verdict);
    let finished = after_finish(checked, outcome);
    if verdict != RecordingVerdict::Transcribe {
        checked
    } else if outcome is Text {
        after_complete(after_text(finished))
    } else {
        finished
    }
}

/// However a stopped recording fares, the daemon is ready for the next one
/// afterwards.
pub proof fn law_processing_always_ends(
    s: Status,
    verdict: RecordingVerdict,
    outcome: TranscriptionOutcome,
)
    ensures
        ({
            let done = after_recording(s, verdict, outcome);
            &&& !done.recording
            &&& !done.processing
            &&& forall|hold: bool|
                hotkey_action(hold, done.recording, done.processing, HotkeyEvent::Pressed)
                    == HotkeyAction::StartRecording
        }),
{
}

/// However a recording fares, the daemon is afterwards as it was before: idle,
/// and shown as idle.
pub proof fn law_full_cycle_returns_to_idle(
    s: Status,
    verdict: RecordingVerdict,
    outcome: TranscriptionOutcome,
)
    requires
        s == (Status { recording: false, processing: false, tray: TrayIconState::Idle }),
    ensures
        after_recording(after_start(s, true), verdict, outcome) == s,
{
}

/// From the time a text is handed out to be typed until it is reported as typed,
/// a press does nothing, in either mode; after the report, a press starts a
/// recording again.
pub proof fn law_press_is_ignored_while_typing(s: Status, hold: bool, elapsed: u64, text: String)
    requires
        !s.recording,
    ensures
        ({
            let arrived = DaemonInput::Queue(DaemonEvent::TranscriptionComplete(text));
            let press = DaemonInput::Queue(DaemonEvent::Hotkey(HotkeyEvent::Pressed));
            let typing = next_status(s, hold, arrived);
            let typed = next_status(typing, hold, DaemonInput::Typed);
            &&& next_command(s, hold, elapsed, arrived) == DaemonCommand::Type(text)
            &&& next_command(typing, hold, elapsed, press) == DaemonCommand::Wait
            &&& next_status(typing, hold, press) == typing
            &&& next_command(typing, hold, elapsed, DaemonInput::Typed) == DaemonCommand::Wait
            &&& next_command(typed, hold, elapsed, press) == DaemonCommand::OpenStream
        }),
{
}

/// What happens to the daemon: a hotkey event, with how the steps that it may
/// lead to turn out, the arrival of a transcribed text, or the end of its typing.
pub enum DaemonStep {
    Hotkey {
        event: HotkeyEvent,
        /// Whether a recording stream can be opened.
        opened: bool,
        /// What becomes of the recording, if one is stopped.
        verdict: RecordingVerdict,
        /// How its transcription ends, if there is one.
        outcome: TranscriptionOutcome,
    },
    TextArrived,
    Typed,
}

/// The status after a step.
pub open spec fn after_step(s: Status, hold: bool, step: DaemonStep) -> Status {
    match step {
        DaemonStep::Hotkey { event, opened, verdict, outcome } => match hotkey_action(
            hold,
            s.recording,
            s.processing,
            event,
        ) {
            HotkeyAction::Ignore => s,
            HotkeyAction::StartRecording => after_start(s, opened),
            HotkeyAction::StopAndTranscribe => {
                let checked = after_check(after_stop(s), verdict);
                if verdict == RecordingVerdict::Transcribe {
                    after_finish(checked, outcome)
                } else {
                    checked
                }
            },
        },
        DaemonStep::TextArrived => after_text(s),
        DaemonStep::Typed => after_complete(s),
    }
}

/// The status of a new daemon after a run of steps.
pub open spec fn status_after(hold: bool, steps: Seq<DaemonStep>) -> Status
    decreases steps.len(),
{
    if steps.len() == 0 {
        Status { recording: false, processing: false, tray: TrayIconState::Idle }
    } else {
        after_step(status_after(hold, steps.drop_last()), hold, steps.last())
    }
}

/// Whether a run of steps can happen: a text arrives, and has been typed, only
/// while a text is transcribed or typed.
pub open spec fn possible_run(hold: bool, steps: Seq<DaemonStep>) -> bool
    decreases steps.len(),
{
    steps.len() == 0 || {
        &&& possible_run(hold, steps.drop_last())
        &&& steps.last() !is Hotkey ==> status_after(hold, steps.drop_last()).processing
    }
}

/// The status after a hotkey event and the reports that its commands ask for: a
/// stream that is opened or not, and of a recording its samples and, where it is
/// transcribed, how that ends.
pub open spec fn after_exchange(
    s: Status,
    hold: bool,
    event: HotkeyEvent,
    opened: bool,
    samples: Vec<u32>,
    outcome: TranscriptionOutcome,
) -> Status {
    let first = DaemonInput::Queue(DaemonEvent::Hotkey(event));
    let heard = next_status(s, hold, first);
    match next_command(s, hold, 0, first) {
        DaemonCommand::OpenStream => next_status(heard, hold, DaemonInput::StreamOpened(opened)),
        DaemonCommand::CloseStream(_) => {
            let second = DaemonInput::Recorded(samples);
            let checked = next_status(heard, hold, second);
            if next_command(heard, hold, 0, second) is Transcribe {
                next_status(checked, hold, DaemonInput::Transcribed(outcome))
            } else {
                checked
            }
        },
        _ => heard,
    }
}

/// Commands and reports come to a step of a run: where every command is answered
/// by the report that it asks for, a hotkey event does what the step says.
pub proof fn law_exchange_is_a_step(
    s: Status,
    hold: bool,
    event: HotkeyEvent,
    opened: bool,
    samples: Vec<u32>,
    outcome: TranscriptionOutcome,
)
    ensures
        after_exchange(s, hold, event, opened, samples, outcome) == after_step(
            s,
            hold,
            DaemonStep::Hotkey { event, opened, verdict: verdict_of(samples@), outcome },
        ),
{
}

/// The text of a transcription is what is typed: it goes through the queue as it
/// is.
pub proof fn law_transcribed_text_is_typed(s: Status, t: Status, hold: bool, text: String)
    ensures
        next_command(
            s,
            hold,
            0,
            DaemonInput::Transcribed(TranscriptionOutcome::Text(text)),
        ) == DaemonCommand::Enqueue(DaemonEvent::TranscriptionComplete(text)),
        next_command(
            t,
            hold,
            0,
            DaemonInput::Queue(DaemonEvent::TranscriptionComplete(text)),
        ) == DaemonCommand::Type(text),
{
}

/// Whatever happens, in either mode, nothing is recorded while a text is
/// transcribed or typed, and the tray icon shows what is in progress.
pub proof fn law_every_run_stays_consistent(hold: bool, steps: Seq<DaemonStep>)
    requires
        possible_run(hold, steps),
    ensures
        consistent(status_after(hold, steps)),
    decreases steps.len(),
{
    if steps.len() > 0 {
        law_every_run_stays_consistent(hold, steps.drop_last());
    }
}

/// Once a text is awaited, hotkey events change nothing until it is typed.
pub proof fn law_awaited_text_blocks_the_hotkey(
    hold: bool,
    steps: Seq<DaemonStep>,
    step: DaemonStep,
)
    requires
        possible_run(hold, steps),
        status_after(hold, steps).processing,
        step is Hotkey,
    ensures
        after_step(status_after(hold, steps), hold, step) == status_after(hold, steps),
{
    law_every_run_stays_consistent(hold, steps);
}

/// The peak amplitude of a recording is that of its loudest sample.
pub proof fn law_peak_is_the_largest_amplitude(samples: Seq<u32>)
    ensures
        !single::is_nan(peak(samples)),
        !single::is_negative(peak(samples)),
        forall|i: int|
            0 <= i < samples.len() ==> !single::is_greater(
                single::abs_bits(#[trigger] samples[i]),
                peak(samples),
            ),
        peak(samples) == 0 || exists|i: int|
            0 <= i < samples.len() && single::abs_bits(#[trigger] samples[i]) == peak(samples),
    decreases samples.len(),
{
    if samples.len() > 0 {
        let init = samples.drop_last();
        law_peak_is_the_largest_amplitude(init);
        assert forall|i: int| 0 <= i < samples.len() implies !single::is_greater(
            single::abs_bits(#[trigger] samples[i]),
            peak(samples),
        ) by {
            if i < init.len() {
                assert(samples[i] == init[i]);
            }
        }
        if peak(samples) == single::abs_bits(samples.last()) {
            assert(samples[samples.len() - 1] == samples.last());
        } else if peak(samples) != 0 {
            let i = choose|i: int|
                0 <= i < init.len() && single::abs_bits(#[trigger] init[i]) == peak(init);
            assert(samples[i] == init[i]);
        }
    }
}

/// What becomes of a recording. One without samples is empty. One with a sample
/// anywhere in it that is a number of amplitude 0.001 or more is transcribed. One
/// without such a sample is too quiet, and the amplitude that is reported is that
/// of one of its samples, or zero where none is a number; no sample that is a
/// number has a larger one.
pub proof fn law_every_sample_is_listened_to(samples: Seq<u32>)
    ensures
        samples.len() == 0 ==> verdict_of(samples) == RecordingVerdict::Empty,
        samples.len() > 0 ==> {
            let loud = |s: u32|
                {
                    ||| 0x3a83_126f <= s <= 0x7f80_0000
                    ||| 0xba83_126f <= s <= 0xff80_0000
                };
            &&& (exists|i: int| 0 <= i < samples.len() && loud(#[trigger] samples[i]))
                ==> verdict_of(samples) == RecordingVerdict::Transcribe
            &&& (forall|i: int| 0 <= i < samples.len() ==> !loud(#[trigger] samples[i])) ==> {
                &&& verdict_of(samples) matches RecordingVerdict::TooQuiet(max)
                &&& max < 0x3a83_126f
                &&& forall|i: int|
                    0 <= i < samples.len() ==> {
                        let s = #[trigger] samples[i];
                        &&& s <= 0x7f80_0000 ==> s <= max
                        &&& 0x8000_0000 <= s <= 0xff80_0000 ==> s - 0x8000_0000 <= max
                    }
                &&& max == 0 || exists|i: int|
                    0 <= i < samples.len() && (#[trigger] samples[i] == max || samples[i] == max
                        + 0x8000_0000)
            }
        },
{
    if samples.len() > 0 {
        let max = peak(samples);
        law_peak_is_the_largest_amplitude(samples);
        assert forall|i: int| 0 <= i < samples.len() implies {
            let s = #[trigger] samples[i];
            &&& s <= 0x7f80_0000 ==> s <= max
            &&& 0x8000_0000 <= s <= 0xff80_0000 ==> s - 0x8000_0000 <= max
        } by {
            assert(!single::is_greater(single::abs_bits(samples[i]), max));
        }
        if max != 0 {
            let i = choose|i: int|
                0 <= i < samples.len() && single::abs_bits(#[trigger] samples[i]) == max;
            assert(samples[i] == max || samples[i] == max + 0x8000_0000);
        }
    }
}

/// What a hotkey event asks for, in every state: a press starts a recording
/// where nothing is in progress, and stops one in toggle mode; a release stops
/// one in hold mode; nothing else does anything.
pub proof fn law_hotkey_events_in_every_state(hold: bool, recording: bool, processing: bool)
    ensures
        ({
            let press = hotkey_action(hold, recording, processing, HotkeyEvent::Pressed);
            let release = hotkey_action(hold, recording, processing, HotkeyEvent::Released);
            &&& !processing && !recording <==> press == HotkeyAction::StartRecording
            &&& !processing && recording && !hold <==> press == HotkeyAction::StopAndTranscribe
            &&& recording && hold <==> release == HotkeyAction::StopAndTranscribe
            &&& release != HotkeyAction::StartRecording
        }),
{
}

/// The commands that hotkey events lead to, and the status that they leave: a
/// recording that is stopped is from then on transcribed, and shown so; opening
/// the stream changes nothing yet.
pub proof fn law_hotkey_commands(s: Status, hold: bool, elapsed: u64, event: HotkeyEvent)
    ensures
        ({
            let input = DaemonInput::Queue(DaemonEvent::Hotkey(event));
            let starts = event == HotkeyEvent::Pressed && !s.processing && !s.recording;
            let stops = s.recording && if event == HotkeyEvent::Pressed {
                !s.processing && !hold
            } else {
                hold
            };
            let command = next_command(s, hold, elapsed, input);
            let after = next_status(s, hold, input);
            &&& starts ==> command == DaemonCommand::OpenStream && after == s
            &&& stops ==> {
                &&& command == DaemonCommand::CloseStream(elapsed)
                &&& !after.recording
                &&& after.processing
                &&& after.tray == TrayIconState::Transcribing
            }
            &&& !starts && !stops ==> command == DaemonCommand::Wait && after == s
        }),
{
}

/// A stream that was opened starts a recording, which the tray icon shows; one
/// that was not opened changes nothing, but that a recording in progress is
/// shown.
pub proof fn law_opened_stream_records(s: Status, hold: bool, elapsed: u64, opened: bool)
    ensures
        ({
            let input = DaemonInput::StreamOpened(opened);
            let after = next_status(s, hold, input);
            &&& next_command(s, hold, elapsed, input) == DaemonCommand::Wait
            &&& after.processing == s.processing
            &&& after.recording == (s.recording || opened)
            &&& after.tray == if after.recording {
                TrayIconState::Recording
            } else {
                s.tray
            }
        }),
{
}

/// A recording with sound in it is transcribed, and the daemon goes on as it is;
/// any other is given up with the verdict on it, and nothing is in progress any
/// more.
pub proof fn law_recordings_are_transcribed_or_given_up(
    s: Status,
    hold: bool,
    elapsed: u64,
    samples: Vec<u32>,
)
    ensures
        ({
            let input = DaemonInput::Recorded(samples);
            let command = next_command(s, hold, elapsed, input);
            let after = next_status(s, hold, input);
            let loud = |x: u32|
                {
                    ||| 0x3a83_126f <= x <= 0x7f80_0000
                    ||| 0xba83_126f <= x <= 0xff80_0000
                };
            if exists|i: int| 0 <= i < samples@.len() && loud(#[trigger] samples@[i]) {
                command == DaemonCommand::Transcribe && after == s
            } else {
                &&& command matches DaemonCommand::GiveUp(verdict)
                &&& samples@.len() == 0 <==> verdict == RecordingVerdict::Empty
                &&& samples@.len() > 0 ==> verdict is TooQuiet
                &&& after.recording == s.recording
                &&& !after.processing
                &&& after.tray == TrayIconState::Idle
            }
        }),
{
    law_every_sample_is_listened_to(samples@);
}

/// The end of a transcription: a text is queued, and the daemon goes on as it
/// is; without one, nothing is in progress any more. A queued text is typed, and
/// once it is typed nothing is in progress any more. The end of the listener ends
/// the loop.
pub proof fn law_transcriptions_are_typed(s: Status, hold: bool, elapsed: u64, text: String)
    ensures
        ({
            let done = DaemonInput::Transcribed(TranscriptionOutcome::Text(text));
            &&& next_command(s, hold, elapsed, done) == DaemonCommand::Enqueue(
                DaemonEvent::TranscriptionComplete(text),
            )
            &&& next_status(s, hold, done) == s
        }),
        forall|outcome: TranscriptionOutcome|
            outcome !is Text ==> {
                let after = #[trigger] next_status(s, hold, DaemonInput::Transcribed(outcome));
                &&& next_command(s, hold, elapsed, DaemonInput::Transcribed(outcome))
                    == DaemonCommand::Wait
                &&& after.recording == s.recording
                &&& !after.processing
                &&& after.tray == TrayIconState::Idle
            },
        ({
            let queued = DaemonInput::Queue(DaemonEvent::TranscriptionComplete(text));
            let after = next_status(s, hold, queued);
            &&& next_command(s, hold, elapsed, queued) == DaemonCommand::Type(text)
            &&& after.recording == s.recording
            &&& after.processing
            &&& after.tray == TrayIconState::Transcribing
        }),
        ({
            let after = next_status(s, hold, DaemonInput::Typed);
            &&& next_command(s, hold, elapsed, DaemonInput::Typed) == DaemonCommand::Wait
            &&& after.recording == s.recording
            &&& !after.processing
            &&& after.tray == TrayIconState::Idle
        }),
        ({
            let dead = DaemonInput::Queue(DaemonEvent::HotkeyListenerDead);
            &&& next_command(s, hold, elapsed, dead) == DaemonCommand::Exit
            &&& next_status(s, hold, dead) == s
        }),
{
}

/// What the single operations do to the status, field by field.
pub proof fn law_status_field_by_field(
    s: Status,
    opened: bool,
    verdict: RecordingVerdict,
    outcome: TranscriptionOutcome,
)
    ensures
        after_start(s, opened).recording == (s.recording || opened),
        after_start(s, opened).processing == s.processing,
        after_start(s, opened).tray == if s.recording || opened {
            TrayIconState::Recording
        } else {
            s.tray
        },
        !after_stop(s).recording,
        after_stop(s).processing,
        after_stop(s).tray == TrayIconState::Transcribing,
        verdict == RecordingVerdict::Transcribe ==> after_check(s, verdict) == s,
        verdict != RecordingVerdict::Transcribe ==> {
            let after = after_check(s, verdict);
            &&& after.recording == s.recording
            &&& !after.processing
            &&& after.tray == TrayIconState::Idle
        },
        outcome is Text ==> after_finish(s, outcome) == s,
        outcome !is Text ==> {
            let after = after_finish(s, outcome);
            &&& after.recording == s.recording
            &&& !after.processing
            &&& after.tray == TrayIconState::Idle
        },
{
}

/// The status is the daemon's own state, and it is in hold mode exactly if its
/// trigger mode is named so.
pub proof fn law_status_of_a_daemon(d: Daemon)
    ensures
        d.status().recording == d.state.is_recording,
        d.status().processing == d.is_processing,
        d.status().tray == d.tray,
        d.hold_mode() <==> d.trigger_mode@ == "hold"@,
{
}

/// A recording lasts from its start to the present; where the start is not
/// known, or lies ahead, it has not lasted at all.
pub proof fn law_length_of_a_recording(start: u64, now: u64)
    ensures
        start <= now ==> start + elapsed_ms(Some(start), now) == now,
        start > now ==> elapsed_ms(Some(start), now) == 0,
        elapsed_ms(None, now) == 0,
{
}

}
