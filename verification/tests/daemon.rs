use open_flow::common::config::Config;
use open_flow::common::types::HotkeyEvent;
use open_flow::daemon::{missing_permissions, peak_amplitude, QUIET_AMPLITUDE};
use open_flow::daemon::{Daemon, DaemonCommand, DaemonEvent, DaemonInput, HotkeyAction};
use open_flow::daemon::{Permission, RecordingVerdict, TranscriptionOutcome};
use open_flow::tray::TrayIconState;

fn daemon(trigger_mode: &str) -> Daemon {
    let mut config = Config::default();
    config.trigger_mode = trigger_mode.to_string();
    Daemon::new(&config)
}

fn samples(amplitudes: &[f32]) -> Vec<u32> {
    amplitudes.iter().map(|a| a.to_bits()).collect()
}

#[test]
fn toggle_mode_cycle() {
    let mut d = daemon("toggle");
    assert_eq!(d.handle_hotkey(HotkeyEvent::Pressed), HotkeyAction::StartRecording);
    assert!(d.start_recording(true, 1000));
    assert_eq!(d.tray, TrayIconState::Recording);
    assert_eq!(d.handle_hotkey(HotkeyEvent::Released), HotkeyAction::Ignore);
    assert_eq!(d.handle_hotkey(HotkeyEvent::Pressed), HotkeyAction::StopAndTranscribe);
    assert_eq!(d.stop_recording(3500), Some(2500));
    assert_eq!(d.tray, TrayIconState::Transcribing);
    assert!(d.is_processing);
    assert_eq!(d.check_recording(&samples(&[0.0, -0.5])), RecordingVerdict::Transcribe);
    // While the text is awaited, presses are ignored.
    assert_eq!(d.handle_hotkey(HotkeyEvent::Pressed), HotkeyAction::Ignore);
    let event = d.finish_transcription(TranscriptionOutcome::Text("hi".to_string())).unwrap();
    assert!(d.is_processing);
    let command = d.step(DaemonInput::Queue(event), 4000);
    assert!(matches!(command, DaemonCommand::Type(text) if text == "hi"));
    // While the text is typed, presses are still ignored.
    assert!(d.is_processing);
    assert_eq!(d.tray, TrayIconState::Transcribing);
    assert_eq!(d.handle_hotkey(HotkeyEvent::Pressed), HotkeyAction::Ignore);
    assert!(matches!(d.step(DaemonInput::Typed, 4100), DaemonCommand::Wait));
    assert!(!d.is_processing);
    assert_eq!(d.tray, TrayIconState::Idle);
    assert_eq!(d.hotkey_recv_count, 5);
    assert_eq!(d.handle_hotkey(HotkeyEvent::Pressed), HotkeyAction::StartRecording);
}

#[test]
fn hold_mode_cycle() {
    let mut d = daemon("hold");
    assert_eq!(d.handle_hotkey(HotkeyEvent::Released), HotkeyAction::Ignore);
    assert_eq!(d.handle_hotkey(HotkeyEvent::Pressed), HotkeyAction::StartRecording);
    assert!(d.start_recording(true, 0));
    assert_eq!(d.handle_hotkey(HotkeyEvent::Pressed), HotkeyAction::Ignore);
    // A release stops even while a transcription is in progress.
    d.is_processing = true;
    assert_eq!(d.handle_hotkey(HotkeyEvent::Released), HotkeyAction::StopAndTranscribe);
}

#[test]
fn other_modes_toggle() {
    let mut d = daemon("Hold");
    assert!(d.start_recording(true, 0));
    assert_eq!(d.handle_hotkey(HotkeyEvent::Released), HotkeyAction::Ignore);
    assert_eq!(d.handle_hotkey(HotkeyEvent::Pressed), HotkeyAction::StopAndTranscribe);
}

#[test]
fn a_stream_that_does_not_open() {
    let mut d = daemon("toggle");
    assert!(!d.start_recording(false, 5));
    assert!(!d.state.is_recording);
    assert_eq!(d.state.start_time, None);
    assert_eq!(d.tray, TrayIconState::Idle);
    assert!(d.start_recording(true, 6));
    // A recording in progress goes on.
    assert!(d.start_recording(false, 7));
    assert_eq!(d.state.start_time, Some(6));
}

#[test]
fn stopping_without_a_recording() {
    let mut d = daemon("toggle");
    assert_eq!(d.stop_recording(9), None);
    assert!(!d.is_processing);
    assert_eq!(d.tray, TrayIconState::Idle);
    assert_eq!(d.handle_hotkey(HotkeyEvent::Pressed), HotkeyAction::StartRecording);
    assert!(d.start_recording(true, 10));
    assert_eq!(d.stop_recording(4), Some(0));
}

#[test]
fn empty_and_quiet_recordings_are_given_up() {
    assert_eq!(QUIET_AMPLITUDE, 0.001f32.to_bits());
    for (recorded, verdict) in [
        (samples(&[]), RecordingVerdict::Empty),
        (samples(&[0.0, -0.0]), RecordingVerdict::TooQuiet(0)),
        (samples(&[0.0005, -0.0009]), RecordingVerdict::TooQuiet(0.0009f32.to_bits())),
        (samples(&[f32::NAN]), RecordingVerdict::TooQuiet(0)),
        (samples(&[0.0, 0.001]), RecordingVerdict::Transcribe),
        (samples(&[-0.2, 0.0]), RecordingVerdict::Transcribe),
        (samples(&[f32::NEG_INFINITY]), RecordingVerdict::Transcribe),
    ] {
        let mut d = daemon("toggle");
        d.start_recording(true, 0);
        d.stop_recording(1);
        assert_eq!(d.check_recording(&recorded), verdict);
        assert_eq!(d.is_processing, verdict == RecordingVerdict::Transcribe);
        let shown = if d.is_processing { TrayIconState::Transcribing } else { TrayIconState::Idle };
        assert_eq!(d.tray, shown);
    }
}

#[test]
fn peak_of_a_recording() {
    assert_eq!(peak_amplitude(&samples(&[])), 0);
    let recorded = [0.25f32, -0.75, f32::NAN, 0.5, -0.0];
    let folded = recorded.iter().map(|x| x.abs()).fold(0.0f32, f32::max);
    assert_eq!(peak_amplitude(&samples(&recorded)), folded.to_bits());
}

#[test]
fn failed_and_late_transcriptions() {
    let mut d = daemon("toggle");
    d.start_recording(true, 0);
    d.stop_recording(1);
    assert!(d.finish_transcription(TranscriptionOutcome::Failed).is_none());
    assert!(!d.is_processing);
    assert_eq!(d.tray, TrayIconState::Idle);
    d.start_recording(true, 2);
    d.stop_recording(3);
    assert!(d.finish_transcription(TranscriptionOutcome::TimedOut).is_none());
    assert!(!d.is_processing);
    assert_eq!(d.tray, TrayIconState::Idle);
    assert_eq!(d.handle_hotkey(HotkeyEvent::Pressed), HotkeyAction::StartRecording);
}

#[test]
fn commands_and_reports() {
    let mut d = daemon("hold");
    let press = || DaemonInput::Queue(DaemonEvent::Hotkey(HotkeyEvent::Pressed));
    let release = || DaemonInput::Queue(DaemonEvent::Hotkey(HotkeyEvent::Released));
    assert!(matches!(d.step(press(), 1), DaemonCommand::OpenStream));
    assert_eq!(d.state.start_time, None);
    assert!(matches!(d.step(DaemonInput::StreamOpened(true), 10), DaemonCommand::Wait));
    assert_eq!(d.state.start_time, Some(10));
    assert!(matches!(d.step(press(), 20), DaemonCommand::Wait));
    assert!(matches!(d.step(release(), 35), DaemonCommand::CloseStream(25)));
    let recorded = DaemonInput::Recorded(samples(&[0.5]));
    assert!(matches!(d.step(recorded, 36), DaemonCommand::Transcribe));
    let done = DaemonInput::Transcribed(TranscriptionOutcome::Text("t".to_string()));
    let command = d.step(done, 40);
    assert!(matches!(
        command,
        DaemonCommand::Enqueue(DaemonEvent::TranscriptionComplete(t)) if t == "t"
    ));
    assert!(d.is_processing);
    let event = DaemonEvent::TranscriptionComplete("t".to_string());
    assert!(matches!(d.step(DaemonInput::Queue(event), 41), DaemonCommand::Type(t) if t == "t"));
    assert!(d.is_processing);
    assert!(matches!(d.step(press(), 42), DaemonCommand::Wait));
    assert!(matches!(d.step(release(), 43), DaemonCommand::Wait));
    assert!(!d.state.is_recording);
    assert!(matches!(d.step(DaemonInput::Typed, 44), DaemonCommand::Wait));
    assert!(!d.is_processing);
    assert_eq!(d.tray, TrayIconState::Idle);
    assert!(matches!(d.step(press(), 45), DaemonCommand::OpenStream));
    assert_eq!(d.hotkey_recv_count, 6);
}

#[test]
fn commands_when_things_fail() {
    let mut d = daemon("toggle");
    let press = || DaemonInput::Queue(DaemonEvent::Hotkey(HotkeyEvent::Pressed));
    assert!(matches!(d.step(press(), 0), DaemonCommand::OpenStream));
    assert!(matches!(d.step(DaemonInput::StreamOpened(false), 0), DaemonCommand::Wait));
    assert_eq!(d.tray, TrayIconState::Idle);
    assert!(matches!(d.step(press(), 0), DaemonCommand::OpenStream));
    d.step(DaemonInput::StreamOpened(true), 0);
    assert!(matches!(d.step(press(), 5), DaemonCommand::CloseStream(5)));
    assert!(matches!(
        d.step(DaemonInput::Recorded(vec![]), 5),
        DaemonCommand::GiveUp(RecordingVerdict::Empty)
    ));
    assert!(!d.is_processing);
    assert!(matches!(
        d.step(DaemonInput::Transcribed(TranscriptionOutcome::Failed), 5),
        DaemonCommand::Wait
    ));
    assert!(matches!(
        d.step(DaemonInput::Transcribed(TranscriptionOutcome::TimedOut), 5),
        DaemonCommand::Wait
    ));
    let dead = DaemonInput::Queue(DaemonEvent::HotkeyListenerDead);
    assert!(matches!(d.step(dead, 6), DaemonCommand::Exit));
    d.hotkey_recv_count = u64::MAX;
    d.step(press(), 7);
    assert_eq!(d.hotkey_recv_count, 0);
}

#[test]
fn permissions_to_ask_for() {
    assert_eq!(missing_permissions(true, true, true), (vec![], false));
    assert_eq!(missing_permissions(true, true, false), (vec![Permission::Microphone], false));
    assert_eq!(
        missing_permissions(false, false, true),
        (vec![Permission::Accessibility, Permission::InputMonitoring], true)
    );
}
