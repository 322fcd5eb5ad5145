use open_flow::common::config::Config;
use open_flow::overlay::{DotColor, OverlayWindow};
use open_flow::settings_window::SettingsWindow;
use open_flow::tray::TrayIconState;

#[test]
fn indicator_states() {
    let mut overlay = OverlayWindow::new();
    let idle = overlay.update_state(TrayIconState::Idle);
    assert!(idle.draw.is_none() && idle.show.is_none());

    let recording = overlay.update_state(TrayIconState::Recording);
    let drawn = recording.draw.unwrap();
    assert!(drawn.reposition && drawn.pulse);
    assert_eq!(drawn.label, "Recording...");
    assert_eq!(drawn.dot, DotColor::Red);
    assert_eq!(recording.show, Some(true));

    let transcribing = overlay.update_state(TrayIconState::Transcribing);
    let drawn = transcribing.draw.unwrap();
    assert!(!drawn.reposition && !drawn.pulse);
    assert_eq!(drawn.label, "Transcribing...");
    assert_eq!(drawn.dot, DotColor::Orange);
    assert_eq!(transcribing.show, None);

    assert_eq!(overlay.update_state(TrayIconState::Idle).show, Some(false));
    assert_eq!(overlay.update_state(TrayIconState::Idle).show, None);
    assert_eq!(overlay.update_state(TrayIconState::Transcribing).show, Some(true));
}

#[test]
fn settings_are_shown() {
    let mut window = SettingsWindow::new();
    assert!(!window.is_visible());
    let mut config = Config::default();
    config.provider = "groq".to_string();
    let labels = window.show(&config);
    assert!(window.is_visible());
    assert_eq!(labels.provider, "Provider: groq");
    assert_eq!(labels.hotkey, "Hotkey: right_cmd");
    assert_eq!(labels.trigger, "Trigger: toggle");
    assert_eq!(labels.groq_model, "Groq Model: whisper-large-v3-turbo");
}
