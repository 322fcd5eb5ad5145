use open_flow::cli::daemon::{awaits_thread, background_args, check_start, check_stop};
use open_flow::cli::daemon::{exit_reason, falls_back_to_local, preferences_action};
use open_flow::cli::daemon::{is_active_exit_code, is_running, is_shutdown_event};
use open_flow::cli::daemon::{pid_file_text, read_pid, select_provider, status, uptime_text};
use open_flow::cli::daemon::{
    DaemonStatus, ExitReason, PreferencesAction, ProviderChoice, StartCheck,
};
use open_flow::cli::daemon::{StopCheck, StopStep, StopWait, STOP_POLLS};
use open_flow::cli::launch::is_app_bundle_launch;
use open_flow::cli::model::{after_switch, shown_model_path, PresetPlan};
use open_flow::cli::setup::{choose_model, download_step, is_saved, model_files, percent_done};
use open_flow::cli::setup::{setup_target, DownloadStep, ModelSource};
use open_flow::common::config::Config;

#[test]
fn pid_files() {
    for pid in [0u32, 1, 4711, u32::MAX] {
        assert_eq!(pid_file_text(pid), pid.to_string());
        assert_eq!(read_pid(&pid_file_text(pid)), Some(pid));
    }
    assert_eq!(read_pid(" 42\n"), Some(42));
    assert_eq!(read_pid(""), None);
    assert_eq!(read_pid("-1"), None);
    assert_eq!(read_pid("42 43"), None);
    assert_eq!(read_pid("4294967296"), None);
}

#[test]
fn running_daemons() {
    assert!(!is_running(false, None));
    assert!(!is_running(false, Some("open-flow")));
    assert!(is_running(true, None));
    assert!(is_running(true, Some("  /usr/bin/open-flow\n")));
    assert!(!is_running(true, Some("bash\n")));
    assert!(!is_running(true, Some("")));
    assert!(is_active_exit_code(Some(259)));
    assert!(!is_active_exit_code(Some(0)));
    assert!(!is_active_exit_code(None));
    assert!(is_shutdown_event(0) && is_shutdown_event(1) && !is_shutdown_event(2));
}

#[test]
fn start_stop_and_status() {
    assert_eq!(check_start(None), StartCheck::Start);
    assert_eq!(check_start(Some((7, true))), StartCheck::AlreadyRunning(7));
    assert_eq!(check_start(Some((7, false))), StartCheck::RemoveStalePid);
    assert_eq!(check_stop(None), StopCheck::NotRunning);
    assert_eq!(check_stop(Some((7, true))), StopCheck::Terminate(7));
    assert_eq!(check_stop(Some((7, false))), StopCheck::RemoveStalePid(7));
    assert_eq!(status(None), DaemonStatus::NotRunning);
    assert_eq!(status(Some((7, true))), DaemonStatus::Running(7));
    assert_eq!(status(Some((7, false))), DaemonStatus::Stale(7));
    assert_eq!(uptime_text(Some(" 01:02\n")), "01:02");
    assert_eq!(uptime_text(None), "unknown");
}

#[test]
fn background_arguments() {
    assert_eq!(background_args(None), vec!["start", "--foreground"]);
    assert_eq!(
        background_args(Some("/m".to_string())),
        vec!["start", "--foreground", "--model", "/m"]
    );
}

#[test]
fn stopping_gives_up_after_a_while() {
    let mut wait = StopWait::new();
    for _ in 1..STOP_POLLS {
        assert_eq!(wait.poll(true), StopStep::Wait);
    }
    assert_eq!(wait.poll(true), StopStep::Kill);
    let mut wait = StopWait::new();
    assert_eq!(wait.poll(true), StopStep::Wait);
    assert_eq!(wait.poll(false), StopStep::Stopped);
}

#[test]
fn waiting_for_the_thread() {
    assert!(awaits_thread(0, false));
    assert!(awaits_thread(1999, false));
    assert!(!awaits_thread(2000, false));
    assert!(!awaits_thread(0, true));
}

#[test]
fn preferences_requests() {
    let app = Some("/app".to_string());
    assert!(matches!(preferences_action(false, app.clone()), PreferencesAction::Ignore));
    assert!(matches!(preferences_action(true, app), PreferencesAction::Launch(p) if p == "/app"));
    assert!(matches!(preferences_action(true, None), PreferencesAction::Missing));
}

#[test]
fn groq_failures_fall_back() {
    assert!(falls_back_to_local(true, true));
    assert!(!falls_back_to_local(true, false));
    assert!(!falls_back_to_local(false, true));
}

#[test]
fn reasons_to_exit() {
    assert_eq!(exit_reason(false, false, true), None);
    assert_eq!(exit_reason(true, true, false), Some(ExitReason::TrayExit));
    assert_eq!(exit_reason(false, true, false), Some(ExitReason::Signal));
    assert_eq!(exit_reason(false, false, false), Some(ExitReason::DaemonGone));
}

#[test]
fn provider_selection() {
    let mut config = Config::default();
    config.groq_api_key = "k".to_string();
    assert!(matches!(select_provider(&config, None), ProviderChoice::Local));
    config.provider = "groq".to_string();
    config.groq_language = "en".to_string();
    match select_provider(&config, None) {
        ProviderChoice::Groq(p) => {
            assert_eq!(p.request().bearer, "k");
            assert_eq!(p.request().model, "whisper-large-v3-turbo");
            assert_eq!(p.request().language.as_deref(), Some("en"));
        }
        _ => panic!("expected the Groq provider"),
    }
    // A blank key in the environment hides the configured one.
    assert!(matches!(
        select_provider(&config, Some(" ".to_string())),
        ProviderChoice::LocalInsteadOfGroq(_)
    ));
    assert!(matches!(select_provider(&config, Some("e".to_string())), ProviderChoice::Groq(_)));
    config.groq_api_key = String::new();
    assert!(matches!(select_provider(&config, None), ProviderChoice::LocalInsteadOfGroq(_)));
}

#[test]
fn model_search_order() {
    let chosen = |given: Option<&str>, configured: Option<(&str, bool)>, ready: bool| {
        choose_model(
            given.map(|p| p.to_string()),
            configured.map(|(p, r)| (p.to_string(), r)),
            ("/default".to_string(), ready),
        )
    };
    let source = chosen(Some("/given"), Some(("/configured", true)), true);
    assert!(matches!(&source, ModelSource::Override(p) if p == "/given"));
    assert!(!is_saved(&source));
    let source = chosen(None, Some(("/configured", true)), true);
    assert!(matches!(&source, ModelSource::Configured(p) if p == "/configured"));
    assert!(!is_saved(&source));
    for configured in [None, Some(("/configured", false)), Some(("/shandianshuo", true))] {
        let source = chosen(None, configured, true);
        assert!(matches!(&source, ModelSource::Installed(p) if p == "/default"));
        assert!(is_saved(&source));
        let source = chosen(None, configured, false);
        assert!(matches!(&source, ModelSource::Download(p) if p == "/default"));
        assert!(is_saved(&source));
    }
}

#[test]
fn a_saved_model_is_used_again() {
    let first = choose_model(None, None, ("/default".to_string(), false));
    let dir = match first {
        ModelSource::Download(dir) => dir,
        _ => panic!("expected a download"),
    };
    let next = choose_model(None, Some((dir, true)), ("/default".to_string(), true));
    assert!(matches!(&next, ModelSource::Configured(p) if p == "/default"));
}

#[test]
fn downloads() {
    let files = model_files();
    let names: Vec<(&str, &str)> = files.iter().map(|f| (f.remote, f.local)).collect();
    assert_eq!(
        names,
        vec![
            ("model_quant.onnx", "model.onnx"),
            ("am.mvn", "am.mvn"),
            ("tokens.json", "tokens.json"),
            ("config.yaml", "config.yaml"),
        ]
    );
    assert!(matches!(download_step(&files[0], true, false), DownloadStep::Skip));
    for (exists, force) in [(true, true), (false, true), (false, false)] {
        match download_step(&files[0], exists, force) {
            DownloadStep::Download(url) => assert_eq!(
                url,
                "https://huggingface.co/haixuantao/SenseVoiceSmall-onnx/resolve/main/model_quant.onnx"
            ),
            DownloadStep::Skip => panic!("expected a download"),
        }
    }
    assert_eq!(percent_done(0, 7), 0);
    assert_eq!(percent_done(1, 3), 33);
    assert_eq!(percent_done(9, 3), 300);
    assert_eq!(setup_target(None, "/d".to_string()), ("/d".to_string(), true));
    assert_eq!(
        setup_target(Some("/m".to_string()), "/d".to_string()),
        ("/m".to_string(), false)
    );
}

#[test]
fn preset_switches() {
    assert_eq!(after_switch(true, false), PresetPlan::UseInstalled);
    assert_eq!(after_switch(true, true), PresetPlan::RecheckInstalled);
    assert_eq!(after_switch(false, false), PresetPlan::Download);
    assert_eq!(after_switch(false, true), PresetPlan::Download);
    assert_eq!(shown_model_path(None), "(default directory)");
    assert_eq!(shown_model_path(Some("/m".to_string())), "/m");
}

#[test]
fn app_bundle_launches() {
    let bundle = "/Applications/Open Flow.app/Contents/MacOS/open-flow".to_string();
    assert!(is_app_bundle_launch(false, Some(bundle.clone())));
    assert!(!is_app_bundle_launch(true, Some(bundle)));
    assert!(!is_app_bundle_launch(false, Some("/usr/bin/open-flow".to_string())));
    assert!(!is_app_bundle_launch(false, None));
}
