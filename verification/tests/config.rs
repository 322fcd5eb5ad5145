use open_flow::common::config::{is_third_party_path, Config, ModelPreset};
use open_flow::common::config::{default_groq_model, default_hotkey, default_provider};
use open_flow::common::config::{
    default_trigger_mode, default_typing_chunk_size, default_typing_delay_ms,
};
use open_flow::common::paths::{config_path, default_model_dir, join_path, log_path, pid_path};
use open_flow::common::types::RecordingState;

#[test]
fn defaults() {
    let config = Config::default();
    assert_eq!(config.model_path, None);
    assert_eq!(config.model_preset, None);
    assert_eq!(config.provider, "local");
    assert_eq!(config.groq_api_key, "");
    assert_eq!(config.groq_model, "whisper-large-v3-turbo");
    assert_eq!(config.groq_language, "");
    assert_eq!(config.hotkey, "right_cmd");
    assert_eq!(config.trigger_mode, "toggle");
    assert_eq!(config.chinese_conversion, "");
    assert_eq!(config.typing_chunk_size, 8);
    assert_eq!(config.typing_delay_ms, 10);
    assert_eq!(default_provider(), "local");
    assert_eq!(default_groq_model(), "whisper-large-v3-turbo");
    assert_eq!(default_hotkey(), "right_cmd");
    assert_eq!(default_trigger_mode(), "toggle");
    assert_eq!(default_typing_chunk_size(), 8);
    assert_eq!(default_typing_delay_ms(), 10);
    assert!(!RecordingState::default().is_recording);
    assert_eq!(RecordingState::default().start_time, None);
}

#[test]
fn preset_names() {
    assert_eq!(ModelPreset::default(), ModelPreset::Quantized);
    assert_eq!(ModelPreset::Quantized.as_str(), "quantized");
    assert_eq!(ModelPreset::Fp16.as_str(), "fp16");
    for (name, preset) in [
        ("quantized", ModelPreset::Quantized),
        ("quant", ModelPreset::Quantized),
        (" QUANTIZED\n", ModelPreset::Quantized),
        ("fp16", ModelPreset::Fp16),
        ("FP16", ModelPreset::Fp16),
        ("\tMedium ", ModelPreset::Fp16),
    ] {
        assert_eq!(ModelPreset::from_str(name), Ok(preset));
        assert_eq!(name.parse::<ModelPreset>(), Ok(preset));
    }
    assert_eq!(
        ModelPreset::from_str(" Fp32 "),
        Err("Unknown preset: fp32. Options: quantized, fp16".to_string())
    );
    assert_eq!(
        ModelPreset::from_str("\u{c0}\u{3a3}"),
        Err("Unknown preset: \u{e0}\u{3c2}. Options: quantized, fp16".to_string())
    );
}

#[test]
fn presets_read_alike_in_lower_case() {
    for s in [" QUANT ", "Fp16", "no Such", "\u{c0}b "] {
        let lower = s.trim().to_lowercase();
        assert_eq!(ModelPreset::from_str(s), ModelPreset::from_str(&lower));
    }
}

#[test]
fn effective_preset() {
    let mut config = Config::default();
    assert_eq!(config.effective_preset(), ModelPreset::Quantized);
    config.model_preset = Some("unheard of".to_string());
    assert_eq!(config.effective_preset(), ModelPreset::Quantized);
    config.model_preset = Some(" MEDIUM ".to_string());
    assert_eq!(config.effective_preset(), ModelPreset::Fp16);
    for preset in [ModelPreset::Quantized, ModelPreset::Fp16] {
        config.set_model_preset(preset);
        assert_eq!(config.effective_preset(), preset);
        assert_eq!(config.model_preset.as_deref(), Some(preset.as_str()));
    }
}

#[test]
fn groq_key_from_the_environment_first() {
    let mut config = Config::default();
    config.groq_api_key = "configured".to_string();
    assert_eq!(config.resolved_groq_api_key(None), "configured");
    assert_eq!(config.resolved_groq_api_key(Some("env".to_string())), "env");
    assert_eq!(config.resolved_groq_api_key(Some(String::new())), "");
}

#[test]
fn loading_without_a_file_writes_the_defaults() {
    let loaded = Config::load(None);
    assert!(loaded.save);
    assert_eq!(loaded.config.hotkey, "right_cmd");
}

#[test]
fn loading_drops_foreign_and_empty_paths() {
    let stored = |path: &str| {
        let mut config = Config::default();
        config.hotkey = "fn".to_string();
        config.set_model_path(path.to_string());
        Config::load(Some(config))
    };
    for path in ["/x/Shandianshuo/models", "shandianshuo", "C:/a shandianshuo b"] {
        assert!(is_third_party_path(path));
        let loaded = stored(path);
        assert!(loaded.save);
        assert_eq!(loaded.config.model_path, None);
        assert_eq!(loaded.config.hotkey, "fn");
        let again = Config::load(Some(loaded.config));
        assert!(!again.save);
        assert_eq!(again.config.model_path, None);
    }
    let loaded = stored("");
    assert!(!loaded.save);
    assert_eq!(loaded.config.model_path, None);
    let loaded = stored("/models/SHANDIANSHUO");
    assert!(!loaded.save);
    assert_eq!(loaded.config.model_path.as_deref(), Some("/models/SHANDIANSHUO"));
}

#[test]
fn file_locations() {
    assert_eq!(join_path("", "a"), "a");
    assert_eq!(join_path("/", "a"), "/a");
    assert_eq!(join_path("/d", "a"), "/d/a");
    assert_eq!(join_path("/d/", "a"), "/d/a");
    assert_eq!(config_path("/etc/open-flow"), "/etc/open-flow/config.toml");
    assert_eq!(pid_path("/data"), "/data/daemon.pid");
    assert_eq!(log_path("/data"), "/data/daemon.log");
    assert_eq!(default_model_dir("/data"), "/data/models/sensevoice-small");
}
