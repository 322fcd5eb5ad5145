//! The settings window: what it shows.
use crate::common::config::Config;
use crate::text;
use vstd::prelude::*;

verus! {

/// The settings that the window shows.
pub struct SettingLabels {
    pub provider: String,
    pub hotkey: String,
    pub trigger: String,
    pub groq_model: String,
}

/// The settings as the window shows them.
pub fn setting_labels(config: &Config) -> (r: SettingLabels)
    ensures
        r.provider@ == "Provider: "@ + config@.provider,
        r.hotkey@ == "Hotkey: "@ + config@.hotkey,
        r.trigger@ == "Trigger: "@ + config@.trigger_mode,
        r.groq_model@ == "Groq Model: "@ + config@.groq_model,
{
    SettingLabels {
        provider: text::concat("Provider: ", config.provider.as_str()),
        hotkey: text::concat("Hotkey: ", config.hotkey.as_str()),
        trigger: text::concat("Trigger: ", config.trigger_mode.as_str()),
        groq_model: text::concat("Groq Model: ", config.groq_model.as_str()),
    }
}

/// The settings window.
pub struct SettingsWindow {
    visible: bool,
}

impl SettingsWindow {
    /// Whether the window was shown.
    pub closed spec fn shown(self) -> bool {
        self.visible
    }

    /// A window that is not shown yet.
    pub fn new() -> (r: SettingsWindow)
        ensures
            !r.shown(),
    {
        SettingsWindow { visible: false }
    }

    /// Shows the window, with the current settings.
    pub fn show(&mut self, config: &Config) -> (r: SettingLabels)
        ensures
            final(self).shown(),
            r.provider@ == "Provider: "@ + config@.provider,
            r.hotkey@ == "Hotkey: "@ + config@.hotkey,
            r.trigger@ == "Trigger: "@ + config@.trigger_mode,
            r.groq_model@ == "Groq Model: "@ + config@.groq_model,
    {
        self.visible = true;
        setting_labels(config)
    }

    /// Whether the window was shown.
    pub fn is_visible(&self) -> (r: bool)
        ensures
            r == self.shown(),
    {
        self.visible
    }
}

}
