//! The configuration: its values, defaults and rules.
use crate::text;
use vstd::prelude::*;
use vstd::string::StringExecFns;

verus! {

/// Model preset: only supports quantized (default) and fp16
#[derive(Debug, Clone, Copy, PartialEq, Eq, Structural)]
pub enum ModelPreset {
    /// Quantized version (~200MB), default
    Quantized,
    /// FP16 half-precision (~450MB), higher accuracy, requires manual switch
    Fp16,
}

impl Default for ModelPreset {
    fn default() -> (r: ModelPreset)
        ensures
            r == ModelPreset::Quantized,
    {
        ModelPreset::Quantized
    }
}

/// The name of a preset.
pub open spec fn preset_name(preset: ModelPreset) -> Seq<char> {
    match preset {
        ModelPreset::Quantized => "quantized"@,
        ModelPreset::Fp16 => "fp16"@,
    }
}

/// The preset that a name stands for, whatever its letter case and the
/// whitespace around it.
pub open spec fn preset_of(name: Seq<char>) -> Option<ModelPreset> {
    let s = text::lowercase(text::trimmed(name));
    if s == "quantized"@ || s == "quant"@ {
        Some(ModelPreset::Quantized)
    } else if s == "fp16"@ || s == "medium"@ {
        Some(ModelPreset::Fp16)
    } else {
        None
    }
}

impl ModelPreset {
    /// The name of the preset.
    pub fn as_str(&self) -> (r: &'static str)
        ensures
            r@ == preset_name(*self),
    {
        match self {
            ModelPreset::Quantized => "quantized",
            ModelPreset::Fp16 => "fp16",
        }
    }

    /// Reads a preset's name.
    pub fn from_str(s: &str) -> (r: Result<ModelPreset, String>)
        ensures
            match preset_of(s@) {
                Some(p) => r == Ok::<ModelPreset, String>(p),
                None => r matches Err(e) && e@ == "Unknown preset: "@ + text::lowercase(
                    text::trimmed(s@),
                ) + ". Options: quantized, fp16"@,
            },
    {
        let lower = text::to_lowercase(text::trim(s).as_str());
        let l = lower.as_str();
        if text::same_text(l, "quantized") || text::same_text(l, "quant") {
            Ok(ModelPreset::Quantized)
        } else if text::same_text(l, "fp16") || text::same_text(l, "medium") {
            Ok(ModelPreset::Fp16)
        } else {
            let mut message = text::concat("Unknown preset: ", l);
            message.append(". Options: quantized, fp16");
            Err(message)
        }
    }
}

impl std::str::FromStr for ModelPreset {
    type Err = String;

    fn from_str(s: &str) -> (r: Result<ModelPreset, String>)
        ensures
            match preset_of(s@) {
                Some(p) => r == Ok::<ModelPreset, String>(p),
                None => r matches Err(e) && e@ == "Unknown preset: "@ + text::lowercase(
                    text::trimmed(s@),
                ) + ". Options: quantized, fp16"@,
            },
    {
        ModelPreset::from_str(s)
    }
}

/// The settings of the program.
#[derive(Debug, Clone)]
pub struct Config {
    pub model_path: Option<String>,
    /// Model preset: quantized (default) | fp16
    pub model_preset: Option<String>,
    /// "local" or "groq"
    pub provider: String,
    /// Groq API key (env var GROQ_API_KEY takes precedence)
    pub groq_api_key: String,
    /// Groq Whisper model name
    pub groq_model: String,
    /// Optional language hint for Groq (e.g. "en", "zh"). Empty = auto-detect.
    pub groq_language: String,
    /// Hotkey identifier: "right_cmd", "fn", "f13", etc.
    pub hotkey: String,
    /// Trigger mode: "toggle" or "hold"
    pub trigger_mode: String,
    /// Chinese conversion: "none", "s2t" (simplified to traditional), "t2s"
    /// (traditional to simplified)
    pub chinese_conversion: String,
    /// Typing chunk size (UTF-16 chars per keystroke event). Smaller = more
    /// compatible. Default: 8
    pub typing_chunk_size: u32,
    /// Delay between typing chunks in ms. Larger = avoids double input. Default: 10
    pub typing_delay_ms: u32,
}

/// [`Config`] as a mathematical value.
#[verifier::ext_equal]
pub struct ConfigView {
    pub model_path: Option<Seq<char>>,
    pub model_preset: Option<Seq<char>>,
    pub provider: Seq<char>,
    pub groq_api_key: Seq<char>,
    pub groq_model: Seq<char>,
    pub groq_language: Seq<char>,
    pub hotkey: Seq<char>,
    pub trigger_mode: Seq<char>,
    pub chinese_conversion: Seq<char>,
    pub typing_chunk_size: u32,
    pub typing_delay_ms: u32,
}

impl View for Config {
    type V = ConfigView;

    open spec fn view(&self) -> ConfigView {
        ConfigView {
            model_path: text::opt_view(self.model_path),
            model_preset: text::opt_view(self.model_preset),
            provider: self.provider@,
            groq_api_key: self.groq_api_key@,
            groq_model: self.groq_model@,
            groq_language: self.groq_language@,
            hotkey: self.hotkey@,
            trigger_mode: self.trigger_mode@,
            chinese_conversion: self.chinese_conversion@,
            typing_chunk_size: self.typing_chunk_size,
            typing_delay_ms: self.typing_delay_ms,
        }
    }
}

/// The settings that hold where nothing else is configured.
pub open spec fn default_config() -> ConfigView {
    ConfigView {
        model_path: None,
        model_preset: None,
        provider: "local"@,
        groq_api_key: seq![],
        groq_model: "whisper-large-v3-turbo"@,
        groq_language: seq![],
        hotkey: "right_cmd"@,
        trigger_mode: "toggle"@,
        chinese_conversion: seq![],
        typing_chunk_size: 8,
        typing_delay_ms: 10,
    }
}

/// The typing chunk size where none is configured.
pub fn default_typing_chunk_size() -> (r: u32)
    ensures
        r == default_config().typing_chunk_size,
{
    8
}

/// The typing delay where none is configured.
pub fn default_typing_delay_ms() -> (r: u32)
    ensures
        r == default_config().typing_delay_ms,
{
    10
}

/// The provider where none is configured.
pub fn default_provider() -> (r: String)
    ensures
        r@ == default_config().provider,
{
    "local".to_owned()
}

/// The Groq model where none is configured.
pub fn default_groq_model() -> (r: String)
    ensures
        r@ == default_config().groq_model,
{
    "whisper-large-v3-turbo".to_owned()
}

/// The hotkey where none is configured.
pub fn default_hotkey() -> (r: String)
    ensures
        r@ == default_config().hotkey,
{
    "right_cmd".to_owned()
}

/// The trigger mode where none is configured.
pub fn default_trigger_mode() -> (r: String)
    ensures
        r@ == default_config().trigger_mode,
{
    "toggle".to_owned()
}

impl Default for Config {
    fn default() -> (r: Config)
        ensures
            r@ == default_config(),
    {
        Config {
            model_path: None,
            model_preset: None,
            provider: default_provider(),
            groq_api_key: String::new(),
            groq_model: default_groq_model(),
            groq_language: String::new(),
            hotkey: default_hotkey(),
            trigger_mode: default_trigger_mode(),
            chinese_conversion: String::new(),
            typing_chunk_size: default_typing_chunk_size(),
            typing_delay_ms: default_typing_delay_ms(),
        }
    }
}

/// The preset in effect: the configured one, or quantized where none is
/// configured or its name is unknown.
pub open spec fn effective_preset_of(c: ConfigView) -> ModelPreset {
    match c.model_preset {
        Some(s) => match preset_of(text::lowercase(text::trimmed(s))) {
            Some(p) => p,
            None => ModelPreset::Quantized,
        },
        None => ModelPreset::Quantized,
    }
}

/// Whether a model path belongs to the Shandianshuo program, whose models are
/// not to be used.
pub open spec fn third_party_path(path: Seq<char>) -> bool {
    text::has_text(path, "Shandianshuo"@) || text::has_text(path, "shandianshuo"@)
}

/// Whether a model path belongs to another program.
pub fn is_third_party_path(path: &str) -> (r: bool)
    ensures
        r == third_party_path(path@),
{
    text::contains(path, "Shandianshuo") || text::contains(path, "shandianshuo")
}

/// The settings that a configuration file gives: its own, without a model path
/// that is empty or belongs to another program.
pub open spec fn migrated(c: ConfigView) -> ConfigView {
    match c.model_path {
        Some(p) => if third_party_path(p) || p.len() == 0 {
            ConfigView { model_path: None, ..c }
        } else {
            c
        },
        None => c,
    }
}

/// Whether the configuration file has to be written again after it was read.
pub open spec fn needs_save(c: ConfigView) -> bool {
    match c.model_path {
        Some(p) => third_party_path(p),
        None => false,
    }
}

/// A configuration, and whether it is to be written to the file.
pub struct LoadedConfig {
    pub config: Config,
    pub save: bool,
}

impl Config {
    /// Currently effective model preset (defaults to quantized if not set in
    /// the configuration)
    pub fn effective_preset(&self) -> (r: ModelPreset)
        ensures
            r == effective_preset_of(self@),
    {
        match &self.model_preset {
            Some(s) => {
                let lower = text::to_lowercase(text::trim(s.as_str()).as_str());
                match ModelPreset::from_str(lower.as_str()) {
                    Ok(p) => p,
                    Err(_) => ModelPreset::Quantized,
                }
            },
            None => ModelPreset::Quantized,
        }
    }

    /// The Groq API key: the value of the environment variable GROQ_API_KEY,
    /// where it is set, takes precedence over the configured one.
    pub fn resolved_groq_api_key(&self, env_key: Option<String>) -> (r: String)
        ensures
            r@ == (match env_key {
                Some(k) => k@,
                None => self@.groq_api_key,
            }),
    {
        match env_key {
            Some(k) => k,
            None => self.groq_api_key.clone(),
        }
    }

    /// The configuration that the file gives. `stored` is what the file holds,
    /// or `None` where there is no file: that gives the defaults, which are
    /// written out.
    pub fn load(stored: Option<Config>) -> (r: LoadedConfig)
        ensures
            match stored {
                Some(c) => r.config@ == migrated(c@) && r.save == needs_save(c@),
                None => r.config@ == default_config() && r.save,
            },
    {
        match stored {
            Some(c) => {
                let mut config = c;
                let mut save: bool = false;
                let mut drop_path: bool = false;
                if let Some(p) = &config.model_path {
                    if is_third_party_path(p.as_str()) {
                        drop_path = true;
                        save = true;
                    } else if p.as_str().is_empty() {
                        drop_path = true;
                    }
                }
                if drop_path {
                    config.model_path = None;
                }
                LoadedConfig { config, save }
            },
            None => LoadedConfig { config: Config::default(), save: true },
        }
    }

    /// Sets the model preset.
    pub fn set_model_preset(&mut self, preset: ModelPreset)
        ensures
            final(self)@ == (ConfigView { model_preset: Some(preset_name(preset)), ..old(self)@ }),
    {
        self.model_preset = Some(preset.as_str().to_owned());
    }

    /// Sets the model path.
    pub fn set_model_path(&mut self, path: String)
        ensures
            final(self)@ == (ConfigView { model_path: Some(path@), ..old(self)@ }),
    {
        self.model_path = Some(path);
    }
}

// ── Laws ─────────────────────────────────────────────────────────────────────

/// The name of a preset stands for that preset.
pub proof fn law_preset_name_round_trip(preset: ModelPreset)
    ensures
        preset_of(preset_name(preset)) == Some(preset),
        text::lowercase(text::trimmed(preset_name(preset))) == preset_name(preset),
{
    reveal_strlit("quantized");
    reveal_strlit("fp16");
    reveal_strlit("quant");
    let name = preset_name(preset);
    assert(text::trimmed(name) == name);
    assert(text::lowercase(name) =~= name);
    if preset == ModelPreset::Fp16 {
        assert("fp16"@.len() == 4 && "quantized"@.len() == 9 && "quant"@.len() == 5);
    }
}

/// A text and its trimmed form in lower case read as the same preset, and an
/// unknown one is reported in the same words. Of text that is not all ASCII this
/// is said only where it names a preset.
pub proof fn law_preset_reads_alike_in_lower_case(s: Seq<char>)
    ensures
        ({
            let t = text::lowercase(text::trimmed(s));
            &&& vstd::utf8::is_ascii_chars(s) ==> {
                &&& preset_of(t) == preset_of(s)
                &&& text::lowercase(text::trimmed(t)) == t
            }
            &&& preset_of(s) is Some ==> preset_of(t) == preset_of(s)
        }),
{
    let t = text::lowercase(text::trimmed(s));
    if vstd::utf8::is_ascii_chars(s) {
        text::law_trimmed_lowercase_is_final(s);
    }
    if preset_of(s) is Some {
        reveal_strlit("quantized");
        reveal_strlit("quant");
        reveal_strlit("fp16");
        reveal_strlit("medium");
        assert(text::trimmed(t) == t);
        assert(text::lowercase(t) =~= t);
    }
}

/// A preset that was set is the one in effect.
pub proof fn law_set_preset_is_effective(c: ConfigView, preset: ModelPreset)
    ensures
        effective_preset_of(ConfigView { model_preset: Some(preset_name(preset)), ..c }) == preset,
{
    law_preset_name_round_trip(preset);
}

/// Without a configured preset, the quantized model is used.
pub proof fn law_default_preset_is_quantized()
    ensures
        effective_preset_of(default_config()) == ModelPreset::Quantized,
{
}

/// A loaded configuration names no empty model path and none of another
/// program; loading it once more changes nothing and asks for no write.
pub proof fn law_migration_is_final(c: ConfigView)
    ensures
        ({
            let m = migrated(c);
            &&& m.model_path matches Some(p) ==> p.len() > 0 && !third_party_path(p)
            &&& migrated(m) == m
            &&& !needs_save(m)
        }),
{
}

/// A model path that was set is still there after a reload, unless it is empty
/// or belongs to another program.
pub proof fn law_own_model_path_is_kept(c: ConfigView, path: Seq<char>)
    requires
        path.len() > 0,
        !third_party_path(path),
    ensures
        ({
            let set = ConfigView { model_path: Some(path), ..c };
            migrated(set) == set && !needs_save(set)
        }),
{
}

/// A configuration's settings are read as they are.
pub proof fn law_settings_are_the_configured_ones(c: Config)
    ensures
        c@.model_path == text::opt_view(c.model_path),
        c@.model_preset == text::opt_view(c.model_preset),
        c@.provider == c.provider@,
        c@.groq_api_key == c.groq_api_key@,
        c@.groq_model == c.groq_model@,
        c@.groq_language == c.groq_language@,
        c@.hotkey == c.hotkey@,
        c@.trigger_mode == c.trigger_mode@,
        c@.chinese_conversion == c.chinese_conversion@,
        c@.typing_chunk_size == c.typing_chunk_size,
        c@.typing_delay_ms == c.typing_delay_ms,
{
}

/// The settings that hold where nothing is configured, one by one.
pub proof fn law_default_settings()
    ensures
        default_config().model_path is None,
        default_config().model_preset is None,
        default_config().provider == "local"@,
        default_config().groq_api_key.len() == 0,
        default_config().groq_model == "whisper-large-v3-turbo"@,
        default_config().groq_language.len() == 0,
        default_config().hotkey == "right_cmd"@,
        default_config().trigger_mode == "toggle"@,
        default_config().chinese_conversion.len() == 0,
        default_config().typing_chunk_size == 8,
        default_config().typing_delay_ms == 10,
{
}

/// The four names of presets are told apart by their lengths.
proof fn lemma_preset_names_differ()
    ensures
        "quantized"@.len() == 9,
        "quant"@.len() == 5,
        "fp16"@.len() == 4,
        "medium"@.len() == 6,
{
    reveal_strlit("quantized");
    reveal_strlit("quant");
    reveal_strlit("fp16");
    reveal_strlit("medium");
}

/// Just four names stand for presets, two for each, once whitespace around them
/// is cut off and they are put in lower case; each preset goes by its name.
pub proof fn law_names_of_presets(name: Seq<char>)
    ensures
        ({
            let plain = text::lowercase(text::trimmed(name));
            &&& preset_of(name) == Some(ModelPreset::Quantized) <==> plain == "quantized"@ || plain
                == "quant"@
            &&& preset_of(name) == Some(ModelPreset::Fp16) <==> plain == "fp16"@ || plain
                == "medium"@
        }),
        preset_name(ModelPreset::Quantized) == "quantized"@,
        preset_name(ModelPreset::Fp16) == "fp16"@,
{
    lemma_preset_names_differ();
}

/// A preset's name is read in any letter case and with any whitespace around it.
pub proof fn law_preset_names_in_any_form(
    before: Seq<char>,
    written: Seq<char>,
    after: Seq<char>,
    name: Seq<char>,
)
    requires
        forall|i: int| 0 <= i < before.len() ==> text::is_white(#[trigger] before[i]),
        forall|i: int| 0 <= i < after.len() ==> text::is_white(#[trigger] after[i]),
        name == "quantized"@ || name == "quant"@ || name == "fp16"@ || name == "medium"@,
        written.len() == name.len(),
        forall|i: int|
            0 <= i < name.len() ==> #[trigger] written[i] == name[i] || (65 <= written[i] as int
                <= 90 && written[i] as int + 32 == name[i] as int),
    ensures
        name == "quantized"@ || name == "quant"@ ==> preset_of(before + written + after) == Some(
            ModelPreset::Quantized,
        ),
        name == "fp16"@ || name == "medium"@ ==> preset_of(before + written + after) == Some(
            ModelPreset::Fp16,
        ),
{
    lemma_preset_names_differ();
    reveal_strlit("quantized");
    reveal_strlit("quant");
    reveal_strlit("fp16");
    reveal_strlit("medium");
    assert forall|i: int| 0 <= i < name.len() implies 48 <= (#[trigger] name[i]) as int <= 122
        && !(65 <= name[i] as int <= 90) by {}
    assert forall|i: int| 0 <= i < written.len() implies 48 <= (#[trigger] written[i]) as int
        <= 122 by {
        assert(48 <= name[i] as int <= 122);
    }
    assert(48 <= written[0] as int <= 122);
    assert(48 <= written[written.len() - 1] as int <= 122);
    text::law_padding_is_trimmed(before, written, after);
    text::law_lower_case_of_ascii(written);
    let lower = text::lowercase(written);
    assert forall|i: int| 0 <= i < lower.len() implies #[trigger] lower[i] == name[i] by {
        assert(written[i] == name[i] || written[i] as int + 32 == name[i] as int);
        assert(!(65 <= name[i] as int <= 90));
    }
    assert(lower =~= name);
}

/// The preset in effect is the one that is named, as far as the name is ASCII;
/// where none is named, or the name is unknown, it is the quantized one.
pub proof fn law_effective_preset_is_the_named_one(c: ConfigView)
    ensures
        c.model_preset is None ==> effective_preset_of(c) == ModelPreset::Quantized,
        c.model_preset matches Some(s) ==> {
            &&& preset_of(s) matches Some(p) ==> effective_preset_of(c) == p
            &&& vstd::utf8::is_ascii_chars(s) && preset_of(s) is None ==> effective_preset_of(c)
                == ModelPreset::Quantized
        },
{
    if let Some(s) = c.model_preset {
        law_preset_reads_alike_in_lower_case(s);
    }
}

/// A path belongs to another program wherever in it that program's name stands,
/// with a capital or without, and only then.
pub proof fn law_paths_of_another_program(before: Seq<char>, after: Seq<char>, path: Seq<char>)
    ensures
        third_party_path(before + "Shandianshuo"@ + after),
        third_party_path(before + "shandianshuo"@ + after),
        third_party_path(path) ==> {
            ||| exists|a: Seq<char>, b: Seq<char>| path == #[trigger] (a + "Shandianshuo"@ + b)
            ||| exists|a: Seq<char>, b: Seq<char>| path == #[trigger] (a + "shandianshuo"@ + b)
        },
{
    text::law_text_is_found(before, "Shandianshuo"@, after);
    text::law_text_is_found(before, "shandianshuo"@, after);
    if text::has_text(path, "Shandianshuo"@) {
        text::law_found_text_is_there(path, "Shandianshuo"@);
    }
    if text::has_text(path, "shandianshuo"@) {
        text::law_found_text_is_there(path, "shandianshuo"@);
    }
}

/// Reading a configuration changes nothing in it but a model path that is empty
/// or belongs to another program, which is dropped; it is written again only for
/// the latter.
pub proof fn law_reading_drops_only_foreign_paths(c: ConfigView)
    ensures
        migrated(c) == (ConfigView { model_path: migrated(c).model_path, ..c }),
        c.model_path is None ==> migrated(c).model_path is None && !needs_save(c),
        c.model_path matches Some(p) ==> {
            &&& migrated(c).model_path is None <==> p.len() == 0 || text::has_text(
                p,
                "Shandianshuo"@,
            ) || text::has_text(p, "shandianshuo"@)
            &&& migrated(c).model_path is Some ==> migrated(c).model_path == Some(p)
            &&& needs_save(c) <==> text::has_text(p, "Shandianshuo"@) || text::has_text(
                p,
                "shandianshuo"@,
            )
        },
{
}

}
