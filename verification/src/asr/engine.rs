//! The local recogniser: its files, parameters and results.
use crate::asr::audio_file;
use crate::asr::audio_file::AudioData;
use crate::asr::decoder::CTCDecoder;
use crate::asr::logits::Logits;
use crate::asr::wav::WavError;
use crate::common::types::TranscriptionResult;
use crate::number;
use crate::text;
use vstd::prelude::*;
use vstd::string::StringExecFns;

verus! {

/// What was found in a model directory.
#[derive(Debug, Clone, Copy, PartialEq, Eq)]
pub struct ModelFiles {
    /// The path exists.
    pub exists: bool,
    /// It is a directory.
    pub is_dir: bool,
    /// It holds `model.onnx`.
    pub model_onnx: bool,
    /// It holds `model_quant.onnx`.
    pub model_quant_onnx: bool,
    /// It holds `tokens.json`.
    pub tokens: bool,
    /// It holds `am.mvn`.
    pub cmvn: bool,
}

/// The model file to use: `model.onnx` if it is there, else `model_quant.onnx`.
pub open spec fn model_file(files: ModelFiles) -> Option<Seq<char>> {
    if files.model_onnx {
        Some("model.onnx"@)
    } else if files.model_quant_onnx {
        Some("model_quant.onnx"@)
    } else {
        None
    }
}

/// The name of the model file to use.
pub fn find_model_file(files: &ModelFiles) -> (r: Option<&'static str>)
    ensures
        match r {
            Some(name) => model_file(*files) == Some(name@),
            None => model_file(*files) is None,
        },
{
    if files.model_onnx {
        Some("model.onnx")
    } else if files.model_quant_onnx {
        Some("model_quant.onnx")
    } else {
        None
    }
}

/// Whether a directory holds a usable model: it is a directory with a model file
/// and a tokens file.
pub open spec fn ready_model(files: ModelFiles) -> bool {
    files.is_dir && (files.model_onnx || files.model_quant_onnx) && files.tokens
}

/// Whether a directory holds a usable model.
pub fn model_is_ready(files: &ModelFiles) -> (r: bool)
    ensures
        r == ready_model(*files),
{
    if !files.is_dir {
        return false;
    }
    let has_model = files.model_onnx || files.model_quant_onnx;
    has_model && files.tokens
}

/// Which files of a model directory are loaded.
#[derive(Debug, Clone, Copy, PartialEq, Eq)]
pub struct LoadPlan {
    pub model: &'static str,
    /// The normalisation file is there too. Without it, recognition is less
    /// accurate.
    pub cmvn: bool,
}

/// Why a model cannot be loaded.
#[derive(Debug, Clone, Copy, PartialEq, Eq, Structural)]
pub enum LoadError {
    ModelFileNotFound,
    TokensFileNotFound,
}

/// Which files to load from a model directory.
pub fn plan_load(files: &ModelFiles) -> (r: Result<LoadPlan, LoadError>)
    ensures
        match r {
            Ok(plan) => {
                &&& model_file(*files) == Some(plan.model@)
                &&& files.tokens
                &&& plan.cmvn == files.cmvn
            },
            Err(LoadError::ModelFileNotFound) => model_file(*files) is None,
            Err(LoadError::TokensFileNotFound) => model_file(*files) is Some && !files.tokens,
        },
{
    match find_model_file(files) {
        Some(model) => if files.tokens {
            Ok(LoadPlan { model, cmvn: files.cmvn })
        } else {
            Err(LoadError::TokensFileNotFound)
        },
        None => Err(LoadError::ModelFileNotFound),
    }
}

/// The recogniser's id of a language; 0 stands for automatic detection.
pub open spec fn language_id(language: Seq<char>) -> i32 {
    if language == "zh"@ || language == "zh-cn"@ || language == "cn"@ {
        3
    } else if language == "en"@ {
        4
    } else if language == "yue"@ {
        5
    } else if language == "ja"@ {
        6
    } else if language == "ko"@ {
        7
    } else if language == "nospeech"@ {
        8
    } else {
        0
    }
}

/// The number that an environment variable holds, where it is set and holds one.
pub open spec fn env_number(value: Option<Seq<char>>) -> Option<i32> {
    match value {
        Some(v) => number::i32_of(v),
        None => None,
    }
}

/// The language id to use: the one that the variable OPEN_FLOW_LANG_ID holds, or
/// else that of the language asked for.
pub open spec fn resolved_language(language: Option<Seq<char>>, env: Option<Seq<char>>) -> i32 {
    match env_number(env) {
        Some(id) => id,
        None => match language {
            Some(l) => language_id(l),
            None => language_id("auto"@),
        },
    }
}

/// The language id for live dictation: Chinese, unless OPEN_FLOW_LANG_ID is set.
pub open spec fn live_language(env: Option<Seq<char>>) -> i32 {
    match env {
        Some(_) => resolved_language(Some("auto"@), env),
        None => resolved_language(Some("zh"@), None),
    }
}

/// The text normalisation id to use: the one that the variable
/// OPEN_FLOW_TEXTNORM_ID holds, or else 0, no inverse text normalisation.
pub open spec fn resolved_textnorm(env: Option<Seq<char>>) -> i32 {
    match env_number(env) {
        Some(id) => id,
        None => 0,
    }
}

/// What the recogniser is told besides the features.
#[derive(Debug, Clone, Copy, PartialEq, Eq, Structural)]
pub struct InferenceParams {
    pub language_id: i32,
    pub textnorm_id: i32,
}

/// Whether the variable OPEN_FLOW_BEST_NON_BLANK asks for the best class other
/// than the blank in each frame.
pub fn best_non_blank_requested(env: Option<&str>) -> (r: bool)
    ensures
        r == (text::str_view(env) == Some("1"@)),
{
    match env {
        Some(v) => text::same_text(v, "1"),
        None => false,
    }
}

/// ASR status
#[derive(Debug, Clone)]
pub struct AsrStatus {
    pub model_path: String,
    pub model_exists: bool,
    pub onnx_exists: bool,
    pub tokens_exists: bool,
    pub ready: bool,
}

/// What an audio file leads to.
pub enum FileTranscription {
    /// The engine is not ready: the mock transcription.
    Mock(TranscriptionResult),
    /// The recording, to be mixed down and recognised.
    Recognise(AudioData),
}

/// Why an audio file cannot be transcribed.
#[derive(Debug)]
pub enum FileError {
    NotFound,
    Unreadable,
    NotAudio(WavError),
}

/// The transcription that stands in for one where the engine is not ready.
pub open spec fn is_mock(t: TranscriptionResult) -> bool {
    &&& t.text@ == "[mock] Hello, this is a test."@
    &&& t.confidence_percent == 95
    &&& text::opt_view(t.language) == Some("zh"@)
    &&& t.duration_ms == 500
}

/// The local recogniser. It is ready once its decoder is there; the decoder is
/// loaded last.
pub struct AsrEngine {
    model_path: String,
    decoder: Option<CTCDecoder>,
}

impl AsrEngine {
    /// The model's directory.
    pub closed spec fn path(self) -> Seq<char> {
        self.model_path@
    }

    /// The loaded decoder.
    pub closed spec fn loaded_decoder(self) -> Option<CTCDecoder> {
        self.decoder
    }

    /// Whether everything is loaded.
    pub open spec fn ready(self) -> bool {
        self.loaded_decoder() is Some
    }

    /// The language id to use.
    pub fn resolve_language_id(language: Option<&str>, env: Option<&str>) -> (r: i32)
        ensures
            r == resolved_language(text::str_view(language), text::str_view(env)),
    {
        if let Some(v) = env {
            if let Some(parsed) = number::parse_i32(v) {
                return parsed;
            }
        }
        let l: &str = match language {
            Some(l) => l,
            None => "auto",
        };
        if text::same_text(l, "zh") || text::same_text(l, "zh-cn") || text::same_text(l, "cn") {
            3
        } else if text::same_text(l, "en") {
            4
        } else if text::same_text(l, "yue") {
            5
        } else if text::same_text(l, "ja") {
            6
        } else if text::same_text(l, "ko") {
            7
        } else if text::same_text(l, "nospeech") {
            8
        } else {
            0
        }
    }

    /// The text normalisation id to use.
    pub fn resolve_textnorm_id(env: Option<&str>) -> (r: i32)
        ensures
            r == resolved_textnorm(text::str_view(env)),
    {
        if let Some(v) = env {
            if let Some(parsed) = number::parse_i32(v) {
                return parsed;
            }
        }
        0
    }

    /// The language id for live dictation.
    pub fn resolve_live_language_id(env: Option<&str>) -> (r: i32)
        ensures
            r == live_language(text::str_view(env)),
    {
        if env.is_some() {
            return AsrEngine::resolve_language_id(Some("auto"), env);
        }
        AsrEngine::resolve_language_id(Some("zh"), None)
    }

    /// What the recogniser is told for live dictation.
    pub fn live_params(lang_env: Option<&str>, textnorm_env: Option<&str>) -> (r: InferenceParams)
        ensures
            r.language_id == live_language(text::str_view(lang_env)),
            r.textnorm_id == resolved_textnorm(text::str_view(textnorm_env)),
    {
        InferenceParams {
            language_id: AsrEngine::resolve_live_language_id(lang_env),
            textnorm_id: AsrEngine::resolve_textnorm_id(textnorm_env),
        }
    }

    /// An engine with nothing loaded.
    pub fn new(model_path: String) -> (r: AsrEngine)
        ensures
            r.path() == model_path@,
            !r.ready(),
    {
        AsrEngine { model_path, decoder: None }
    }

    /// Takes the decoder, which completes the loading.
    pub fn complete_load(&mut self, decoder: CTCDecoder)
        ensures
            final(self).path() == old(self).path(),
            final(self).loaded_decoder() == Some(decoder),
    {
        self.decoder = Some(decoder);
    }

    /// Whether everything is loaded.
    pub fn is_ready(&self) -> (r: bool)
        ensures
            r == self.ready(),
    {
        self.decoder.is_some()
    }

    /// The loaded decoder.
    pub fn decoder_ref(&self) -> (r: Option<&CTCDecoder>)
        ensures
            match r {
                Some(d) => self.loaded_decoder() == Some(*d),
                None => self.loaded_decoder() is None,
            },
    {
        match &self.decoder {
            Some(d) => Some(d),
            None => None,
        }
    }

    /// The result of a transcription: the text that the recogniser's output
    /// decodes to, or, where the engine is not ready and was not run, the mock
    /// transcription. `elapsed` gives how long the transcription has taken, in
    /// milliseconds; it is called once the text is there.
    pub fn transcribe_pcm<F: FnOnce() -> u64>(
        &self,
        logits: &Logits,
        best_non_blank: bool,
        elapsed: F,
    ) -> (r: TranscriptionResult)
        requires
            logits.wf(),
            elapsed.requires(()),
        ensures
            r.confidence_percent == 95,
            text::opt_view(r.language) == Some("zh"@),
            match self.loaded_decoder() {
                Some(d) => {
                    &&& r.text@ == d.decoded(logits.frames(), best_non_blank)
                    &&& elapsed.ensures((), r.duration_ms)
                },
                None => is_mock(r),
            },
    {
        match &self.decoder {
            Some(d) => {
                let text = d.decode(logits, best_non_blank);
                let duration_ms: u64 = elapsed();
                TranscriptionResult {
                    text,
                    confidence_percent: 95,
                    language: Some("zh".to_owned()),
                    duration_ms,
                }
            },
            None => AsrEngine::mock_transcribe(),
        }
    }

    /// Transcribes an audio file as far as the recording in it; where the engine
    /// is not ready, the file is not read. `read` gives the file's bytes, or
    /// `None` where they cannot be read.
    pub fn transcribe<F: FnOnce() -> Option<Vec<u8>>>(&self, found: bool, read: F) -> (r: Result<
        FileTranscription,
        FileError,
    >)
        requires
            read.requires(()),
        ensures
            match r {
                Ok(FileTranscription::Mock(t)) => found && !self.ready() && is_mock(t),
                Ok(FileTranscription::Recognise(a)) => {
                    &&& found && self.ready()
                    &&& exists|bytes: Vec<u8>| #[trigger]
                        read.ensures((), Some(bytes)) && audio_file::holds(bytes@, a@)
                },
                Err(FileError::NotFound) => !found,
                Err(FileError::Unreadable) => found && self.ready() && read.ensures((), None),
                Err(FileError::NotAudio(e)) => {
                    &&& found && self.ready() && e is Read
                    &&& exists|bytes: Vec<u8>| #[trigger]
                        read.ensures((), Some(bytes)) && audio_file::wav_file(bytes@) is None
                },
            },
    {
        if !found {
            return Err(FileError::NotFound);
        }
        if !self.is_ready() {
            return Ok(FileTranscription::Mock(AsrEngine::mock_transcribe()));
        }
        match read() {
            None => Err(FileError::Unreadable),
            Some(bytes) => match audio_file::load_audio(&bytes) {
                Ok(audio) => Ok(FileTranscription::Recognise(audio)),
                Err(e) => Err(FileError::NotAudio(e)),
            },
        }
    }

    /// Mock transcription (used when model is not ready)
    pub fn mock_transcribe() -> (r: TranscriptionResult)
        ensures
            is_mock(r),
    {
        TranscriptionResult {
            text: "[mock] Hello, this is a test.".to_owned(),
            confidence_percent: 95,
            language: Some("zh".to_owned()),
            duration_ms: 500,
        }
    }

    /// Check ASR engine status
    pub fn check_status(&self, files: &ModelFiles) -> (r: AsrStatus)
        ensures
            r.model_path@ == self.path(),
            r.model_exists == files.exists,
            r.onnx_exists == (model_file(*files) is Some),
            r.tokens_exists == files.tokens,
            r.ready == self.ready(),
    {
        AsrStatus {
            model_path: self.model_path.clone(),
            model_exists: files.exists,
            onnx_exists: find_model_file(files).is_some(),
            tokens_exists: files.tokens,
            ready: self.is_ready(),
        }
    }
}

/// A truth value as text.
pub open spec fn bool_text(b: bool) -> Seq<char> {
    if b {
        "true"@
    } else {
        "false"@
    }
}

/// A truth value as text.
fn bool_str(b: bool) -> (r: &'static str)
    ensures
        r@ == bool_text(b),
{
    if b {
        "true"
    } else {
        "false"
    }
}

/// Local ASR provider.
pub struct LocalAsrProvider;

impl LocalAsrProvider {
    /// Whether the provider is ready, in words. `shown_path` is the model's path
    /// as it is to be shown.
    pub fn check_status(status: &AsrStatus, shown_path: &str) -> (r: Result<String, String>)
        ensures
            match r {
                Ok(s) => status.ready && s@ == "ready"@,
                Err(e) => {
                    &&& !status.ready
                    &&& e@ == "Model not ready: "@ + shown_path@ + " (onnx="@ + bool_text(
                        status.onnx_exists,
                    ) + ", model="@ + bool_text(status.model_exists) + ")"@
                },
            },
    {
        if status.ready {
            Ok("ready".to_owned())
        } else {
            let mut e = text::concat("Model not ready: ", shown_path);
            e.append(" (onnx=");
            e.append(bool_str(status.onnx_exists));
            e.append(", model=");
            e.append(bool_str(status.model_exists));
            e.append(")");
            Err(e)
        }
    }

    /// The provider's name.
    pub fn name() -> (r: &'static str)
        ensures
            r@ == "local (SenseVoice)"@,
    {
        "local (SenseVoice)"
    }
}

// ── Laws ─────────────────────────────────────────────────────────────────────

/// A set variable decides, whatever language was asked for.
pub proof fn law_language_variable_wins(language: Option<Seq<char>>, env: Seq<char>, id: i32)
    requires
        number::i32_of(env) == Some(id),
    ensures
        resolved_language(language, Some(env)) == id,
        live_language(Some(env)) == id,
{
}

/// Live dictation is in Chinese where the variable is not set; a variable that
/// holds no number gives automatic detection.
pub proof fn law_live_language_defaults(env: Seq<char>)
    requires
        number::i32_of(env) is None,
    ensures
        live_language(None) == 3,
        live_language(Some(env)) == 0,
{
    reveal_strlit("auto");
    reveal_strlit("zh");
    reveal_strlit("zh-cn");
    reveal_strlit("cn");
    reveal_strlit("en");
    reveal_strlit("yue");
    reveal_strlit("ja");
    reveal_strlit("ko");
    reveal_strlit("nospeech");
    assert("auto"@.len() == 4);
}

/// A directory that holds a usable model can be loaded from.
pub proof fn law_ready_model_has_a_model_file(files: ModelFiles)
    requires
        ready_model(files),
    ensures
        model_file(files) is Some,
        files.tokens,
{
}

/// The model file is the plain one where it is there, and else the quantized
/// one; a directory with either and a tokens file holds a usable model, and no
/// other does.
pub proof fn law_files_of_a_usable_model(files: ModelFiles)
    ensures
        model_file(files) == Some("model.onnx"@) <==> files.model_onnx,
        model_file(files) == Some("model_quant.onnx"@) <==> !files.model_onnx
            && files.model_quant_onnx,
        model_file(files) is None <==> !files.model_onnx && !files.model_quant_onnx,
        ready_model(files) <==> files.is_dir && files.tokens && model_file(files) is Some,
{
    reveal_strlit("model.onnx");
    reveal_strlit("model_quant.onnx");
    assert("model.onnx"@.len() == 10 && "model_quant.onnx"@.len() == 16);
}

/// The languages that have an id, and their ids; every other name stands for
/// automatic detection.
pub proof fn law_ids_of_languages(l: Seq<char>)
    ensures
        language_id(l) == 3 <==> l == "zh"@ || l == "zh-cn"@ || l == "cn"@,
        language_id(l) == 4 <==> l == "en"@,
        language_id(l) == 5 <==> l == "yue"@,
        language_id(l) == 6 <==> l == "ja"@,
        language_id(l) == 7 <==> l == "ko"@,
        language_id(l) == 8 <==> l == "nospeech"@,
        language_id(l) == 0 || 3 <= language_id(l) <= 8,
{
    reveal_strlit("zh");
    reveal_strlit("zh-cn");
    reveal_strlit("cn");
    reveal_strlit("en");
    reveal_strlit("yue");
    reveal_strlit("ja");
    reveal_strlit("ko");
    reveal_strlit("nospeech");
    assert("zh"@[0] == 'z' && "zh-cn"@[0] == 'z' && "cn"@[0] == 'c' && "en"@[0] == 'e');
    assert("yue"@[0] == 'y' && "ja"@[0] == 'j' && "ko"@[0] == 'k' && "nospeech"@[0] == 'n');
}

/// Where the variable is not set, or holds no number, the language that is asked
/// for decides, and without one the language is detected.
pub proof fn law_asked_language_decides(language: Seq<char>, env: Option<Seq<char>>)
    requires
        env matches Some(v) ==> number::i32_of(v) is None,
    ensures
        env_number(env) is None,
        resolved_language(Some(language), env) == language_id(language),
        resolved_language(None, env) == 0,
        resolved_textnorm(env) == 0,
{
    law_ids_of_languages("auto"@);
    reveal_strlit("auto");
    reveal_strlit("zh");
    reveal_strlit("zh-cn");
    reveal_strlit("cn");
    reveal_strlit("en");
    reveal_strlit("yue");
    reveal_strlit("ja");
    reveal_strlit("ko");
    reveal_strlit("nospeech");
    assert("auto"@[0] == 'a');
    assert("zh"@[0] == 'z' && "zh-cn"@[0] == 'z' && "cn"@[0] == 'c' && "en"@[0] == 'e');
    assert("yue"@[0] == 'y' && "ja"@[0] == 'j' && "ko"@[0] == 'k' && "nospeech"@[0] == 'n');
}

/// The text normalisation is the one that its variable holds.
pub proof fn law_textnorm_variable_decides(env: Seq<char>, id: i32)
    requires
        number::i32_of(env) == Some(id),
    ensures
        env_number(Some(env)) == Some(id),
        resolved_textnorm(Some(env)) == id,
{
}

/// What stands in for a transcription where the engine is not ready, and how
/// truth values are put in words.
pub proof fn law_mock_transcription(t: TranscriptionResult)
    ensures
        is_mock(t) <==> t.text@ == "[mock] Hello, this is a test."@ && t.confidence_percent == 95
            && text::opt_view(t.language) == Some("zh"@) && t.duration_ms == 500,
        bool_text(true) == "true"@,
        bool_text(false) == "false"@,
{
}

}
