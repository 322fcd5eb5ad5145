//! The Groq provider: transcription by the Whisper service.
use crate::common::types::TranscriptionResult;
use crate::text;
use vstd::prelude::*;
use vstd::string::StringExecFns;

verus! {

/// Where transcription requests are sent.
pub const GROQ_ENDPOINT: &'static str = "https://api.groq.com/openai/v1/audio/transcriptions";

/// How long a request may take, in seconds.
pub const GROQ_TIMEOUT_SECS: u64 = 30;

/// The name under which the recording is sent.
pub const GROQ_FILE_NAME: &'static str = "audio.wav";

/// The media type of the recording.
pub const GROQ_FILE_TYPE: &'static str = "audio/wav";

/// A request to transcribe a recording: what goes along with the file.
pub struct GroqRequest {
    pub bearer: String,
    pub model: String,
    /// The language hint, where there is one.
    pub language: Option<String>,
}

/// The language that a hint names; an empty hint names none.
pub open spec fn language_hint(language: Seq<char>) -> Option<Seq<char>> {
    if language.len() == 0 {
        None
    } else {
        Some(language)
    }
}

/// Groq ASR provider.
pub struct GroqAsrProvider {
    api_key: String,
    model: String,
    language: String,
}

impl GroqAsrProvider {
    /// The API key.
    pub closed spec fn key(self) -> Seq<char> {
        self.api_key@
    }

    /// The Whisper model's name.
    pub closed spec fn model_name(self) -> Seq<char> {
        self.model@
    }

    /// The configured language hint.
    pub closed spec fn hint(self) -> Seq<char> {
        self.language@
    }

    /// A provider with the given key, which must not be blank.
    pub fn new(api_key: String, model: String, language: String) -> (r: Result<
        GroqAsrProvider,
        String,
    >)
        ensures
            match r {
                Ok(p) => {
                    &&& text::trimmed(api_key@).len() > 0
                    &&& p.key() == api_key@
                    &&& p.model_name() == model@
                    &&& p.hint() == language@
                },
                Err(e) => {
                    &&& text::trimmed(api_key@).len() == 0
                    &&& e@
                        == "Groq API key is required. Set GROQ_API_KEY env var or groq_api_key in config.toml"@
                },
            },
    {
        if text::trim(api_key.as_str()).as_str().is_empty() {
            return Err(
                "Groq API key is required. Set GROQ_API_KEY env var or groq_api_key in config.toml".to_owned(),
            );
        }
        Ok(GroqAsrProvider { api_key, model, language })
    }

    /// The configured language hint, where there is one.
    fn language_opt(&self) -> (r: Option<String>)
        ensures
            text::opt_view(r) == language_hint(self.hint()),
    {
        if self.language.as_str().is_empty() {
            None
        } else {
            Some(self.language.clone())
        }
    }

    /// What is sent along with a recording.
    pub fn request(&self) -> (r: GroqRequest)
        ensures
            r.bearer@ == self.key(),
            r.model@ == self.model_name(),
            text::opt_view(r.language) == language_hint(self.hint()),
    {
        GroqRequest {
            bearer: self.api_key.clone(),
            model: self.model.clone(),
            language: self.language_opt(),
        }
    }

    /// The body of the service's reply, or the error that the reply stands for.
    /// `success` and `status` are the reply's status.
    pub fn check_reply(success: bool, status: &str, body: String) -> (r: Result<String, String>)
        ensures
            match r {
                Ok(b) => success && b@ == body@,
                Err(e) => !success && e@ == "Groq transcription failed: "@ + status@ + " "@ + body@,
            },
    {
        if success {
            Ok(body)
        } else {
            let mut message = text::concat("Groq transcription failed: ", status);
            message.append(" ");
            message.append(body.as_str());
            Err(message)
        }
    }

    /// The result of a transcription with the given text.
    pub fn result(&self, text: String, duration_ms: u64) -> (r: TranscriptionResult)
        ensures
            r.text@ == text@,
            r.confidence_percent == 100,
            text::opt_view(r.language) == language_hint(self.hint()),
            r.duration_ms == duration_ms,
    {
        TranscriptionResult {
            text,
            confidence_percent: 100,
            language: self.language_opt(),
            duration_ms,
        }
    }

    /// Whether the provider is ready, in words.
    pub fn check_status(&self) -> (r: Result<String, String>)
        ensures
            match r {
                Ok(s) => {
                    &&& text::trimmed(self.key()).len() > 0
                    &&& s@ == "ready (model: "@ + self.model_name() + ")"@
                },
                Err(e) => {
                    &&& text::trimmed(self.key()).len() == 0
                    &&& e@ == "Groq API key not configured"@
                },
            },
    {
        if text::trim(self.api_key.as_str()).as_str().is_empty() {
            return Err("Groq API key not configured".to_owned());
        }
        let mut s = text::concat("ready (model: ", self.model.as_str());
        s.append(")");
        Ok(s)
    }

    /// The provider's name.
    pub fn name(&self) -> (r: &'static str)
        ensures
            r@ == "groq (Whisper)"@,
    {
        "groq (Whisper)"
    }
}

// ── Laws ─────────────────────────────────────────────────────────────────────

/// A hint names the language that it is, and none where it is empty.
pub proof fn law_hints_name_themselves(language: Seq<char>)
    ensures
        language.len() > 0 ==> language_hint(language) == Some(language),
        language.len() == 0 ==> language_hint(language) is None,
{
}

}
