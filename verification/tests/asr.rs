use open_flow::asr::decoder::{CTCDecoder, TokensDocument};
use open_flow::asr::engine::{best_non_blank_requested, find_model_file, model_is_ready};
use open_flow::asr::engine::{plan_load, AsrEngine, LoadError, LocalAsrProvider, ModelFiles};
use open_flow::asr::groq::GroqAsrProvider;
use open_flow::asr::logits::Logits;

fn files(model_onnx: bool, model_quant_onnx: bool, tokens: bool) -> ModelFiles {
    ModelFiles { exists: true, is_dir: true, model_onnx, model_quant_onnx, tokens, cmvn: true }
}

#[test]
fn model_file_names() {
    assert_eq!(find_model_file(&files(true, true, true)), Some("model.onnx"));
    assert_eq!(find_model_file(&files(false, true, true)), Some("model_quant.onnx"));
    assert_eq!(find_model_file(&files(false, false, true)), None);
}

#[test]
fn ready_models() {
    assert!(model_is_ready(&files(true, false, true)));
    assert!(model_is_ready(&files(false, true, true)));
    assert!(!model_is_ready(&files(false, false, true)));
    assert!(!model_is_ready(&files(true, true, false)));
    let mut no_dir = files(true, true, true);
    no_dir.is_dir = false;
    assert!(!model_is_ready(&no_dir));
}

#[test]
fn loading_a_model() {
    let plan = plan_load(&files(false, true, true)).unwrap();
    assert_eq!(plan.model, "model_quant.onnx");
    assert!(plan.cmvn);
    assert_eq!(plan_load(&files(false, false, false)), Err(LoadError::ModelFileNotFound));
    assert_eq!(plan_load(&files(true, false, false)), Err(LoadError::TokensFileNotFound));
}

#[test]
fn language_ids() {
    for (language, id) in [
        ("auto", 0),
        ("zh", 3),
        ("zh-cn", 3),
        ("cn", 3),
        ("en", 4),
        ("yue", 5),
        ("ja", 6),
        ("ko", 7),
        ("nospeech", 8),
        ("fr", 0),
        ("EN", 0),
    ] {
        assert_eq!(AsrEngine::resolve_language_id(Some(language), None), id);
        assert_eq!(AsrEngine::resolve_language_id(Some(language), Some("12")), 12);
        assert_eq!(AsrEngine::resolve_language_id(Some(language), Some("x")), id);
    }
    assert_eq!(AsrEngine::resolve_language_id(None, None), 0);
}

#[test]
fn live_dictation_parameters() {
    assert_eq!(AsrEngine::resolve_live_language_id(None), 3);
    assert_eq!(AsrEngine::resolve_live_language_id(Some("4")), 4);
    assert_eq!(AsrEngine::resolve_live_language_id(Some("no number")), 0);
    assert_eq!(AsrEngine::resolve_textnorm_id(None), 0);
    assert_eq!(AsrEngine::resolve_textnorm_id(Some("1")), 1);
    assert_eq!(AsrEngine::resolve_textnorm_id(Some(" 1")), 0);
    let params = AsrEngine::live_params(Some("-7"), Some("15"));
    assert_eq!((params.language_id, params.textnorm_id), (-7, 15));
    assert!(best_non_blank_requested(Some("1")));
    assert!(!best_non_blank_requested(Some("0")));
    assert!(!best_non_blank_requested(None));
}

#[test]
fn engine_falls_back_to_the_mock() {
    let engine = AsrEngine::new("/models".to_string());
    assert!(!engine.is_ready());
    assert!(engine.decoder_ref().is_none());
    let result = engine.transcribe_pcm(&Logits { rows: vec![], classes: 0 }, false, || 7);
    assert_eq!(result.text, "[mock] Hello, this is a test.");
    assert_eq!(result.confidence_percent, 95);
    assert_eq!(result.language.as_deref(), Some("zh"));
    assert_eq!(result.duration_ms, 500);
    let status = engine.check_status(&files(false, true, false));
    assert_eq!(status.model_path, "/models");
    assert!(status.model_exists && status.onnx_exists && !status.tokens_exists && !status.ready);
    assert_eq!(
        LocalAsrProvider::check_status(&status, "\"/models\""),
        Err("Model not ready: \"/models\" (onnx=true, model=true)".to_string())
    );
}

#[test]
fn a_loaded_engine_decodes() {
    let mut engine = AsrEngine::new("/models".to_string());
    let tokens = vec![Some("<blank>".to_string()), Some("▁hi".to_string())];
    engine.complete_load(CTCDecoder::from_document(TokensDocument::Listing(tokens)).unwrap());
    assert!(engine.is_ready());
    let row = vec![0.0f32.to_bits(), 1.0f32.to_bits()];
    let result = engine.transcribe_pcm(&Logits { rows: vec![row], classes: 2 }, false, || 7);
    assert_eq!(result.text, "hi");
    assert_eq!(result.duration_ms, 7);
    assert_eq!(engine.decoder_ref().unwrap().vocab_size(), 2);
    let status = engine.check_status(&files(true, false, true));
    assert_eq!(LocalAsrProvider::check_status(&status, "p"), Ok("ready".to_string()));
    assert_eq!(LocalAsrProvider::name(), "local (SenseVoice)");
}

fn groq(key: &str, language: &str) -> Result<GroqAsrProvider, String> {
    GroqAsrProvider::new(key.to_string(), "whisper".to_string(), language.to_string())
}

#[test]
fn groq_needs_a_key() {
    for key in ["", " ", "\t\u{3000}\n"] {
        let error = groq(key, "").err();
        assert_eq!(
            error.as_deref(),
            Some("Groq API key is required. Set GROQ_API_KEY env var or groq_api_key in config.toml")
        );
    }
    let provider = groq(" k ", "").ok().unwrap();
    assert_eq!(provider.check_status(), Ok("ready (model: whisper)".to_string()));
    assert_eq!(provider.name(), "groq (Whisper)");
}

#[test]
fn groq_requests_and_results() {
    let provider = groq(" k ", "").ok().unwrap();
    let request = provider.request();
    assert_eq!(request.bearer, " k ");
    assert_eq!(request.model, "whisper");
    assert_eq!(request.language, None);
    let result = provider.result("text".to_string(), 12);
    assert_eq!(result.text, "text");
    assert_eq!(result.confidence_percent, 100);
    assert_eq!(result.language, None);
    assert_eq!(result.duration_ms, 12);
    let provider = groq("k", "en").ok().unwrap();
    assert_eq!(provider.request().language.as_deref(), Some("en"));
    assert_eq!(provider.result(String::new(), 0).language.as_deref(), Some("en"));
}

#[test]
fn groq_replies() {
    assert_eq!(GroqAsrProvider::check_reply(true, "200 OK", "b".to_string()), Ok("b".to_string()));
    assert_eq!(
        GroqAsrProvider::check_reply(false, "401 Unauthorized", "no".to_string()),
        Err("Groq transcription failed: 401 Unauthorized no".to_string())
    );
}
