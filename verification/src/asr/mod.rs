//! Speech recognition: model output, decoding and the two providers.
pub mod audio_file;
pub mod decoder;
pub mod diagnostics;
pub mod engine;
pub mod groq;
pub mod logits;
pub mod wav;
