use open_flow::asr::audio_file::{load_audio, wav_samples, AudioData, AudioSamples};
use open_flow::asr::audio_file::{WavContent, WavFile};
use open_flow::asr::decoder::{CTCDecoder, TokensDocument};
use open_flow::asr::engine::{AsrEngine, FileError, FileTranscription};
use open_flow::asr::wav::{encode_float_wav, encode_wav, WavError};
use std::io::Cursor;

fn patterns(audio: &AudioData) -> Vec<u32> {
    match &audio.samples {
        AudioSamples::Patterns(p) => p.clone(),
        AudioSamples::Integers { .. } => panic!("integer samples"),
    }
}

fn integers(audio: &AudioData) -> (Vec<i32>, u16) {
    match &audio.samples {
        AudioSamples::Patterns(_) => panic!("floating-point samples"),
        AudioSamples::Integers { samples, bits } => (samples.clone(), *bits),
    }
}

/// A WAV file with the given format tag, bytes per sample and bits per sample.
fn wav(tag: u16, channels: u16, width: u16, bits: u16, data: &[u8]) -> Vec<u8> {
    wav_announcing(tag, channels, width, bits, data.len() as u32, data)
}

fn wav_announcing(tag: u16, channels: u16, width: u16, bits: u16, size: u32, data: &[u8]) -> Vec<u8> {
    let mut file: Vec<u8> = Vec::new();
    file.extend(b"RIFF");
    file.extend(size.wrapping_add(36).to_le_bytes());
    file.extend(b"WAVEfmt ");
    file.extend(16u32.to_le_bytes());
    file.extend(tag.to_le_bytes());
    file.extend(channels.to_le_bytes());
    file.extend(8000u32.to_le_bytes());
    file.extend((8000 * channels as u32 * width as u32).to_le_bytes());
    file.extend((channels * width).to_le_bytes());
    file.extend(bits.to_le_bytes());
    file.extend(b"data");
    file.extend(size.to_le_bytes());
    file.extend(data);
    file
}

fn read_floats(file: &[u8]) -> Vec<u32> {
    let reader = hound::WavReader::new(Cursor::new(file.to_vec())).unwrap();
    reader.into_samples::<f32>().filter_map(|s| s.ok()).map(|s| s.to_bits()).collect()
}

fn read_integers(file: &[u8]) -> Vec<i32> {
    let reader = hound::WavReader::new(Cursor::new(file.to_vec())).unwrap();
    reader.into_samples::<i32>().filter_map(|s| s.ok()).collect()
}

#[test]
fn reading_gives_back_what_was_written() {
    let samples: Vec<u32> = vec![0, 0x3f80_0000, 0xbf00_0001, 0x7fc1_2345, 0xffff_ffff, 0x0102_0304];
    for channels in [1u16, 2, 3, 6] {
        let file = encode_float_wav(&samples, 44100, channels).unwrap();
        let audio = load_audio(&file).unwrap();
        assert_eq!(audio.sample_rate, 44100);
        assert_eq!(audio.channels, channels);
        assert_eq!(patterns(&audio), samples);
        assert_eq!(patterns(&audio), read_floats(&file));
    }
    for channels in [18u16, 19, 16383] {
        let wide: Vec<u32> = (0..channels as u32).collect();
        let file = encode_float_wav(&wide, 2, channels).unwrap();
        assert_eq!(patterns(&load_audio(&file).unwrap()), wide);
    }
    let empty = load_audio(&encode_float_wav(&vec![], u32::MAX / 4, 1).unwrap()).unwrap();
    assert_eq!(empty.sample_rate, u32::MAX / 4);
    assert!(patterns(&empty).is_empty());
}

#[test]
fn sixteen_bit_recordings_are_read() {
    let bits = [0.5f32, -1.0, 0.0].iter().map(|s| s.to_bits()).collect();
    let file = encode_wav(&bits, 16000).unwrap();
    let audio = load_audio(&file).unwrap();
    assert_eq!(audio.sample_rate, 16000);
    assert_eq!(audio.channels, 1);
    assert_eq!(integers(&audio), (vec![16383, -32767, 0], 16));
}

#[test]
fn integers_of_every_width_are_read() {
    let data: Vec<u8> = (0..24).map(|i: u8| i.wrapping_mul(37)).collect();
    for (width, bits) in [(1u16, 8u16), (2, 16), (3, 24), (4, 24), (4, 32)] {
        let file = wav(1, 2, width, bits, &data);
        let audio = load_audio(&file).unwrap();
        assert_eq!(audio.channels, 2);
        assert_eq!(integers(&audio).1, bits);
        assert_eq!(integers(&audio).0, read_integers(&file));
        assert_eq!(integers(&audio).0.len(), data.len() / width as usize);
    }
    assert_eq!(integers(&load_audio(&wav(1, 1, 1, 8, &[0, 128, 255])).unwrap()).0, [-128, 0, 127]);
}

#[test]
fn a_cut_file_gives_what_is_there() {
    let floats = wav_announcing(3, 1, 4, 32, 16, &[1, 0, 0, 0, 2, 0, 0, 0, 3]);
    assert_eq!(patterns(&load_audio(&floats).unwrap()), [1, 2]);
    assert_eq!(read_floats(&floats), [1, 2]);
    let ints = wav_announcing(1, 2, 2, 16, 8, &[1, 0, 2, 0, 3, 0, 9]);
    assert_eq!(integers(&load_audio(&ints).unwrap()), (vec![1, 2, 3], 16));
    assert_eq!(read_integers(&ints), [1, 2, 3]);
    // A file of unknown length.
    let unknown = wav_announcing(1, 1, 1, 8, u32::MAX, &[128, 129]);
    assert_eq!(integers(&load_audio(&unknown).unwrap()).0, [0, 1]);
}

#[test]
fn floats_of_another_width_are_not_read() {
    let file = wav(3, 1, 8, 64, &[0; 16]);
    if let Ok(audio) = load_audio(&file) {
        assert!(patterns(&audio).is_empty());
        assert!(read_floats(&file).is_empty());
    }
    let padded = wav(3, 1, 8, 32, &[7; 16]);
    assert_eq!(
        load_audio(&padded).map(|a| patterns(&a)).ok(),
        hound::WavReader::new(Cursor::new(padded.clone())).map(|_| read_floats(&padded)).ok()
    );
}

#[test]
fn other_files_are_refused() {
    for bytes in [vec![], b"RIFF".to_vec(), b"not a recording at all".to_vec(), wav(1, 0, 2, 16, &[])] {
        assert!(matches!(load_audio(&bytes), Err(WavError::Read(_))));
    }
    // An unfinished frame, and an unfinished sample.
    assert!(load_audio(&wav(1, 2, 2, 16, &[0; 6])).is_err());
    assert!(load_audio(&wav(1, 1, 2, 16, &[0; 3])).is_err());
}

#[test]
fn samples_of_a_file() {
    let integers_of = |samples| WavFile {
        sample_rate: 8000,
        channels: 1,
        bits_per_sample: 12,
        content: WavContent::Integers(samples),
    };
    let audio = wav_samples(&integers_of(vec![Some(-3), None, Some(4), None]));
    assert_eq!(integers(&audio), (vec![-3, 4], 12));
    assert_eq!(audio.sample_rate, 8000);

    let floats_of = |count, data_at, bits_per_sample, file: &[u8]| {
        let content = WavContent::Float { count, data_at, file: file.to_vec() };
        patterns(&wav_samples(&WavFile { sample_rate: 1, channels: 1, bits_per_sample, content }))
    };
    let file = [9, 8, 0, 0, 0, 1, 2, 3, 4, 255, 255, 255, 255];
    assert_eq!(floats_of(2, 5, 32, &file), [0x0403_0201, u32::MAX]);
    // One sample takes eight bytes.
    assert!(floats_of(1, 5, 32, &file).is_empty());
    assert!(floats_of(2, 5, 64, &file).is_empty());
    assert!(floats_of(0, 5, 32, &file).is_empty());
    assert!(floats_of(2, 3, 32, &file).is_empty());
    assert!(floats_of(2, 14, 32, &file).is_empty());
    assert_eq!(floats_of(2, 5, 32, &file[..9]), [0x0403_0201]);
}

fn ready_engine() -> AsrEngine {
    let mut engine = AsrEngine::new("models".to_string());
    let tokens = vec![Some("<blank>".to_string()), Some("hi".to_string())];
    engine.complete_load(CTCDecoder::from_document(TokensDocument::Listing(tokens)).unwrap());
    engine
}

#[test]
fn transcribing_a_file() {
    let file = encode_float_wav(&vec![5, 6], 16000, 2).unwrap();
    let engine = ready_engine();
    match engine.transcribe(true, || Some(file.clone())) {
        Ok(FileTranscription::Recognise(audio)) => {
            assert_eq!(audio.sample_rate, 16000);
            assert_eq!(audio.channels, 2);
            assert_eq!(patterns(&audio), [5, 6]);
        }
        _ => panic!("the recording is there"),
    }
    assert!(matches!(engine.transcribe(true, || None), Err(FileError::Unreadable)));
    assert!(matches!(
        engine.transcribe(true, || Some(vec![1, 2, 3])),
        Err(FileError::NotAudio(WavError::Read(_)))
    ));
    assert!(matches!(
        engine.transcribe(false, || panic!("nothing to read")),
        Err(FileError::NotFound)
    ));
}

#[test]
fn an_engine_that_is_not_ready_reads_no_file() {
    let engine = AsrEngine::new("models".to_string());
    match engine.transcribe(true, || panic!("nothing to read")) {
        Ok(FileTranscription::Mock(t)) => {
            assert_eq!(t.text, "[mock] Hello, this is a test.");
            assert_eq!(t.duration_ms, 500);
        }
        _ => panic!("the mock transcription"),
    }
    assert!(matches!(engine.transcribe(false, || None), Err(FileError::NotFound)));
}
