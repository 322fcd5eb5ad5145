use open_flow::asr::wav::{encode_float_wav, encode_wav};
use std::io::Cursor;

#[test]
fn a_recording_in_bytes() {
    let bytes = encode_wav(&bits_of(&[0.00004, -0.00007, 7.5, -1.0]), 16000).unwrap();
    let mut expected: Vec<u8> = Vec::new();
    expected.extend(b"RIFF");
    expected.extend(44u32.to_le_bytes());
    expected.extend(b"WAVEfmt ");
    expected.extend(16u32.to_le_bytes());
    expected.extend(1u16.to_le_bytes());
    expected.extend(1u16.to_le_bytes());
    expected.extend(16000u32.to_le_bytes());
    expected.extend(32000u32.to_le_bytes());
    expected.extend(2u16.to_le_bytes());
    expected.extend(16u16.to_le_bytes());
    expected.extend(b"data");
    expected.extend(8u32.to_le_bytes());
    expected.extend([1, 0, 0xfe, 0xff, 0xff, 0x7f, 0x01, 0x80]);
    assert_eq!(bytes, expected);
}

#[test]
fn an_empty_recording_is_a_header() {
    assert_eq!(encode_wav(&vec![], 1).unwrap().len(), 44);
    assert_eq!(encode_float_wav(&vec![], 1, 1).unwrap().len(), 68);
}

#[test]
fn a_recording_reads_back() {
    let samples = [0.0f32, 0.5, -0.25, 1e-9, f32::NAN, f32::INFINITY, -0.99999994];
    let bytes = encode_wav(&bits_of(&samples), 44100).unwrap();
    let reader = hound::WavReader::new(Cursor::new(bytes)).unwrap();
    assert_eq!(reader.spec().sample_rate, 44100);
    assert_eq!(reader.spec().channels, 1);
    let read: Vec<i16> = reader.into_samples::<i16>().map(|s| s.unwrap()).collect();
    let scaled: Vec<i16> = samples.iter().map(|s| (s.clamp(-1.0, 1.0) * 32767.0) as i16).collect();
    assert_eq!(read, scaled);
    assert_eq!(read, vec![0, 16383, -8191, 0, 0, 32767, -32766]);
}

#[test]
fn a_float_recording_in_bytes() {
    let samples = [0.5f32, -1.0];
    let bits = samples.iter().map(|s| s.to_bits()).collect();
    let bytes = encode_float_wav(&bits, 48000, 2).unwrap();
    let mut expected: Vec<u8> = Vec::new();
    expected.extend(b"RIFF");
    expected.extend(68u32.to_le_bytes());
    expected.extend(b"WAVEfmt ");
    expected.extend(40u32.to_le_bytes());
    expected.extend(0xfffeu16.to_le_bytes());
    expected.extend(2u16.to_le_bytes());
    expected.extend(48000u32.to_le_bytes());
    expected.extend(384000u32.to_le_bytes());
    expected.extend(8u16.to_le_bytes());
    expected.extend(32u16.to_le_bytes());
    expected.extend(22u16.to_le_bytes());
    expected.extend(32u16.to_le_bytes());
    expected.extend(3u32.to_le_bytes());
    expected.extend([3, 0, 0, 0, 0, 0, 0x10, 0, 0x80, 0, 0, 0xaa, 0, 0x38, 0x9b, 0x71]);
    expected.extend(b"data");
    expected.extend(8u32.to_le_bytes());
    for s in samples {
        expected.extend(s.to_le_bytes());
    }
    assert_eq!(bytes, expected);
}

#[test]
fn a_float_recording_reads_back() {
    let samples = vec![0.0f32, -0.25, f32::MIN_POSITIVE, f32::MAX, -1.0, 0.1];
    for channels in [1u16, 2, 3, 6] {
        let bits = samples.iter().map(|s| s.to_bits()).collect();
        let bytes = encode_float_wav(&bits, 44100, channels).unwrap();
        let mut reader = hound::WavReader::new(Cursor::new(bytes)).unwrap();
        assert_eq!(reader.spec().channels, channels);
        assert_eq!(reader.spec().sample_format, hound::SampleFormat::Float);
        let read: Vec<f32> = reader.samples::<f32>().map(|s| s.unwrap()).collect();
        assert_eq!(read, samples);
        // The writer gives the same bytes for the numbers themselves.
        let spec = reader.spec();
        let mut cursor = Cursor::new(Vec::new());
        let mut writer = hound::WavWriter::new(&mut cursor, spec).unwrap();
        for s in &samples {
            writer.write_sample(*s).unwrap();
        }
        writer.finalize().unwrap();
        assert_eq!(encode_float_wav(&bits_of(&samples), 44100, channels).unwrap(), cursor.into_inner());
    }
}

fn bits_of(samples: &[f32]) -> Vec<u32> {
    samples.iter().map(|s| s.to_bits()).collect()
}

#[test]
fn many_channels() {
    for channels in [18u16, 19, 16383] {
        let bytes = encode_float_wav(&vec![7; channels as usize], 2, channels).unwrap();
        let mask = u32::from_le_bytes([bytes[40], bytes[41], bytes[42], bytes[43]]);
        assert_eq!(mask, 0x3ffff);
    }
}

#[test]
fn an_unfinished_frame_is_refused() {
    assert!(encode_float_wav(&vec![0, 0, 0], 8000, 2).is_err());
    assert!(encode_float_wav(&vec![0, 0, 0], 8000, 3).is_ok());
}
