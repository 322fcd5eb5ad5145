use open_flow::audio::RecordingData;
use open_flow::pcm::{quantize, sample_of, ONE};

fn check(bits: u32) {
    let expected = (f32::from_bits(bits).clamp(-1.0, 1.0) * 32767.0) as i16;
    assert_eq!(quantize(bits), expected, "{:#x}", bits);
}

#[test]
fn quantizing_spread_out() {
    let mut bits: u32 = 0;
    loop {
        check(bits);
        match bits.checked_add(3989) {
            Some(next) => bits = next,
            None => break,
        }
    }
    check(u32::MAX);
}

#[test]
fn quantizing_around_one() {
    assert_eq!(ONE, 1.0f32.to_bits());
    for d in 0..20000 {
        check(ONE - 10000 + d);
        check(ONE - 10000 + d + 0x8000_0000);
    }
}

#[test]
fn quantizing_around_the_steps() {
    for n in 0..32768u32 {
        let bits = (n as f32 / 32767.0).to_bits();
        for d in 0..8 {
            check(bits.saturating_sub(4) + d);
        }
    }
}

#[test]
fn quantizing_special_patterns() {
    for bits in [0, 1, 0x7f_ffff, 0x80_0000, 0x7f80_0000, 0x7f80_0001, 0x7fff_ffff] {
        check(bits);
        check(bits + 0x8000_0000);
    }
}

#[test]
fn sixteen_bit_samples() {
    for n in i16::MIN..=i16::MAX {
        assert_eq!(sample_of(n as i32), (n as f32 / 32768.0).to_bits());
    }
}

#[test]
fn recorded_sixteen_bit_samples() {
    let mut data = RecordingData::started();
    data.take_in_i16(&vec![0, -32768, 16384]);
    data.take_in_u16(&vec![32768, 0, 65535]);
    let expected = [0.0f32, -1.0, 0.5, 0.0, -1.0, (65535.0 - 32768.0) / 32768.0];
    let bits: Vec<u32> = expected.iter().map(|s| s.to_bits()).collect();
    assert_eq!(data.buffer, bits);
    data.finish();
    data.take_in_i16(&vec![1]);
    data.take_in_u16(&vec![1]);
    assert_eq!(data.buffer, bits);
}
