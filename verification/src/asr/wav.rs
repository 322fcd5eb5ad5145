//! Recordings as WAV files in memory.
use crate::pcm;
use vstd::prelude::*;

verus! {

/// The number of channels of a recording that is sent out.
pub const WAV_CHANNELS: u16 = 1;

/// The bits per sample of a recording that is sent out.
pub const WAV_BITS: u16 = 16;

/// The bits per sample of a recording that is kept as it was made.
pub const FLOAT_WAV_BITS: u16 = 32;

/// The error type of the WAV reader and writer, carried through unread.
#[verifier::external_type_specification]
#[verifier::external_body]
pub struct ExWavError(hound::Error);

/// Why a recording could not be encoded or read.
#[derive(Debug)]
pub enum WavError {
    Write(hound::Error),
    Read(hound::Error),
}

/// The two bytes of `x`, the low one first.
pub open spec fn le16(x: int) -> Seq<u8> {
    seq![(x % 256) as u8, (x / 256 % 256) as u8]
}

/// The four bytes of `x`, the low one first.
pub open spec fn le32(x: int) -> Seq<u8> {
    le16(x % 0x1_0000) + le16(x / 0x1_0000)
}

/// A sample as the unsigned number with the same sixteen bits.
pub open spec fn sample_bits(s: i16) -> int {
    if s < 0 {
        s + 0x1_0000
    } else {
        s as int
    }
}

/// The samples as bytes, in order.
pub open spec fn sample_bytes(samples: Seq<i16>) -> Seq<u8> {
    samples.map_values(|s: i16| le16(sample_bits(s))).flatten()
}

/// The header of a WAV file with `count` samples of sixteen bits in one channel.
#[verifier::opaque]
pub open spec fn wav_header(sample_rate: int, count: int) -> Seq<u8> {
    // "RIFF", the size of what follows, "WAVE"
    seq![0x52u8, 0x49u8, 0x46u8, 0x46u8] + le32(36 + 2 * count)
        + seq![0x57u8, 0x41u8, 0x56u8, 0x45u8]
    // "fmt ", its size, PCM, channels, sample rate, bytes per second, bytes per
    // frame, bits per sample
        + seq![0x66u8, 0x6du8, 0x74u8, 0x20u8] + le32(16) + le16(1) + le16(WAV_CHANNELS as int)
        + le32(sample_rate) + le32(2 * sample_rate) + le16(2) + le16(WAV_BITS as int)
    // "data", its size
        + seq![0x64u8, 0x61u8, 0x74u8, 0x61u8] + le32(2 * count)
}

/// Calls `hound::WavWriter::new`, `write_sample` for each sample and `finalize`,
/// on a buffer in memory. For one channel of sixteen-bit integers this succeeds
/// and leaves a PCM header, with the sizes filled in, and the samples in little
/// endian order. A sample rate of zero, one whose byte rate does not fit in 32
/// bits, and more data than the header's size fields hold are not handled.
#[verifier::external_body]
fn write_wav(
    samples: &Vec<i16>,
    sample_rate: u32,
    channels: u16,
    bits_per_sample: u16,
) -> (r: Result<Vec<u8>, hound::Error>)
    requires
        channels == WAV_CHANNELS,
        bits_per_sample == WAV_BITS,
        0 < sample_rate <= 0x7fff_ffff,
        36 + 2 * samples@.len() <= u32::MAX,
    ensures
        r is Ok,
        r->Ok_0@ == wav_header(sample_rate as int, samples@.len() as int) + sample_bytes(samples@),
{
    let sample_format = hound::SampleFormat::Int;
    let spec = hound::WavSpec { channels, sample_rate, bits_per_sample, sample_format };
    let mut cursor = std::io::Cursor::new(Vec::new());
    let mut writer = hound::WavWriter::new(&mut cursor, spec)?;
    for sample in samples {
        writer.write_sample(*sample)?;
    }
    writer.finalize()?;
    Ok(cursor.into_inner())
}

/// The bytes of single-precision samples, given by their patterns, in order.
pub open spec fn pattern_bytes(samples: Seq<u32>) -> Seq<u8> {
    samples.map_values(|s: u32| le32(s as int)).flatten()
}

/// The speakers that a file with the given number of channels names: one bit for
/// each channel, eighteen at most.
pub open spec fn channel_mask(channels: int) -> int {
    vstd::arithmetic::power2::pow2(
        if channels > 18 {
            18
        } else {
            channels as nat
        },
    ) - 1
}

/// The header of a WAV file with `count` single-precision samples.
#[verifier::opaque]
pub open spec fn float_wav_header(sample_rate: int, channels: int, count: int) -> Seq<u8> {
    // "RIFF", the size of what follows, "WAVE"
    seq![0x52u8, 0x49u8, 0x46u8, 0x46u8] + le32(60 + 4 * count)
        + seq![0x57u8, 0x41u8, 0x56u8, 0x45u8]
    // "fmt ", its size, extensible, channels, sample rate, bytes per second, bytes
    // per frame, bits per container
        + seq![0x66u8, 0x6du8, 0x74u8, 0x20u8] + le32(40) + le16(0xfffe) + le16(channels) + le32(
        sample_rate,
    ) + le32(sample_rate * 4 * channels) + le16(4 * channels) + le16(FLOAT_WAV_BITS as int)
    // the size of the extension, bits per sample, speakers
        + le16(22) + le16(FLOAT_WAV_BITS as int) + le32(channel_mask(channels))
    // the id of IEEE floating-point samples
        + le32(3) + seq![0x00u8, 0x00u8, 0x10u8, 0x00u8, 0x80u8, 0x00u8] + seq![
        0x00u8,
        0xaau8,
        0x00u8,
        0x38u8,
        0x9bu8,
        0x71u8,
    ]
    // "data", its size
        + seq![0x64u8, 0x61u8, 0x74u8, 0x61u8] + le32(4 * count)
}

/// Whether the bytes are a WAV file of the given single-precision samples, as
/// [`encode_float_wav`] writes it.
pub open spec fn is_float_wav(
    bytes: Seq<u8>,
    sample_rate: u32,
    channels: u16,
    samples: Seq<u32>,
) -> bool {
    &&& sample_rate > 0
    &&& 0 < 4 * channels <= u16::MAX
    &&& sample_rate * 4 * channels <= u32::MAX
    &&& 60 + 4 * samples.len() <= u32::MAX
    &&& samples.len() as int % channels as int == 0
    &&& bytes == float_wav_header(
        sample_rate as int,
        channels as int,
        samples.len() as int,
    ) + pattern_bytes(samples)
}

/// Calls `hound::WavWriter::new`, `write_sample` for each sample and `finalize`,
/// on a buffer in memory, for floating-point samples of 32 bits. A sample is
/// handed over as the integer with its bits: for samples of 32 bits both are
/// written as the same four bytes. This leaves an extensible header, with the
/// sizes filled in, and the samples in little endian order; it fails exactly
/// where the last frame has no sample for some channel. A sample rate or channel
/// count of zero, ones whose products do not fit their header fields, and more
/// data than the size fields hold are not handled.
#[verifier::external_body]
fn write_float_wav(
    samples: &Vec<u32>,
    sample_rate: u32,
    channels: u16,
    bits_per_sample: u16,
) -> (r: Result<Vec<u8>, hound::Error>)
    requires
        bits_per_sample == FLOAT_WAV_BITS,
        sample_rate > 0,
        0 < 4 * channels <= u16::MAX,
        sample_rate * 4 * channels <= u32::MAX,
        60 + 4 * samples@.len() <= u32::MAX,
    ensures
        match r {
            Ok(bytes) => {
                &&& samples@.len() as int % channels as int == 0
                &&& bytes@ == float_wav_header(
                    sample_rate as int,
                    channels as int,
                    samples@.len() as int,
                ) + pattern_bytes(samples@)
            },
            Err(_) => samples@.len() as int % channels as int != 0,
        },
{
    let sample_format = hound::SampleFormat::Float;
    let spec = hound::WavSpec { channels, sample_rate, bits_per_sample, sample_format };
    let mut cursor = std::io::Cursor::new(Vec::new());
    let mut writer = hound::WavWriter::new(&mut cursor, spec)?;
    for sample in samples {
        writer.write_sample(*sample as i32)?;
    }
    writer.finalize()?;
    Ok(cursor.into_inner())
}

/// Encodes a recording as a WAV file: single-precision samples, given by their
/// patterns (see [`crate::single`]), the channels in turn.
pub fn encode_float_wav(samples: &Vec<u32>, sample_rate: u32, channels: u16) -> (r: Result<
    Vec<u8>,
    WavError,
>)
    requires
        sample_rate > 0,
        0 < 4 * channels <= u16::MAX,
        sample_rate * 4 * channels <= u32::MAX,
        60 + 4 * samples@.len() <= u32::MAX,
    ensures
        match r {
            Ok(bytes) => {
                &&& is_float_wav(bytes@, sample_rate, channels, samples@)
                &&& bytes@.len() == 68 + 4 * samples@.len()
            },
            Err(e) => e is Write && samples@.len() as int % channels as int != 0,
        },
{
    proof {
        lemma_float_wav_header(sample_rate as int, channels as int, samples@.len() as int);
        lemma_pattern_bytes(samples@);
    }
    match write_float_wav(samples, sample_rate, channels, FLOAT_WAV_BITS) {
        Ok(bytes) => Ok(bytes),
        Err(e) => Err(WavError::Write(e)),
    }
}

/// Samples in sixteen bits.
pub open spec fn quantized_samples(samples: Seq<u32>) -> Seq<i16> {
    samples.map_values(|s: u32| pcm::quantized(s) as i16)
}

/// Encodes single-precision samples, given by their patterns (see
/// [`crate::single`]), as a WAV file: one channel, sixteen bits per sample.
pub fn encode_wav(samples: &Vec<u32>, sample_rate: u32) -> (r: Result<Vec<u8>, WavError>)
    requires
        0 < sample_rate <= 0x7fff_ffff,
        36 + 2 * samples@.len() <= u32::MAX,
    ensures
        r matches Ok(bytes) && bytes@ == wav_header(sample_rate as int, samples@.len() as int)
            + sample_bytes(quantized_samples(samples@)) && bytes@.len() == 44 + 2 * samples@.len(),
{
    let mut quantized: Vec<i16> = Vec::new();
    let mut i: usize = 0;
    while i < samples.len()
        invariant
            i <= samples@.len(),
            quantized@ == quantized_samples(samples@.take(i as int)),
        decreases samples@.len() - i,
    {
        quantized.push(pcm::quantize(samples[i]));
        i = i + 1;
        assert(quantized_samples(samples@.take(i as int)) =~= quantized_samples(
            samples@.take(i - 1),
        ).push(pcm::quantized(samples@[i - 1]) as i16));
    }
    assert(samples@.take(i as int) =~= samples@);
    proof {
        lemma_wav_header(sample_rate as int, samples@.len() as int);
        lemma_sample_bytes(quantized@);
    }
    match write_wav(&quantized, sample_rate, WAV_CHANNELS, WAV_BITS) {
        Ok(bytes) => Ok(bytes),
        Err(e) => Err(WavError::Write(e)),
    }
}

/// The header takes 44 bytes. The sample rate stands in the four bytes from 24 on,
/// and the last four are the size of the data.
pub proof fn lemma_wav_header(sample_rate: int, count: int)
    ensures
        wav_header(sample_rate, count).len() == 44,
        wav_header(sample_rate, count).subrange(24, 28) == le32(sample_rate),
        wav_header(sample_rate, count).subrange(40, 44) == le32(2 * count),
{
    reveal(wav_header);
    assert(wav_header(sample_rate, count).subrange(24, 28) =~= le32(sample_rate));
    assert(wav_header(sample_rate, count).subrange(40, 44) =~= le32(2 * count));
}

/// The header takes 68 bytes. The sample rate stands in the four bytes from 24 on,
/// and the last four are the size of the data.
pub proof fn lemma_float_wav_header(sample_rate: int, channels: int, count: int)
    ensures
        float_wav_header(sample_rate, channels, count).len() == 68,
        float_wav_header(sample_rate, channels, count).subrange(24, 28) == le32(sample_rate),
        float_wav_header(sample_rate, channels, count).subrange(64, 68) == le32(4 * count),
{
    reveal(float_wav_header);
    assert(float_wav_header(sample_rate, channels, count).subrange(24, 28) =~= le32(sample_rate));
    assert(float_wav_header(sample_rate, channels, count).subrange(64, 68) =~= le32(4 * count));
}

/// Sample bytes come two to a sample.
proof fn lemma_sample_bytes(samples: Seq<i16>)
    ensures
        sample_bytes(samples).len() == 2 * samples.len(),
        forall|i: int|
            #![trigger samples[i]]
            0 <= i < samples.len() ==> sample_bytes(samples).subrange(2 * i, 2 * i + 2) == le16(
                sample_bits(samples[i]),
            ),
    decreases samples.len(),
{
    let pieces = samples.map_values(|s: i16| le16(sample_bits(s)));
    if samples.len() == 0 {
        assert(pieces.flatten() =~= seq![]);
    } else {
        let init = samples.drop_last();
        lemma_sample_bytes(init);
        let init_pieces = init.map_values(|s: i16| le16(sample_bits(s)));
        let last = le16(sample_bits(samples.last()));
        init_pieces.lemma_flatten_push(last);
        assert(pieces =~= init_pieces.push(last));
        let all = sample_bytes(samples);
        assert(all =~= sample_bytes(init) + last);
        assert forall|i: int|
            #![trigger samples[i]]
            0 <= i < samples.len() implies all.subrange(2 * i, 2 * i + 2) == le16(
            sample_bits(samples[i]),
        ) by {
            if i < init.len() {
                assert(init[i] == samples[i]);
                assert(all.subrange(2 * i, 2 * i + 2) =~= sample_bytes(init).subrange(
                    2 * i,
                    2 * i + 2,
                ));
            } else {
                assert(all.subrange(2 * i, 2 * i + 2) =~= last);
            }
        }
    }
}

/// A WAV file has a header of 44 bytes, and sample `i` stands in the two bytes
/// from `44 + 2 * i` on.
pub proof fn law_wav_layout(samples: Seq<i16>, sample_rate: u32, i: int)
    requires
        0 <= i < samples.len(),
    ensures
        ({
            let file = wav_header(sample_rate as int, samples.len() as int) + sample_bytes(samples);
            &&& file.len() == 44 + 2 * samples.len()
            &&& file.subrange(44 + 2 * i, 46 + 2 * i) == le16(sample_bits(samples[i]))
        }),
{
    lemma_sample_bytes(samples);
    let header = wav_header(sample_rate as int, samples.len() as int);
    lemma_wav_header(sample_rate as int, samples.len() as int);
    let file = header + sample_bytes(samples);
    assert(file.subrange(44 + 2 * i, 46 + 2 * i) =~= sample_bytes(samples).subrange(
        2 * i,
        2 * i + 2,
    ));
}

/// Pattern bytes come four to a sample.
pub proof fn lemma_pattern_bytes(samples: Seq<u32>)
    ensures
        pattern_bytes(samples).len() == 4 * samples.len(),
        forall|i: int|
            #![trigger samples[i]]
            0 <= i < samples.len() ==> pattern_bytes(samples).subrange(4 * i, 4 * i + 4) == le32(
                samples[i] as int,
            ),
    decreases samples.len(),
{
    let pieces = samples.map_values(|s: u32| le32(s as int));
    if samples.len() == 0 {
        assert(pieces.flatten() =~= seq![]);
    } else {
        let init = samples.drop_last();
        lemma_pattern_bytes(init);
        let init_pieces = init.map_values(|s: u32| le32(s as int));
        let last = le32(samples.last() as int);
        init_pieces.lemma_flatten_push(last);
        assert(pieces =~= init_pieces.push(last));
        let all = pattern_bytes(samples);
        assert(all =~= pattern_bytes(init) + last);
        assert forall|i: int|
            #![trigger samples[i]]
            0 <= i < samples.len() implies all.subrange(4 * i, 4 * i + 4) == le32(
            samples[i] as int,
        ) by {
            if i < init.len() {
                assert(init[i] == samples[i]);
                assert(all.subrange(4 * i, 4 * i + 4) =~= pattern_bytes(init).subrange(
                    4 * i,
                    4 * i + 4,
                ));
            } else {
                assert(all.subrange(4 * i, 4 * i + 4) =~= last);
            }
        }
    }
}

/// A WAV file of single-precision samples has a header of 68 bytes, and sample
/// `i` stands in the four bytes from `68 + 4 * i` on.
pub proof fn law_float_wav_layout(samples: Seq<u32>, sample_rate: u32, channels: u16, i: int)
    requires
        0 <= i < samples.len(),
    ensures
        ({
            let file = float_wav_header(
                sample_rate as int,
                channels as int,
                samples.len() as int,
            ) + pattern_bytes(samples);
            &&& file.len() == 68 + 4 * samples.len()
            &&& file.subrange(68 + 4 * i, 72 + 4 * i) == le32(samples[i] as int)
        }),
{
    lemma_pattern_bytes(samples);
    let header = float_wav_header(sample_rate as int, channels as int, samples.len() as int);
    lemma_float_wav_header(sample_rate as int, channels as int, samples.len() as int);
    let file = header + pattern_bytes(samples);
    assert(file.subrange(68 + 4 * i, 72 + 4 * i) =~= pattern_bytes(samples).subrange(
        4 * i,
        4 * i + 4,
    ));
}

/// Numbers in two and in four bytes, the low byte first.
pub proof fn law_bytes_of_numbers(x: int)
    ensures
        0 <= x < 0x1_0000 ==> le16(x).len() == 2 && le16(x)[0] + 0x100 * le16(x)[1] == x,
        0 <= x < 0x1_0000_0000 ==> le32(x).len() == 4 && le32(x)[0] + 0x100 * le32(x)[1] + 0x1_0000
            * le32(x)[2] + 0x100_0000 * le32(x)[3] == x,
{
    if 0 <= x < 0x1_0000_0000 {
        let low = x % 0x1_0000;
        let high = x / 0x1_0000;
        let b = le32(x);
        assert(b[0] == (low % 256) as u8);
        assert(b[1] == (low / 256 % 256) as u8);
        assert(b[2] == (high % 256) as u8);
        assert(b[3] == (high / 256 % 256) as u8);
    }
}

/// Every sample of a recording is encoded, at its place: sample `i` of the file
/// is that of the pattern, in sixteen bits, in the two bytes from `44 + 2 * i` on,
/// the low byte first, a negative one as its distance to 2^16.
pub proof fn law_every_sample_is_encoded(samples: Seq<u32>, sample_rate: u32, i: int)
    requires
        0 <= i < samples.len(),
    ensures
        ({
            let file = wav_header(sample_rate as int, samples.len() as int) + sample_bytes(
                quantized_samples(samples),
            );
            let value = file[44 + 2 * i] + 0x100 * file[45 + 2 * i];
            let q = pcm::quantized(samples[i]);
            &&& file.len() == 44 + 2 * samples.len()
            &&& value == if q < 0 {
                q + 0x1_0000
            } else {
                q
            }
        }),
{
    let q = quantized_samples(samples);
    pcm::law_quantized_range(samples[i]);
    assert(q[i] == pcm::quantized(samples[i]));
    law_wav_layout(q, sample_rate, i);
    let file = wav_header(sample_rate as int, samples.len() as int) + sample_bytes(q);
    let two = file.subrange(44 + 2 * i, 46 + 2 * i);
    assert(two[0] == file[44 + 2 * i] && two[1] == file[45 + 2 * i]);
    law_bytes_of_numbers(sample_bits(q[i]));
}

/// Every single-precision sample of a recording is encoded, at its place: sample
/// `i` stands in the four bytes from `68 + 4 * i` on, the low byte first.
pub proof fn law_every_float_sample_is_encoded(
    bytes: Seq<u8>,
    sample_rate: u32,
    channels: u16,
    samples: Seq<u32>,
    i: int,
)
    requires
        is_float_wav(bytes, sample_rate, channels, samples),
        0 <= i < samples.len(),
    ensures
        bytes.len() == 68 + 4 * samples.len(),
        bytes[68 + 4 * i] + 0x100 * bytes[69 + 4 * i] + 0x1_0000 * bytes[70 + 4 * i] + 0x100_0000
            * bytes[71 + 4 * i] == samples[i],
{
    law_float_wav_layout(samples, sample_rate, channels, i);
    let four = bytes.subrange(68 + 4 * i, 72 + 4 * i);
    assert(four[0] == bytes[68 + 4 * i] && four[1] == bytes[69 + 4 * i]);
    assert(four[2] == bytes[70 + 4 * i] && four[3] == bytes[71 + 4 * i]);
    law_bytes_of_numbers(samples[i] as int);
}

}
