//! Recordings read from WAV files.
use crate::asr::wav;
use crate::asr::wav::WavError;
use vstd::prelude::*;

verus! {

/// The samples of a WAV file as they are found in it.
#[derive(Debug)]
pub enum WavContent {
    /// Floating-point samples: how many the file announces, and the whole file,
    /// with the place where its data starts.
    Float { count: u32, data_at: usize, file: Vec<u8> },
    /// Integer samples in order, where they could be read.
    Integers(Vec<Option<i32>>),
}

/// A WAV file: its format and its samples.
#[derive(Debug)]
pub struct WavFile {
    pub sample_rate: u32,
    pub channels: u16,
    pub bits_per_sample: u16,
    pub content: WavContent,
}

/// [`WavContent`] as a mathematical value.
pub enum WavContentView {
    Float { count: u32, data_at: int, file: Seq<u8> },
    Integers(Seq<Option<i32>>),
}

/// [`WavFile`] as a mathematical value.
pub struct WavFileView {
    pub sample_rate: u32,
    pub channels: u16,
    pub bits_per_sample: u16,
    pub content: WavContentView,
}

impl View for WavFile {
    type V = WavFileView;

    open spec fn view(&self) -> WavFileView {
        WavFileView {
            sample_rate: self.sample_rate,
            channels: self.channels,
            bits_per_sample: self.bits_per_sample,
            content: match self.content {
                WavContent::Float { count, data_at, file } => WavContentView::Float {
                    count,
                    data_at: data_at as int,
                    file: file@,
                },
                WavContent::Integers(samples) => WavContentView::Integers(samples@),
            },
        }
    }
}

/// The samples of a recording.
#[derive(Debug)]
pub enum AudioSamples {
    /// Patterns of single-precision numbers (see [`crate::single`]).
    Patterns(Vec<u32>),
    /// Integers of so many bits.
    Integers { samples: Vec<i32>, bits: u16 },
}

/// A recording: the channels of each frame in turn.
#[derive(Debug)]
pub struct AudioData {
    pub sample_rate: u32,
    pub channels: u16,
    pub samples: AudioSamples,
}

/// [`AudioSamples`] as a mathematical value.
#[verifier::ext_equal]
pub enum AudioSamplesView {
    Patterns(Seq<u32>),
    Integers { samples: Seq<i32>, bits: u16 },
}

/// [`AudioData`] as a mathematical value.
#[verifier::ext_equal]
pub struct AudioView {
    pub sample_rate: u32,
    pub channels: u16,
    pub samples: AudioSamplesView,
}

impl View for AudioData {
    type V = AudioView;

    open spec fn view(&self) -> AudioView {
        AudioView {
            sample_rate: self.sample_rate,
            channels: self.channels,
            samples: match self.samples {
                AudioSamples::Patterns(p) => AudioSamplesView::Patterns(p@),
                AudioSamples::Integers { samples, bits } => AudioSamplesView::Integers {
                    samples: samples@,
                    bits,
                },
            },
        }
    }
}

/// The number that four bytes stand for, the low one first.
pub open spec fn le32_value(b: Seq<u8>) -> int {
    b[0] + 0x100 * b[1] + 0x1_0000 * b[2] + 0x100_0000 * b[3]
}

/// The four bytes of a file from `at` on.
pub open spec fn four_bytes(file: Seq<u8>, at: int) -> Seq<u8> {
    file.subrange(at, at + 4)
}

/// How many bytes a sample takes: the size of the data, which stands before it,
/// by the number of samples. Without samples, or data, there is no such number.
pub open spec fn sample_width(file: Seq<u8>, data_at: int, count: u32) -> int {
    if count > 0 && 4 <= data_at <= file.len() {
        le32_value(four_bytes(file, data_at - 4)) / count as int
    } else {
        0
    }
}

/// The floating-point samples that can be read: those of 32 bits in four bytes,
/// as many as are announced and in the file.
pub open spec fn float_samples(
    file: Seq<u8>,
    data_at: int,
    count: u32,
    bits_per_sample: u16,
) -> Seq<u32> {
    if bits_per_sample == wav::FLOAT_WAV_BITS && sample_width(file, data_at, count) == 4 {
        let present = (file.len() - data_at) / 4;
        Seq::new(
            if count <= present {
                count as nat
            } else {
                present as nat
            },
            |i: int| le32_value(four_bytes(file, data_at + 4 * i)) as u32,
        )
    } else {
        seq![]
    }
}

/// The integers that could be read, in order.
pub open spec fn read_integers(samples: Seq<Option<i32>>) -> Seq<i32>
    decreases samples.len(),
{
    if samples.len() == 0 {
        seq![]
    } else {
        match samples.last() {
            Some(s) => read_integers(samples.drop_last()).push(s),
            None => read_integers(samples.drop_last()),
        }
    }
}

/// The recording that a WAV file holds: the samples that can be read.
pub open spec fn loaded(w: WavFileView) -> AudioView {
    AudioView {
        sample_rate: w.sample_rate,
        channels: w.channels,
        samples: match w.content {
            WavContentView::Float { count, data_at, file } => AudioSamplesView::Patterns(
                float_samples(file, data_at, count, w.bits_per_sample),
            ),
            WavContentView::Integers(samples) => AudioSamplesView::Integers {
                samples: read_integers(samples),
                bits: w.bits_per_sample,
            },
        },
    }
}

/// What the WAV file with the given bytes holds, or `None` where they are no WAV
/// file that can be read.
pub uninterp spec fn wav_file(bytes: Seq<u8>) -> Option<WavFileView>;

/// Whether the bytes are a WAV file that holds the recording.
pub open spec fn holds(bytes: Seq<u8>, audio: AudioView) -> bool {
    match wav_file(bytes) {
        Some(w) => audio == loaded(w),
        None => false,
    }
}

/// Calls `hound::WavReader::new` on the bytes, and `spec`. Of a file of integers
/// it takes what `into_samples` gives; of any other, `len` and the place where
/// the reader has arrived, which is the start of the data, after the four bytes
/// of its size. What is found is determined by the bytes, and has a name. It is
/// stated for the files that [`wav::encode_float_wav`] writes: their data starts
/// after the 68 bytes of the header. Which other files can be read, and which
/// integers they hold, is left unsaid.
///
/// No more integers are asked for than the file has bytes: each takes at least
/// one.
#[verifier::external_body]
fn read_wav(bytes: &Vec<u8>) -> (r: Result<WavFile, hound::Error>)
    ensures
        match r {
            Ok(w) => wav_file(bytes@) == Some(w@),
            Err(_) => wav_file(bytes@) is None,
        },
        r matches Ok(w) ==> (w@.content matches WavContentView::Float { data_at, file, .. } ==> file
            == bytes@ && 4 <= data_at <= bytes@.len()),
        forall|sample_rate: u32, channels: u16, samples: Seq<u32>|
            #[trigger] wav::is_float_wav(bytes@, sample_rate, channels, samples) ==> r is Ok
                && r->Ok_0@ == (WavFileView {
                sample_rate,
                channels,
                bits_per_sample: wav::FLOAT_WAV_BITS,
                content: WavContentView::Float {
                    count: samples.len() as u32,
                    data_at: 68,
                    file: bytes@,
                },
            }),
{
    let reader = hound::WavReader::new(std::io::Cursor::new(bytes.clone()))?;
    let hound::WavSpec { channels, sample_rate, bits_per_sample, sample_format } = reader.spec();
    let content = match sample_format {
        hound::SampleFormat::Float => {
            let count = reader.len();
            let cursor = reader.into_inner();
            let data_at = cursor.position() as usize;
            WavContent::Float { count, data_at, file: cursor.into_inner() }
        },
        hound::SampleFormat::Int => WavContent::Integers(
            reader.into_samples().take(bytes.len()).map(|s| s.ok()).collect(),
        ),
    };
    Ok(WavFile { sample_rate, channels, bits_per_sample, content })
}

/// The number that the four bytes from `at` on stand for.
fn read_le32(file: &Vec<u8>, at: usize) -> (r: u32)
    requires
        at + 4 <= file@.len(),
    ensures
        r == le32_value(four_bytes(file@, at as int)),
{
    assert(file.len() == file@.len());
    let low: u32 = file[at] as u32 + 0x100 * file[at + 1] as u32;
    let high: u32 = file[at + 2] as u32 + 0x100 * file[at + 3] as u32;
    low + 0x1_0000 * high
}

/// The floating-point samples that can be read.
fn read_floats(file: &Vec<u8>, data_at: usize, count: u32, bits_per_sample: u16) -> (r: Vec<u32>)
    ensures
        r@ == float_samples(file@, data_at as int, count, bits_per_sample),
{
    let mut out: Vec<u32> = Vec::new();
    if bits_per_sample != wav::FLOAT_WAV_BITS || count == 0 || data_at < 4 || data_at
        > file.len() {
        return out;
    }
    if read_le32(file, data_at - 4) / count != 4 {
        return out;
    }
    let size: usize = file.len();
    let mut at: usize = data_at;
    while out.len() < count as usize && size - at >= 4
        invariant
            size == file@.len(),
            data_at <= at <= size,
            at == data_at + 4 * out@.len(),
            out@.len() <= count,
            forall|k: int|
                0 <= k < out@.len() ==> #[trigger] out@[k] == le32_value(
                    four_bytes(file@, data_at + 4 * k),
                ) as u32,
        decreases size - at,
    {
        out.push(read_le32(file, at));
        at = at + 4;
    }
    assert(out@ =~= float_samples(file@, data_at as int, count, bits_per_sample));
    out
}

/// The integers that could be read.
fn keep_read(samples: &Vec<Option<i32>>) -> (r: Vec<i32>)
    ensures
        r@ == read_integers(samples@),
{
    let mut out: Vec<i32> = Vec::new();
    let mut i: usize = 0;
    assert(samples@.take(0) =~= seq![]);
    while i < samples.len()
        invariant
            i <= samples@.len(),
            out@ == read_integers(samples@.take(i as int)),
        decreases samples@.len() - i,
    {
        assert(samples@.take(i + 1).drop_last() =~= samples@.take(i as int));
        if let Some(s) = samples[i] {
            out.push(s);
        }
        i = i + 1;
    }
    assert(samples@.take(i as int) =~= samples@);
    out
}

/// The recording that a WAV file holds: single-precision samples as patterns,
/// integer samples as the integers that could be read, with their bit depth.
pub fn wav_samples(w: &WavFile) -> (r: AudioData)
    ensures
        r@ == loaded(w@),
{
    let samples = match &w.content {
        WavContent::Float { count, data_at, file } => AudioSamples::Patterns(
            read_floats(file, *data_at, *count, w.bits_per_sample),
        ),
        WavContent::Integers(samples) => AudioSamples::Integers {
            samples: keep_read(samples),
            bits: w.bits_per_sample,
        },
    };
    AudioData { sample_rate: w.sample_rate, channels: w.channels, samples }
}

/// Four bytes stand for the number that they were made from.
proof fn lemma_le32_value(x: int)
    requires
        0 <= x <= u32::MAX,
    ensures
        le32_value(wav::le32(x)) == x,
        wav::le32(x).len() == 4,
{
    let low = x % 0x1_0000;
    let high = x / 0x1_0000;
    let b = wav::le32(x);
    assert(b[0] == (low % 256) as u8);
    assert(b[1] == (low / 256 % 256) as u8);
    assert(b[2] == (high % 256) as u8);
    assert(b[3] == (high / 256 % 256) as u8);
}

/// The samples of a file of single-precision samples are the ones that it was
/// made from.
proof fn lemma_float_samples(bytes: Seq<u8>, sample_rate: u32, channels: u16, samples: Seq<u32>)
    requires
        wav::is_float_wav(bytes, sample_rate, channels, samples),
    ensures
        float_samples(bytes, 68, samples.len() as u32, wav::FLOAT_WAV_BITS) == samples,
{
    let n = samples.len() as int;
    let header = wav::float_wav_header(sample_rate as int, channels as int, n);
    wav::lemma_float_wav_header(sample_rate as int, channels as int, n);
    wav::lemma_pattern_bytes(samples);
    let data = wav::pattern_bytes(samples);
    let read = float_samples(bytes, 68, samples.len() as u32, wav::FLOAT_WAV_BITS);
    if n > 0 {
        assert(four_bytes(bytes, 64) =~= header.subrange(64, 68));
        lemma_le32_value(4 * n);
        assert(sample_width(bytes, 68, n as u32) == 4) by {
            assert(4 * n / n == 4) by (nonlinear_arith)
                requires
                    n > 0,
            ;
        }
        assert forall|i: int| 0 <= i < n implies #[trigger] read[i] == samples[i] by {
            assert(four_bytes(bytes, 68 + 4 * i) =~= data.subrange(4 * i, 4 * i + 4));
            lemma_le32_value(samples[i] as int);
        }
    }
    assert(read =~= samples);
}

/// Reads a recording from the bytes of a WAV file. A file that
/// [`wav::encode_float_wav`] wrote gives back the samples that it was made from.
pub fn load_audio(bytes: &Vec<u8>) -> (r: Result<AudioData, WavError>)
    ensures
        match r {
            Ok(a) => holds(bytes@, a@),
            Err(e) => e is Read && wav_file(bytes@) is None,
        },
        forall|sample_rate: u32, channels: u16, samples: Seq<u32>|
            #[trigger] wav::is_float_wav(bytes@, sample_rate, channels, samples) ==> r is Ok
                && r->Ok_0@ == (AudioView {
                sample_rate,
                channels,
                samples: AudioSamplesView::Patterns(samples),
            }),
{
    let read = read_wav(bytes);
    proof {
        assert forall|sample_rate: u32, channels: u16, samples: Seq<u32>| #[trigger]
            wav::is_float_wav(bytes@, sample_rate, channels, samples) implies read is Ok && loaded(
            read->Ok_0@,
        ) == (AudioView {
            sample_rate,
            channels,
            samples: AudioSamplesView::Patterns(samples),
        }) by {
            lemma_float_samples(bytes@, sample_rate, channels, samples);
        }
    }
    match read {
        Ok(w) => Ok(wav_samples(&w)),
        Err(e) => Err(WavError::Read(e)),
    }
}

// ── Laws ─────────────────────────────────────────────────────────────────────

/// The single-precision samples of a file stand in four bytes each from the start
/// of the data on, the low byte first: as many as are announced, or as there are
/// bytes for. Where a sample has not 32 bits, or does not take four bytes by the
/// size that stands before the data, there are none.
pub proof fn law_single_precision_samples_in_bytes(
    file: Seq<u8>,
    data_at: int,
    count: u32,
    bits_per_sample: u16,
)
    ensures
        ({
            let samples = float_samples(file, data_at, count, bits_per_sample);
            let value = |at: int|
                file[at] + 0x100 * file[at + 1] + 0x1_0000 * file[at + 2] + 0x100_0000 * file[at
                    + 3];
            if bits_per_sample == 32 && count > 0 && 4 <= data_at <= file.len() && value(
                data_at - 4,
            ) / count as int == 4 {
                &&& samples.len() <= count
                &&& 4 * samples.len() <= file.len() - data_at
                &&& samples.len() < count ==> file.len() - data_at < 4 * (samples.len() + 1)
                &&& forall|i: int|
                    0 <= i < samples.len() ==> #[trigger] samples[i] == value(data_at + 4 * i)
            } else {
                samples.len() == 0
            }
        }),
{
    if 4 <= data_at <= file.len() {
        assert(four_bytes(file, data_at - 4)[0] == file[data_at - 4]);
        let samples = float_samples(file, data_at, count, bits_per_sample);
        assert forall|i: int| 0 <= i < samples.len() implies #[trigger] samples[i] == file[data_at
            + 4 * i] + 0x100 * file[data_at + 4 * i + 1] + 0x1_0000 * file[data_at + 4 * i + 2]
            + 0x100_0000 * file[data_at + 4 * i + 3] by {
            let b = four_bytes(file, data_at + 4 * i);
            assert(b[0] == file[data_at + 4 * i]);
        }
    }
}

/// Every integer that could be read is kept, in order, and what could not be
/// read is left out.
pub proof fn law_readable_integers_are_kept(
    a: Seq<Option<i32>>,
    b: Seq<Option<i32>>,
    n: i32,
)
    ensures
        read_integers(seq![]) == Seq::<i32>::empty(),
        read_integers(seq![Some(n)]) == seq![n],
        read_integers(seq![None]) == Seq::<i32>::empty(),
        read_integers(a + b) == read_integers(a) + read_integers(b),
    decreases b.len(),
{
    reveal_with_fuel(read_integers, 2);
    assert(seq![Some(n)].drop_last() =~= seq![]);
    assert(seq![None::<i32>].drop_last() =~= seq![]);
    assert(read_integers(seq![Some(n)]) =~= seq![n]);
    if b.len() == 0 {
        assert(a + b =~= a);
        assert(read_integers(a) + read_integers(b) =~= read_integers(a));
    } else {
        law_readable_integers_are_kept(a, b.drop_last(), n);
        assert((a + b).drop_last() =~= a + b.drop_last());
        assert((a + b).last() == b.last());
        assert(read_integers(a + b) =~= read_integers(a) + read_integers(b));
    }
}

/// A recording has the file's sample rate and channels, and of integers the
/// file's bit depth.
pub proof fn law_format_of_a_recording(w: WavFileView)
    ensures
        loaded(w).sample_rate == w.sample_rate,
        loaded(w).channels == w.channels,
        w.content matches WavContentView::Integers(samples) ==> loaded(w).samples
            == (AudioSamplesView::Integers {
            samples: read_integers(samples),
            bits: w.bits_per_sample,
        }),
        w.content matches WavContentView::Float { count, data_at, file } ==> loaded(w).samples
            == AudioSamplesView::Patterns(
            float_samples(file, data_at, count, w.bits_per_sample),
        ),
{
}

/// A file holds exactly one recording: the one that its format and samples give.
pub proof fn law_file_holds_its_samples(bytes: Seq<u8>, audio: AudioView)
    ensures
        holds(bytes, audio) <==> wav_file(bytes) is Some && audio == loaded(wav_file(bytes)->0),
{
}

/// The parts of a file and of a recording are read as they are.
pub proof fn law_views_hold_the_samples(w: WavFile, a: AudioData)
    ensures
        w@.sample_rate == w.sample_rate,
        w@.channels == w.channels,
        w@.bits_per_sample == w.bits_per_sample,
        w.content matches WavContent::Float { count, data_at, file } ==> w@.content
            == (WavContentView::Float { count, data_at: data_at as int, file: file@ }),
        w.content matches WavContent::Integers(samples) ==> w@.content
            == WavContentView::Integers(samples@),
        a@.sample_rate == a.sample_rate,
        a@.channels == a.channels,
        a.samples matches AudioSamples::Patterns(p) ==> a@.samples
            == AudioSamplesView::Patterns(p@),
        a.samples matches AudioSamples::Integers { samples, bits } ==> a@.samples
            == (AudioSamplesView::Integers { samples: samples@, bits }),
{
}

}
