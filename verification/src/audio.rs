//! Audio capture: which device is used, and how a recording is made.
use crate::pcm;
use crate::text;
use vstd::prelude::*;

verus! {

/// What the name of the preferred microphone holds.
pub const PREFERRED_DEVICE: &'static str = "MacBook Pro";

/// The sample formats of audio devices.
#[derive(Debug, Clone, Copy, PartialEq, Eq, Structural)]
pub enum SampleFormat {
    F32,
    I16,
    U16,
    /// A format that is not recorded from.
    Unsupported,
}

/// Audio info
#[derive(Debug, Clone)]
pub struct AudioInfo {
    pub sample_rate: u32,
    pub channels: u16,
    pub sample_format: String,
}

/// Whether the device with the given name is the preferred one. A device without
/// a name is not.
pub open spec fn preferred(name: Option<Seq<char>>) -> bool {
    match name {
        Some(n) => text::has_text(n, PREFERRED_DEVICE@),
        None => false,
    }
}

/// The device to record from.
#[derive(Debug, Clone, Copy, PartialEq, Eq, Structural)]
pub enum DeviceChoice {
    /// The input device at this position.
    Preferred(usize),
    /// The system's default device.
    Default,
}

/// The first preferred device among the input devices with the given names, or
/// else the default device.
pub fn choose_device(names: &Vec<Option<String>>) -> (r: DeviceChoice)
    ensures
        match r {
            DeviceChoice::Preferred(i) => {
                &&& i < names@.len()
                &&& preferred(text::opt_view(names@[i as int]))
                &&& forall|j: int|
                    0 <= j < i ==> !preferred(text::opt_view(#[trigger] names@[j]))
            },
            DeviceChoice::Default => forall|j: int|
                0 <= j < names@.len() ==> !preferred(
                    text::opt_view(#[trigger] names@[j]),
                ),
        },
{
    let mut i: usize = 0;
    while i < names.len()
        invariant
            i <= names@.len(),
            forall|j: int|
                0 <= j < i ==> !preferred(text::opt_view(#[trigger] names@[j])),
        decreases names@.len() - i,
    {
        if let Some(name) = &names[i] {
            if text::contains(name.as_str(), PREFERRED_DEVICE) {
                return DeviceChoice::Preferred(i);
            }
        }
        i = i + 1;
    }
    DeviceChoice::Default
}

/// Whether a device's format can be recorded from.
pub fn is_supported(format: SampleFormat) -> (r: bool)
    ensures
        r == (format != SampleFormat::Unsupported),
{
    match format {
        SampleFormat::Unsupported => false,
        _ => true,
    }
}

/// Recording data: samples, as bit patterns of single-precision numbers (see
/// [`crate::single`]), that are taken in while the recording goes on.
pub struct RecordingData {
    pub buffer: Vec<u32>,
    pub is_recording: bool,
}

impl Default for RecordingData {
    fn default() -> (r: RecordingData)
        ensures
            r.buffer@.len() == 0,
            !r.is_recording,
    {
        RecordingData { buffer: Vec::new(), is_recording: false }
    }
}

impl RecordingData {
    /// A recording that goes on, with no samples yet.
    pub fn started() -> (r: RecordingData)
        ensures
            r.buffer@.len() == 0,
            r.is_recording,
    {
        RecordingData { buffer: Vec::new(), is_recording: true }
    }

    /// Takes in samples from the device. Those that come after the recording has
    /// ended are dropped.
    pub fn take_in(&mut self, samples: &Vec<u32>)
        ensures
            final(self).is_recording == old(self).is_recording,
            final(self).buffer@ == (if old(self).is_recording {
                old(self).buffer@ + samples@
            } else {
                old(self).buffer@
            }),
    {
        if !self.is_recording {
            return;
        }
        let mut i: usize = 0;
        assert(self.buffer@ =~= old(self).buffer@ + samples@.take(0));
        while i < samples.len()
            invariant
                i <= samples@.len(),
                self.is_recording == old(self).is_recording,
                self.buffer@ == old(self).buffer@ + samples@.take(i as int),
            decreases samples@.len() - i,
        {
            self.buffer.push(samples[i]);
            assert(samples@.take(i + 1) =~= samples@.take(i as int).push(samples@[i as int]));
            i = i + 1;
            assert(self.buffer@ =~= old(self).buffer@ + samples@.take(i as int));
        }
        assert(samples@.take(i as int) =~= samples@);
    }

    /// Takes in sixteen-bit samples from the device, each as its fraction of
    /// 32768.
    pub fn take_in_i16(&mut self, samples: &Vec<i16>)
        ensures
            final(self).is_recording == old(self).is_recording,
            old(self).is_recording ==> {
                let before = old(self).buffer@;
                let after = final(self).buffer@;
                &&& after.len() == before.len() + samples@.len()
                &&& after.take(before.len() as int) == before
                &&& forall|i: int|
                    #![trigger samples@[i]]
                    0 <= i < samples@.len() ==> pcm::is_sample_of(
                        after[before.len() + i],
                        samples@[i] as int,
                    )
            },
            !old(self).is_recording ==> final(self).buffer == old(self).buffer,
    {
        if !self.is_recording {
            return;
        }
        let ghost before = self.buffer@;
        let mut i: usize = 0;
        while i < samples.len()
            invariant
                i <= samples@.len(),
                self.is_recording == old(self).is_recording,
                self.buffer@.len() == before.len() + i,
                self.buffer@.take(before.len() as int) =~= before,
                forall|k: int|
                    #![trigger samples@[k]]
                    0 <= k < i ==> pcm::is_sample_of(
                        self.buffer@[before.len() + k],
                        samples@[k] as int,
                    ),
            decreases samples@.len() - i,
        {
            self.buffer.push(pcm::sample_of(samples[i] as i32));
            i = i + 1;
        }
    }

    /// Takes in unsigned sixteen-bit samples from the device, each as its
    /// distance from 32768 in fractions of 32768.
    pub fn take_in_u16(&mut self, samples: &Vec<u16>)
        ensures
            final(self).is_recording == old(self).is_recording,
            old(self).is_recording ==> {
                let before = old(self).buffer@;
                let after = final(self).buffer@;
                &&& after.len() == before.len() + samples@.len()
                &&& after.take(before.len() as int) == before
                &&& forall|i: int|
                    #![trigger samples@[i]]
                    0 <= i < samples@.len() ==> pcm::is_sample_of(
                        after[before.len() + i],
                        samples@[i] - 32768,
                    )
            },
            !old(self).is_recording ==> final(self).buffer == old(self).buffer,
    {
        if !self.is_recording {
            return;
        }
        let ghost before = self.buffer@;
        let mut i: usize = 0;
        while i < samples.len()
            invariant
                i <= samples@.len(),
                self.is_recording == old(self).is_recording,
                self.buffer@.len() == before.len() + i,
                self.buffer@.take(before.len() as int) =~= before,
                forall|k: int|
                    #![trigger samples@[k]]
                    0 <= k < i ==> pcm::is_sample_of(
                        self.buffer@[before.len() + k],
                        samples@[k] - 32768,
                    ),
            decreases samples@.len() - i,
        {
            self.buffer.push(pcm::sample_of(samples[i] as i32 - 32768));
            i = i + 1;
        }
    }

    /// Ends the recording. Returns whether anything was recorded.
    pub fn finish(&mut self) -> (recorded: bool)
        ensures
            !final(self).is_recording,
            final(self).buffer == old(self).buffer,
            recorded == (old(self).buffer@.len() > 0),
    {
        self.is_recording = false;
        self.buffer.len() > 0
    }
}

/// How long a one-shot recording lasts, in seconds, where `asked` seconds were
/// asked for: ten where no length was given.
pub fn recording_seconds(asked: u64) -> (r: u64)
    ensures
        r == (if asked == 0 {
            10
        } else {
            asked
        }),
{
    if asked == 0 {
        10
    } else {
        asked
    }
}

// ── Laws ─────────────────────────────────────────────────────────────────────

/// A device is the preferred one wherever in its name `MacBook Pro` stands, and
/// only then.
pub proof fn law_preferred_device_by_name(before: Seq<char>, after: Seq<char>, name: Seq<char>)
    ensures
        preferred(Some(before + "MacBook Pro"@ + after)),
        preferred(Some(name)) ==> exists|a: Seq<char>, b: Seq<char>|
            name == #[trigger] (a + "MacBook Pro"@ + b),
        !preferred(None),
{
    text::law_text_is_found(before, "MacBook Pro"@, after);
    if preferred(Some(name)) {
        text::law_found_text_is_there(name, "MacBook Pro"@);
    }
}

}
