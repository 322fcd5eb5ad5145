use open_flow::audio::{choose_device, is_supported, recording_seconds};
use open_flow::audio::{AudioInfo, DeviceChoice, RecordingData, SampleFormat};

#[test]
fn preferred_microphone_first() {
    let names = |list: &[&str]| list.iter().map(|n| Some(n.to_string())).collect::<Vec<_>>();
    assert_eq!(choose_device(&vec![]), DeviceChoice::Default);
    assert_eq!(choose_device(&names(&["USB", "macbook pro"])), DeviceChoice::Default);
    assert_eq!(
        choose_device(&names(&["USB", "MacBook Pro Microphone", "MacBook Pro"])),
        DeviceChoice::Preferred(1)
    );
    assert_eq!(
        choose_device(&vec![None, Some("My MacBook Pro".to_string())]),
        DeviceChoice::Preferred(1)
    );
    assert_eq!(choose_device(&vec![None]), DeviceChoice::Default);
}

#[test]
fn sample_formats() {
    assert!(is_supported(SampleFormat::F32));
    assert!(is_supported(SampleFormat::I16));
    assert!(is_supported(SampleFormat::U16));
    assert!(!is_supported(SampleFormat::Unsupported));
    let info = AudioInfo { sample_rate: 48000, channels: 2, sample_format: "F32".to_string() };
    assert_eq!(info.clone().sample_rate, 48000);
}

#[test]
fn samples_after_the_end_are_dropped() {
    let mut data = RecordingData::started();
    data.take_in(&vec![1, 2]);
    data.take_in(&vec![]);
    data.take_in(&vec![3]);
    assert!(data.finish());
    data.take_in(&vec![4]);
    assert_eq!(data.buffer, vec![1, 2, 3]);
    assert!(!data.is_recording);
    let mut idle = RecordingData::default();
    idle.take_in(&vec![1]);
    assert!(!idle.finish());
}

#[test]
fn one_shot_length() {
    assert_eq!(recording_seconds(0), 10);
    assert_eq!(recording_seconds(3), 3);
}
