use wakew::wakew_microbit::recording::{sample_to_hex, Recording, RecordingStatus, SAMPLES};

fn clip_to_hex(samples: &[i16]) -> Vec<u8> {
    samples.iter().flat_map(|s| sample_to_hex(*s)).collect()
}

#[test]
fn recording_fills_from_the_front_and_stops_when_full() {
    let mut clip = Recording::<4>::new();
    assert_eq!(clip.buffer(), &[0, 0, 0, 0]);
    assert_eq!(clip.record(&[[1], [2], [3]]), RecordingStatus::Continue);
    assert_eq!(clip.buffer(), &[16, 32, 48, 0]);
    assert_eq!(clip.record(&[[4], [5], [6]]), RecordingStatus::Stop);
    assert_eq!(clip.buffer(), &[16, 32, 48, 64]);
    // a full clip takes nothing more
    assert_eq!(clip.record(&[[7]]), RecordingStatus::Stop);
    assert_eq!(clip.buffer(), &[16, 32, 48, 64]);
}

#[test]
fn empty_buffer_keeps_sampling() {
    let mut clip = Recording::<2>::new();
    assert_eq!(clip.record(&[]), RecordingStatus::Continue);
    assert_eq!(clip.buffer(), &[0, 0]);
}

#[test]
fn samples_are_shifted_to_sixteen_bits() {
    let mut clip = Recording::<4>::new();
    assert_eq!(clip.record(&[[-1], [2047], [-2048], [0x0fff]]), RecordingStatus::Stop);
    assert_eq!(clip.buffer(), &[-16, 32752, -32768, -16]);
}

#[test]
fn hex_dump_is_little_endian_lowercase() {
    assert_eq!(clip_to_hex(&[0x1234]), b"3412".to_vec());
    assert_eq!(clip_to_hex(&[-16]), b"f0ff".to_vec());
    assert_eq!(clip_to_hex(&[0, 0x00ab, -1]), b"0000ab00ffff".to_vec());
    assert_eq!(clip_to_hex(&[]), Vec::<u8>::new());
}

#[test]
fn hex_dump_decodes_back() {
    let samples = [0i16, 1, -1, 16, -32768, 32767, 0x7f80];
    let text = clip_to_hex(&samples);
    assert_eq!(text.len(), samples.len() * 4);
    for (k, s) in samples.iter().enumerate() {
        let t = std::str::from_utf8(&text[4 * k..4 * k + 4]).unwrap();
        let lo = u8::from_str_radix(&t[0..2], 16).unwrap();
        let hi = u8::from_str_radix(&t[2..4], 16).unwrap();
        assert_eq!(i16::from_le_bytes([lo, hi]), *s);
    }
}

#[test]
fn clip_length() {
    assert_eq!(SAMPLES, 18000);
    let clip = Recording::<SAMPLES>::new();
    assert_eq!(clip.buffer().len(), 18000);
}
