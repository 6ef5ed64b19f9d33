use wakew::wakew_microbit::celebration::{
    jingle, note_pwm, smiley_columns, Celebration, CelebrationAction, CELEBRATION_STEPS,
};

#[test]
fn smiley_rows() {
    assert_eq!(smiley_columns(0), [true, true, true, true, true]);
    assert_eq!(smiley_columns(1), [true, false, true, false, true]);
    assert_eq!(smiley_columns(2), [true, true, true, true, true]);
    assert_eq!(smiley_columns(3), [false, true, true, true, false]);
    assert_eq!(smiley_columns(4), [true, false, false, false, true]);
}

#[test]
fn note_settings() {
    assert_eq!(note_pwm(523), (1912, 956));
    assert_eq!(note_pwm(1047), (955, 477));
    // below 16 Hz the period no longer fits the 16-bit register
    assert_eq!(note_pwm(15), ((1_000_000u32 / 15) as u16, ((1_000_000u32 / 15) as u16) / 2));
}

#[test]
fn jingle_notes() {
    assert_eq!(jingle(), [(523, 150), (659, 150), (784, 150), (1047, 500)]);
}

#[test]
fn celebration_runs_its_steps_and_starts_over() {
    let mut c = Celebration::new();
    let expected = [
        CelebrationAction::EnableSpeaker,
        CelebrationAction::PlayNote { top: 1912, duty: 956, duration_ms: 150 },
        CelebrationAction::PlayNote { top: 1517, duty: 758, duration_ms: 150 },
        CelebrationAction::PlayNote { top: 1275, duty: 637, duration_ms: 150 },
        CelebrationAction::PlayNote { top: 955, duty: 477, duration_ms: 500 },
        CelebrationAction::DisableSpeaker,
        CelebrationAction::ShowSmiley { duration_ms: 2000 },
        CelebrationAction::Rearm,
    ];
    assert_eq!(expected.len(), CELEBRATION_STEPS);
    for _ in 0..2 {
        for e in expected.iter() {
            assert_eq!(c.next_action(), *e);
        }
    }
}
