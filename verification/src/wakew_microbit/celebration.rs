//! What the firmware shows and plays when it hears the wake word: a smiley on
//! the 5x5 LED matrix and a short jingle on the speaker.
//!
//! The hardware is driven elsewhere; this module decides the pin levels of the
//! matrix and the order and settings of the celebration's steps.

use vstd::prelude::*;

verus! {

/// Number of rows, and of columns, of the LED matrix.
pub const MATRIX_SIZE: usize = 5;

/// How long the smiley stays on after the jingle, in milliseconds.
pub const SMILEY_HOLD_MS: u64 = 2000;

/// Frequency of the PWM counter that drives the speaker (the default prescaler
/// divides the 16 MHz clock by 16).
pub const PWM_COUNTER_HZ: u32 = 1_000_000;

/// Whether the LED at row `r`, column `c` belongs to the smiley: the eyes in
/// row 1, the corners of the mouth in row 3 and the mouth in row 4.
pub open spec fn smiley_lit(r: int, c: int) -> bool {
    ||| r == 1 && (c == 1 || c == 3)
    ||| r == 3 && (c == 0 || c == 4)
    ||| r == 4 && (1 <= c <= 3)
}

/// The note `k` of the jingle: its frequency in Hz and its duration in
/// milliseconds (C5, E5, G5, then a long C6).
pub open spec fn jingle_note(k: int) -> (u32, u64) {
    if k == 0 {
        (523, 150)
    } else if k == 1 {
        (659, 150)
    } else if k == 2 {
        (784, 150)
    } else {
        (1047, 500)
    }
}

/// Number of notes of the jingle.
pub const JINGLE_LEN: usize = 4;

/// The jingle played on detection: (frequency Hz, duration ms).
pub fn jingle() -> (notes: [(u32, u64); 4])
    ensures
        forall|k: int| 0 <= k < 4 ==> notes@[k] == jingle_note(k),
{
    [(523, 150), (659, 150), (784, 150), (1047, 500)]
}

/// The levels of the column pins while row `r` of the smiley is lit. Columns
/// are active low: `false` (low) lights the LED of that column in the row.
pub fn smiley_columns(r: usize) -> (levels: [bool; 5])
    requires
        r < MATRIX_SIZE,
    ensures
        forall|c: int| 0 <= c < 5 ==> levels@[c] == !smiley_lit(r as int, c),
{
    let mut levels = [true; 5];
    let mut c: usize = 0;
    while c < MATRIX_SIZE
        invariant
            r < 5,
            c <= 5,
            forall|k: int| 0 <= k < c ==> levels@[k] == !smiley_lit(r as int, k),
        decreases 5 - c,
    {
        let eye = r == 1 && (c == 1 || c == 3);
        let mouth_corner = r == 3 && (c == 0 || c == 4);
        let mouth = r == 4 && 1 <= c && c <= 3;
        let lit = eye || mouth_corner || mouth;
        levels[c] = !lit;
        c += 1;
    }
    levels
}

/// The PWM settings of a note: the counter top (one period of the note, in
/// counter ticks, truncated to 16 bits as the PWM register holds it) and the
/// duty (half the top, a square wave).
pub fn note_pwm(freq: u32) -> (settings: (u16, u16))
    requires
        0 < freq,
    ensures
        settings.0 == (PWM_COUNTER_HZ / freq) as u16,
        settings.1 == settings.0 / 2,
{
    let top = (PWM_COUNTER_HZ / freq) as u16;
    (top, top / 2)
}

/// One step of a celebration.
#[derive(Debug, Clone, Copy, PartialEq, Eq, Structural)]
pub enum CelebrationAction {
    /// Switch the speaker's PWM on.
    EnableSpeaker,
    /// Play a note (set the PWM top and duty) while showing the smiley for
    /// the note's duration.
    PlayNote { top: u16, duty: u16, duration_ms: u64 },
    /// Switch the speaker's PWM off.
    DisableSpeaker,
    /// Show the smiley, silently, for a while.
    ShowSmiley { duration_ms: u64 },
    /// The celebration is over: clear the detection and wait for the next.
    Rearm,
}

/// Number of steps of one celebration.
pub const CELEBRATION_STEPS: usize = 8;

/// The step `k` of a celebration: switch the speaker on, play the jingle note
/// by note, switch the speaker off, show the smiley for a while, re-arm.
pub open spec fn celebration_action(k: int) -> CelebrationAction {
    if k == 0 {
        CelebrationAction::EnableSpeaker
    } else if 1 <= k <= 4 {
        CelebrationAction::PlayNote {
            top: (PWM_COUNTER_HZ / jingle_note(k - 1).0) as u16,
            duty: ((PWM_COUNTER_HZ / jingle_note(k - 1).0) as u16) / 2,
            duration_ms: jingle_note(k - 1).1,
        }
    } else if k == 5 {
        CelebrationAction::DisableSpeaker
    } else if k == 6 {
        CelebrationAction::ShowSmiley { duration_ms: SMILEY_HOLD_MS }
    } else {
        CelebrationAction::Rearm
    }
}

/// Of the steps of a celebration only the last re-arms (so one detection gives
/// one whole celebration), and every note is played as a square wave.
pub proof fn lemma_celebration_cycle(step: nat)
    requires
        step < CELEBRATION_STEPS,
    ensures
        celebration_action(step as int) is Rearm <==> step == CELEBRATION_STEPS - 1,
        celebration_action(step as int) matches CelebrationAction::PlayNote { top, duty, .. }
            ==> duty == top / 2,
{
}

/// The progress of the celebration that runs on each detection.
pub struct Celebration {
    step: usize,
}

impl Celebration {
    /// The step that comes next.
    pub closed spec fn next_step(&self) -> nat {
        self.step as nat
    }

    /// The celebration's own consistency: its step is one of the steps.
    pub closed spec fn wf(&self) -> bool {
        self.step < CELEBRATION_STEPS
    }

    /// A celebration waiting at its first step.
    pub fn new() -> (c: Self)
        ensures
            c.wf(),
            c.next_step() == 0,
    {
        Celebration { step: 0 }
    }

    /// The next step of the celebration; after the last step it starts over.
    pub fn next_action(&mut self) -> (action: CelebrationAction)
        requires
            old(self).wf(),
        ensures
            final(self).wf(),
            action == celebration_action(old(self).next_step() as int),
            final(self).next_step() == (old(self).next_step() + 1) % (CELEBRATION_STEPS as nat),
    {
        let k = self.step;
        self.step = if k + 1 < CELEBRATION_STEPS {
            k + 1
        } else {
            0
        };
        if k == 0 {
            CelebrationAction::EnableSpeaker
        } else if k <= JINGLE_LEN {
            let notes = jingle();
            let (freq, duration_ms) = notes[k - 1];
            let (top, duty) = note_pwm(freq);
            CelebrationAction::PlayNote { top, duty, duration_ms }
        } else if k == 5 {
            CelebrationAction::DisableSpeaker
        } else if k == 6 {
            CelebrationAction::ShowSmiley { duration_ms: SMILEY_HOLD_MS }
        } else {
            CelebrationAction::Rearm
        }
    }
}

} // verus!
