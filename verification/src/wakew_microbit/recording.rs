//! Capturing a fixed-length clip of microphone samples and dumping it as hex
//! text, from which the reference clips of a wake word are made.

use vstd::prelude::*;

verus! {

/// Number of samples in one recorded clip (1.125 s at 16 kHz).
pub const SAMPLES: usize = 18000;

/// The byte representation of a sample, least significant byte first.
///
/// Calls `i16::to_le_bytes`, which returns the memory representation of the
/// integer in little-endian byte order: the low byte, then the high byte of
/// its two's complement bit pattern. The contract says that and nothing more.
#[verifier::external_body]
fn sample_le_bytes(x: i16) -> (r: [u8; 2])
    ensures
        r@ == seq![((x as u16) % 256) as u8, ((x as u16) / 256) as u8],
{
    x.to_le_bytes()
}

/// A 12-bit converter sample moved to the top of the 16-bit range.
pub open spec fn scale_sample(x: i16) -> i16 {
    x << 4i16
}

/// The scaled samples of a DMA buffer of one channel.
pub open spec fn scaled_samples(b: Seq<[i16; 1]>) -> Seq<i16> {
    Seq::new(b.len(), |i: int| scale_sample(b[i]@[0]))
}

/// What the converter is told after a buffer has been recorded.
#[derive(Debug, Clone, Copy, PartialEq, Eq, Structural)]
pub enum RecordingStatus {
    /// The clip is not full yet: keep sampling.
    Continue,
    /// The clip is full: stop sampling.
    Stop,
}

/// A clip being recorded: a fixed number of sample slots, filled from the
/// front. The view is the samples recorded so far.
pub struct Recording<const N: usize> {
    final_buf: [i16; N],
    written: usize,
}

impl<const N: usize> View for Recording<N> {
    type V = Seq<i16>;

    closed spec fn view(&self) -> Seq<i16> {
        self.final_buf@.take(self.written as int)
    }
}

/// The zero samples that fill the slots of a clip not recorded yet.
pub open spec fn silence(len: nat) -> Seq<i16> {
    Seq::new(len, |i: int| 0i16)
}

impl<const N: usize> Recording<N> {
    /// The clip's own consistency: the slots past the recorded samples are
    /// still zero.
    pub closed spec fn wf(&self) -> bool {
        &&& self.written <= N
        &&& forall|k: int| self.written <= k < N ==> self.final_buf@[k] == 0
    }

    /// A well-formed clip never holds more samples than it has slots.
    pub proof fn lemma_len_bounded(&self)
        requires
            self.wf(),
        ensures
            self@.len() <= N,
    {
    }

    /// An empty clip of `N` zero samples.
    pub fn new() -> (r: Self)
        ensures
            r.wf(),
            r@ == Seq::<i16>::empty(),
    {
        let r = Recording { final_buf: [0i16; N], written: 0 };
        proof {
            assert(r@ =~= Seq::<i16>::empty());
        }
        r
    }

    /// Stores the scaled samples of one DMA buffer behind those recorded so
    /// far, as many as still fit, and says whether to keep sampling.
    pub fn record(&mut self, b: &[[i16; 1]]) -> (status: RecordingStatus)
        requires
            old(self).wf(),
        ensures
            final(self).wf(),
            final(self)@ == old(self)@ + scaled_samples(b@).take(
                if b@.len() <= N - old(self)@.len() {
                    b@.len() as int
                } else {
                    N - old(self)@.len()
                },
            ),
            status == (if final(self)@.len() < N {
                RecordingStatus::Continue
            } else {
                RecordingStatus::Stop
            }),
    {
        let offset = b.len().min(N - self.written);
        let mut i: usize = 0;
        while i < offset
            invariant
                self.written == old(self).written,
                self.written + offset <= N,
                offset <= b@.len(),
                i <= offset,
                forall|k: int| 0 <= k < self.written ==> self.final_buf@[k] == old(self).final_buf@[k],
                forall|k: int|
                    0 <= k < i ==> self.final_buf@[self.written + k] == scale_sample(b@[k]@[0]),
                forall|k: int| self.written + i <= k < N ==> self.final_buf@[k] == 0,
            decreases offset - i,
        {
            self.final_buf[self.written + i] = b[i][0] << 4i16;
            i += 1;
        }
        self.written += offset;
        proof {
            assert(self@ =~= old(self)@ + scaled_samples(b@).take(offset as int));
        }
        if self.written < N {
            RecordingStatus::Continue
        } else {
            RecordingStatus::Stop
        }
    }

    /// All slots of the clip: the recorded samples, then zeros.
    pub fn buffer(&self) -> (r: &[i16; N])
        requires
            self.wf(),
        ensures
            r@ == self@ + silence((N - self@.len()) as nat),
    {
        proof {
            assert(self.final_buf@ =~= self@ + silence((N - self@.len()) as nat));
        }
        &self.final_buf
    }
}

/// The ASCII code of the lowercase hex digit of `d` (below 16).
pub open spec fn hex_digit(d: u8) -> u8 {
    if d < 10 {
        (48 + d) as u8
    } else {
        (87 + d) as u8
    }
}

/// The two lowercase hex digits of a byte, high nibble first.
pub open spec fn byte_hex(x: u8) -> Seq<u8> {
    seq![hex_digit(x / 16), hex_digit(x % 16)]
}

/// The four hex digits of a sample: its low byte, then its high byte.
pub open spec fn sample_hex(x: i16) -> Seq<u8> {
    byte_hex(((x as u16) % 256) as u8) + byte_hex(((x as u16) / 256) as u8)
}

/// The hex text of a clip: the digits of each sample in turn.
pub open spec fn clip_hex(samples: Seq<i16>) -> Seq<u8> {
    Seq::new(samples.len() * 4, |p: int| sample_hex(samples[p / 4])[p % 4])
}

/// Each digit of the dump is the lowercase hexadecimal digit of its nibble:
/// the character at that position of `0123456789abcdef`.
pub proof fn lemma_hex_digit_is_lowercase_hex(d: u8)
    requires
        d < 16,
    ensures
        hex_digit(d) as char == "0123456789abcdef"@[d as int],
{
    reveal_strlit("0123456789abcdef");
    assert(d == 0 || d == 1 || d == 2 || d == 3 || d == 4 || d == 5 || d == 6 || d == 7 || d == 8
        || d == 9 || d == 10 || d == 11 || d == 12 || d == 13 || d == 14 || d == 15);
}

/// Reading the four digits of a sample as lowercase hexadecimal gives back
/// its bytes: the first two spell the low byte, the last two the high byte,
/// high nibble first, and the two bytes make up the sample's bit pattern.
pub proof fn lemma_sample_hex_spells_bytes(x: i16)
    ensures
        ({
            let lo = (x as u16) as int % 256;
            let hi = (x as u16) as int / 256;
            let digits = sample_hex(x);
            &&& digits.len() == 4
            &&& digits[0] as char == "0123456789abcdef"@[lo / 16]
            &&& digits[1] as char == "0123456789abcdef"@[lo % 16]
            &&& digits[2] as char == "0123456789abcdef"@[hi / 16]
            &&& digits[3] as char == "0123456789abcdef"@[hi % 16]
            &&& lo + 256 * hi == x as u16
        }),
{
    let lo = ((x as u16) % 256) as u8;
    let hi = ((x as u16) / 256) as u8;
    lemma_hex_digit_is_lowercase_hex(lo / 16);
    lemma_hex_digit_is_lowercase_hex(lo % 16);
    lemma_hex_digit_is_lowercase_hex(hi / 16);
    lemma_hex_digit_is_lowercase_hex(hi % 16);
}

/// A converter sample of 12 significant bits is scaled by 16 exactly: the shift
/// loses nothing.
pub proof fn lemma_scale_twelve_bit_sample(x: i16)
    requires
        -2048 <= x < 2048,
    ensures
        scale_sample(x) == x * 16,
{
    assert(-2048 <= x < 2048 ==> x << 4i16 == x * 16) by (bit_vector);
}

proof fn lemma_byte_hex_injective(x: u8, y: u8)
    requires
        byte_hex(x) == byte_hex(y),
    ensures
        x == y,
{
    assert(byte_hex(x)[0] == byte_hex(y)[0]);
    assert(byte_hex(x)[1] == byte_hex(y)[1]);
}

proof fn lemma_sample_hex_injective(x: i16, y: i16)
    requires
        sample_hex(x) == sample_hex(y),
    ensures
        x == y,
{
    let xl = ((x as u16) % 256) as u8;
    let xh = ((x as u16) / 256) as u8;
    let yl = ((y as u16) % 256) as u8;
    let yh = ((y as u16) / 256) as u8;
    assert(sample_hex(x).take(2) =~= byte_hex(xl));
    assert(sample_hex(y).take(2) =~= byte_hex(yl));
    assert(sample_hex(x).skip(2) =~= byte_hex(xh));
    assert(sample_hex(y).skip(2) =~= byte_hex(yh));
    lemma_byte_hex_injective(xl, yl);
    lemma_byte_hex_injective(xh, yh);
    assert((x as u16) == (y as u16));
    assert((x as u16) == (y as u16) ==> x == y) by (bit_vector);
}

/// The hex text of a clip is lossless: different clips never give the same
/// text, so the host recovers every sample.
pub proof fn lemma_clip_hex_lossless(a: Seq<i16>, b: Seq<i16>)
    requires
        clip_hex(a) == clip_hex(b),
    ensures
        a == b,
{
    assert(clip_hex(a).len() == a.len() * 4);
    assert(clip_hex(b).len() == b.len() * 4);
    assert(a.len() == b.len());
    assert forall|k: int| 0 <= k < a.len() implies a[k] == b[k] by {
        assert forall|r: int| 0 <= r < 4 implies sample_hex(a[k])[r] == sample_hex(b[k])[r] by {
            let p = 4 * k + r;
            assert(0 <= p < a.len() * 4);
            assert(p / 4 == k);
            assert(p % 4 == r);
            assert(clip_hex(a)[p] == sample_hex(a[k])[r]);
            assert(clip_hex(b)[p] == sample_hex(b[k])[r]);
        }
        assert(sample_hex(a[k]) =~= sample_hex(b[k]));
        lemma_sample_hex_injective(a[k], b[k]);
    }
    assert(a =~= b);
}

fn hex_digit_of(d: u8) -> (c: u8)
    requires
        d < 16,
    ensures
        c == hex_digit(d),
{
    if d < 10 {
        48 + d
    } else {
        87 + d
    }
}

/// The hex text in which a sample of a recorded clip is sent to the host: its
/// little-endian bytes, each as two lowercase hex digits. The text of a clip
/// is that of its samples in turn ([`clip_hex`]).
pub fn sample_to_hex(x: i16) -> (digits: [u8; 4])
    ensures
        digits@ == sample_hex(x),
{
    let b = sample_le_bytes(x);
    let lo = b[0];
    let hi = b[1];
    let digits = [hex_digit_of(lo / 16), hex_digit_of(lo % 16), hex_digit_of(hi / 16), hex_digit_of(hi % 16)];
    proof {
        assert(digits@ =~= sample_hex(x));
    }
    digits
}

} // verus!
