use wakew::embedded_wakew::mfcc_ring_buffer::MfccRingBuffer;
use wakew::embedded_wakew::utils::RingBuffer as FirstRingBuffer;
use wakew::embedded_wakew::utils::WakeWordError as FirstWakeWordError;
use wakew::wakew_microbit::utils::{RingBuffer, WakeWordError};

#[test]
fn window_needs_w_unread_items() {
    let mut buf = RingBuffer::<8, 4, 2, u32>::new(0);
    assert_eq!(buf.frame(), None);
    assert_eq!(buf.update(&[1, 2, 3]), Ok(()));
    assert_eq!(buf.frame(), None);
    assert_eq!(buf.update(&[4]), Ok(()));
    assert_eq!(buf.frame(), Some([1, 2, 3, 4]));
    // two items were dropped, two remain: not a whole window
    assert_eq!(buf.frame(), None);
}

#[test]
fn windows_slide_by_the_shift() {
    let mut buf = RingBuffer::<8, 4, 2, u32>::new(0);
    assert_eq!(buf.update(&[10, 11, 12, 13, 14, 15, 16, 17]), Ok(()));
    assert_eq!(buf.frame(), Some([10, 11, 12, 13]));
    assert_eq!(buf.frame(), Some([12, 13, 14, 15]));
    assert_eq!(buf.frame(), Some([14, 15, 16, 17]));
    assert_eq!(buf.frame(), None);
}

#[test]
fn consecutive_windows_overlap() {
    let mut buf = RingBuffer::<6, 5, 3, u8>::new(0);
    assert_eq!(buf.update(&[1, 2, 3, 4, 5, 6]), Ok(()));
    let first = buf.frame().unwrap();
    assert_eq!(buf.update(&[7, 8]), Ok(()));
    let second = buf.frame().unwrap();
    assert_eq!(first[3..], second[..2]);
    assert_eq!(second, [4, 5, 6, 7, 8]);
}

#[test]
fn overflowing_write_is_refused_and_writes_nothing() {
    let mut buf = RingBuffer::<4, 2, 1, i32>::new(-1);
    assert_eq!(buf.update(&[1, 2, 3]), Ok(()));
    assert_eq!(buf.update(&[4, 5]), Err(WakeWordError::WouldOverflow));
    assert_eq!(buf.frame(), Some([1, 2]));
    // one slot was freed by the shift: two more fit now
    assert_eq!(buf.update(&[4, 5]), Ok(()));
    assert_eq!(buf.frame(), Some([2, 3]));
    assert_eq!(buf.frame(), Some([3, 4]));
    assert_eq!(buf.frame(), Some([4, 5]));
    assert_eq!(buf.frame(), None);
}

#[test]
fn writes_wrap_round_the_ring() {
    let mut buf = RingBuffer::<3, 3, 3, u16>::new(0);
    assert_eq!(buf.update(&[1, 2]), Ok(()));
    assert_eq!(buf.update(&[3]), Ok(()));
    assert_eq!(buf.frame(), Some([1, 2, 3]));
    assert_eq!(buf.update(&[4, 5, 6]), Ok(()));
    assert_eq!(buf.update(&[7]), Err(WakeWordError::WouldOverflow));
    assert_eq!(buf.frame(), Some([4, 5, 6]));
}

#[test]
fn writing_more_keeps_a_ready_window() {
    let mut a = RingBuffer::<10, 3, 1, u8>::new(0);
    let mut b = RingBuffer::<10, 3, 1, u8>::new(0);
    assert_eq!(a.update(&[9, 8, 7, 6]), Ok(()));
    assert_eq!(b.update(&[9, 8, 7, 6]), Ok(()));
    assert_eq!(b.update(&[5, 4, 3]), Ok(()));
    assert_eq!(a.frame(), b.frame());
}

#[test]
fn error_message() {
    assert_eq!(WakeWordError::WouldOverflow.message(), "Update would overflow ringbuffer");
    assert_eq!(FirstWakeWordError::WouldOverflow.message(), "Update would overflow ringbuffer");
}

#[test]
fn first_buffer_hands_out_the_whole_ring_oldest_first() {
    let mut buf = FirstRingBuffer::<4, 1, u8>::new(0);
    assert_eq!(buf.frame(), None);
    assert_eq!(buf.update(&[1, 2, 3]), Ok(()));
    // written samples oldest first, then the slot not written yet
    assert_eq!(buf.frame(), Some([1, 2, 3, 0]));
    assert_eq!(buf.frame(), Some([1, 2, 3, 0]));
    assert_eq!(buf.frame(), Some([1, 2, 3, 0]));
    // every written sample has been passed by a read
    assert_eq!(buf.frame(), None);
}

#[test]
fn first_buffer_windows_stay_in_time_order_after_a_wrap() {
    let mut buf = FirstRingBuffer::<4, 2, i32>::new(0);
    assert_eq!(buf.update(&[1, 2, 3]), Ok(()));
    assert_eq!(buf.frame(), Some([1, 2, 3, 0]));
    assert_eq!(buf.update(&[4, 5]), Ok(()));
    assert_eq!(buf.frame(), Some([2, 3, 4, 5]));
    assert_eq!(buf.update(&[6, 7, 8, 9, 10]), Err(FirstWakeWordError::WouldOverflow));
    assert_eq!(buf.frame(), None);
}

#[test]
fn first_buffer_reads_with_exactly_s_unread() {
    let mut buf = FirstRingBuffer::<4, 2, i32>::new(0);
    assert_eq!(buf.update(&[1]), Ok(()));
    assert_eq!(buf.frame(), None);
    assert_eq!(buf.update(&[2]), Ok(()));
    assert_eq!(buf.frame(), Some([1, 2, 0, 0]));
    assert_eq!(buf.frame(), None);
}

#[test]
fn first_buffer_reads_when_full() {
    let mut buf = FirstRingBuffer::<4, 1, u8>::new(0);
    assert_eq!(buf.update(&[1, 2, 3, 4]), Ok(()));
    assert_eq!(buf.update(&[5]), Err(FirstWakeWordError::WouldOverflow));
    assert_eq!(buf.frame(), Some([1, 2, 3, 4]));
    // the read freed one slot
    assert_eq!(buf.update(&[5]), Ok(()));
    assert_eq!(buf.frame(), Some([2, 3, 4, 5]));
}

#[test]
fn first_buffer_refuses_overflow() {
    let mut buf = FirstRingBuffer::<4, 1, u8>::new(0);
    assert_eq!(buf.update(&[1, 2, 3, 4, 5]), Err(FirstWakeWordError::WouldOverflow));
    assert_eq!(buf.frame(), None);
    assert_eq!(buf.update(&[1, 2, 3]), Ok(()));
    assert_eq!(buf.update(&[4, 5]), Err(FirstWakeWordError::WouldOverflow));
    assert_eq!(buf.update(&[4]), Ok(()));
    assert_eq!(buf.update(&[5]), Err(FirstWakeWordError::WouldOverflow));
    assert_eq!(buf.frame(), Some([1, 2, 3, 4]));
}

#[test]
fn first_buffer_frees_only_the_shift() {
    let mut buf = FirstRingBuffer::<4, 2, u8>::new(0);
    assert_eq!(buf.update(&[1, 2, 3]), Ok(()));
    assert_eq!(buf.frame(), Some([1, 2, 3, 0]));
    // one sample is still unread: three slots are free
    assert_eq!(buf.update(&[4, 5, 6, 7]), Err(FirstWakeWordError::WouldOverflow));
    assert_eq!(buf.update(&[4, 5, 6]), Ok(()));
    assert_eq!(buf.frame(), Some([3, 4, 5, 6]));
}

#[test]
fn mfcc_buffer_reads_past_the_advanced_position() {
    let mut buf = MfccRingBuffer::<4, 1, u8>::new(0);
    assert_eq!(buf.frame(), None);
    buf.update(&[1, 2, 3]);
    assert_eq!(buf.frame(), Some([2, 3, 0, 1]));
    assert_eq!(buf.frame(), Some([3, 0, 1, 2]));
    assert_eq!(buf.frame(), None);
}

#[test]
fn mfcc_buffer_overwrites_when_written_past_its_length() {
    let mut buf = MfccRingBuffer::<3, 0, u8>::new(0);
    buf.update(&[1, 2, 3, 4, 5]);
    // the later items took the slots of the earlier ones; positions: write 2, read 0
    assert_eq!(buf.frame(), Some([4, 5, 3]));
}
