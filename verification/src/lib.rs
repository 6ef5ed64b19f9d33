//! Sliding-window ring buffers, the diagonal band of the template matcher and
//! the small decision procedures of the wake-word firmware.

pub mod dtw;
pub mod embedded_wakew;
pub mod features;
pub mod ring;
pub mod wakew_microbit;
