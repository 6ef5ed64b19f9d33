//! Parts of the micro:bit wake-word firmware that compute rather than drive
//! hardware.

pub mod utils;
pub mod recording;
pub mod celebration;
