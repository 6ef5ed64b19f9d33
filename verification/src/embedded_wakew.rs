//! Parts of the first wake-word firmware that compute rather than drive
//! hardware.

pub mod mfcc_ring_buffer;
pub mod utils;
