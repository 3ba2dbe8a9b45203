//! SMPTE timecode (HH:MM:SS:FF) and conversions with frame rate and drop-frame.

pub mod conversion;
pub mod model;

pub use conversion::seconds_to_timecode;
pub use model::Timecode;
