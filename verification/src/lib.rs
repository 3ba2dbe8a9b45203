//! Showtime core: SMPTE timecode, cue markers, exports and live-mode decisions
//! for GrandMA2 lighting consoles.

pub mod audio;
pub mod error;
pub mod export;
pub mod live;
pub mod markers;
pub mod project;
pub mod text;
pub mod timecode;
pub mod ui;
