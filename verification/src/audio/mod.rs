//! Audio transport: the play clock and where playback resumes in the
//! decoded samples.

pub mod transport;
