//! The project struct, saved as JSON or YAML by the application.

use vstd::prelude::*;

use crate::markers::model::Marker;
use crate::timecode::Timecode;

verus! {

/// A complete Showtime project.
#[derive(Debug, Clone)]
pub struct Project {
    /// Project name.
    pub name: String,
    /// Path of the audio file (relative or absolute).
    pub audio_file_path: Option<String>,
    /// Timecode frame rate in milli-frames per second: 24000, 25000, 30000
    /// or 29970.
    pub frame_rate_milli: u32,
    /// Drop-frame counting (29.97 only).
    pub drop_frame: bool,
    /// Timecode offset applied at the start of the music.
    pub timecode_offset: Timecode,
    /// The project's markers.
    pub markers: Vec<Marker>,
}

impl Default for Project {
    fn default() -> (r: Project)
        ensures
            r.name@ == "Novo projeto"@,
            r.audio_file_path is None,
            r.frame_rate_milli == 30000,
            !r.drop_frame,
            r.timecode_offset == (Timecode { hours: 0, minutes: 0, seconds: 0, frames: 0 }),
            r.markers@ == Seq::<Marker>::empty(),
    {
        Project {
            name: String::from_str("Novo projeto"),
            audio_file_path: None,
            frame_rate_milli: 30000,
            drop_frame: false,
            timecode_offset: Timecode::zero(),
            markers: Vec::new(),
        }
    }
}

} // verus!
