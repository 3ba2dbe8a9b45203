//! Marker (cue) structs.

use vstd::prelude::*;

use crate::timecode::Timecode;

verus! {

/// How the cue fires on the GrandMA2.
#[derive(Debug, Clone, Copy, PartialEq, Eq, Hash, Structural)]
pub enum MarkerType {
    Go,
    Pause,
    Toggle,
    Goto,
    Load,
}

/// Stable name of a marker type (used in CSV/XML exports and UI labels).
pub open spec fn marker_type_name(t: MarkerType) -> Seq<char> {
    match t {
        MarkerType::Go => "go"@,
        MarkerType::Pause => "pause"@,
        MarkerType::Toggle => "toggle"@,
        MarkerType::Goto => "goto"@,
        MarkerType::Load => "load"@,
    }
}

impl MarkerType {
    /// All types, in display order.
    pub fn all() -> (r: [MarkerType; 5])
        ensures
            r@ == seq![
                MarkerType::Go,
                MarkerType::Pause,
                MarkerType::Toggle,
                MarkerType::Goto,
                MarkerType::Load,
            ],
    {
        let r = [MarkerType::Go, MarkerType::Pause, MarkerType::Toggle, MarkerType::Goto, MarkerType::Load];
        assert(r@ =~= seq![
            MarkerType::Go,
            MarkerType::Pause,
            MarkerType::Toggle,
            MarkerType::Goto,
            MarkerType::Load,
        ]);
        r
    }

    /// Stable name (used in CSV/XML exports and UI labels).
    pub fn as_str(&self) -> (r: &'static str)
        ensures
            r@ == marker_type_name(*self),
    {
        match self {
            MarkerType::Go => "go",
            MarkerType::Pause => "pause",
            MarkerType::Toggle => "toggle",
            MarkerType::Goto => "goto",
            MarkerType::Load => "load",
        }
    }
}

/// A cue marker along the audio timeline.
///
/// `timecode` is computed from `time_ns`, the frame rate and the offset
/// (filled in by the editor); it is kept on disk for exact round trips of
/// projects.
#[derive(Debug, Clone)]
pub struct Marker {
    /// Unique identifier within the project.
    pub id: u32,
    /// Readable name (e.g. "Intro", "Verse 1").
    pub name: String,
    /// Position in nanoseconds from the start of the audio.
    pub time_ns: i64,
    /// Computed SMPTE timecode (HH:MM:SS:FF).
    pub timecode: Timecode,
    /// Cue number on the GrandMA2.
    pub cue_number: u32,
    /// Executor number on the console.
    pub executor: u32,
    /// How the cue fires.
    pub marker_type: MarkerType,
    /// Color as "#RRGGBB" (optional).
    pub color: Option<String>,
    /// Comment (optional).
    pub comment: Option<String>,
}

impl Marker {
    /// Creates a marker with no color and no comment.
    pub fn new(
        id: u32,
        name: &str,
        time_ns: i64,
        timecode: Timecode,
        cue_number: u32,
        executor: u32,
        marker_type: MarkerType,
    ) -> (r: Marker)
        ensures
            r.id == id,
            r.name@ == name@,
            r.time_ns == time_ns,
            r.timecode == timecode,
            r.cue_number == cue_number,
            r.executor == executor,
            r.marker_type == marker_type,
            r.color is None,
            r.comment is None,
    {
        Marker {
            id,
            name: String::from_str(name),
            time_ns,
            timecode,
            cue_number,
            executor,
            marker_type,
            color: None,
            comment: None,
        }
    }
}

} // verus!
