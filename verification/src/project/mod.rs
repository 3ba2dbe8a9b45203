//! The project: name, audio file, timecode settings and markers.

pub mod model;

pub use model::Project;
