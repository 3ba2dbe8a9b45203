//! Cue markers: model and management.

pub mod manager;
pub mod model;

pub use manager::MarkerManager;
pub use model::{Marker, MarkerType};
