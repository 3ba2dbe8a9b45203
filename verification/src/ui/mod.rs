//! Editor logic behind the user interface: the marker panel's draft and
//! actions, the timeline's colors, the settings and the orchestration of
//! markers and live events.

pub mod app;
pub mod marker_panel;
pub mod settings;
pub mod timeline;
