//! Live show control: MIDI Timecode, MIDI note events and the GrandMA2
//! command link.

pub mod midi_events;
pub mod mtc;
pub mod tcp_client;
