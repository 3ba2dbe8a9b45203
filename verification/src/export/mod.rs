//! Output formats: CSV, XML, GrandMA2 macro and Standard MIDI File.

pub mod csv;
pub mod ma2_script;
pub mod midi_file;
pub mod xml;
