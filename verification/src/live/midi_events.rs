//! MIDI events per marker: Note On/Off.
//!
//! Each marker fires a Note On (velocity 100) followed by a Note Off on
//! channel 1, on the note that the marker's type maps to (default:
//! go=60, pause=61, toggle=62, goto=63, load=64).

use vstd::prelude::*;

use crate::error::ShowtimeError;
use crate::live::mtc::{device_not_found, device_not_found_message, find_port, first_matching_port, no_output_message};
use crate::markers::model::{Marker, MarkerType};

verus! {

/// Position of a marker type in the mapping's table.
pub open spec fn type_slot(t: MarkerType) -> int {
    match t {
        MarkerType::Go => 0,
        MarkerType::Pause => 1,
        MarkerType::Toggle => 2,
        MarkerType::Goto => 3,
        MarkerType::Load => 4,
    }
}

fn slot_of(t: MarkerType) -> (r: usize)
    ensures
        r == type_slot(t),
{
    match t {
        MarkerType::Go => 0,
        MarkerType::Pause => 1,
        MarkerType::Toggle => 2,
        MarkerType::Goto => 3,
        MarkerType::Load => 4,
    }
}

/// A map from marker type to MIDI note; each type holds at most one note.
#[derive(Debug, Clone)]
pub struct NoteMapping {
    notes: [Option<u8>; 5],
}

impl View for NoteMapping {
    type V = Map<MarkerType, u8>;

    closed spec fn view(&self) -> Map<MarkerType, u8> {
        Map::new(
            |t: MarkerType| self.notes@[type_slot(t)] is Some,
            |t: MarkerType| self.notes@[type_slot(t)]->Some_0,
        )
    }
}

impl NoteMapping {
    /// An empty mapping.
    pub fn new() -> (r: NoteMapping)
        ensures
            r@ == Map::<MarkerType, u8>::empty(),
    {
        let r = NoteMapping { notes: [None, None, None, None, None] };
        assert(r@ =~= Map::<MarkerType, u8>::empty());
        r
    }

    /// Maps `t` to `note`, returning the note it had before.
    pub fn insert(&mut self, t: MarkerType, note: u8) -> (r: Option<u8>)
        ensures
            final(self)@ == old(self)@.insert(t, note),
            r == (if old(self)@.contains_key(t) {
                Some(old(self)@[t])
            } else {
                None::<u8>
            }),
    {
        let i = slot_of(t);
        let prev = self.notes[i];
        self.notes[i] = Some(note);
        proof {
            assert forall|u: MarkerType| type_slot(u) == type_slot(t) implies u == t by {}
            assert(final(self)@ =~= old(self)@.insert(t, note));
        }
        prev
    }

    /// The note mapped to `t`, if any.
    pub fn get(&self, t: &MarkerType) -> (r: Option<&u8>)
        ensures
            r == (if self@.contains_key(*t) {
                Some(&self@[*t])
            } else {
                None::<&u8>
            }),
    {
        let i = slot_of(*t);
        match &self.notes[i] {
            Some(n) => Some(n),
            None => None,
        }
    }

    /// Whether `t` has a note.
    pub fn contains_key(&self, t: &MarkerType) -> (r: bool)
        ensures
            r == self@.contains_key(*t),
    {
        let i = slot_of(*t);
        self.notes[i].is_some()
    }
}

/// The default notes: go=60, pause=61, toggle=62, goto=63, load=64.
pub open spec fn default_notes() -> Map<MarkerType, u8> {
    map![
        MarkerType::Go => 60u8,
        MarkerType::Pause => 61u8,
        MarkerType::Toggle => 62u8,
        MarkerType::Goto => 63u8,
        MarkerType::Load => 64u8,
    ]
}

/// Law: the default mapping gives every marker type a note, and distinct
/// types distinct notes.
pub proof fn law_default_mapping_covers_all_types(t: MarkerType, u: MarkerType)
    ensures
        default_notes().contains_key(t),
        t != u ==> default_notes()[t] != default_notes()[u],
{
}

/// MIDI event sending configuration.
#[derive(Debug, Clone)]
pub struct MidiEventConfig {
    /// Name of the MIDI output device (substring; `None` = first port).
    pub device_name: Option<String>,
    /// Marker type to MIDI note.
    pub mapping: NoteMapping,
}

impl Default for MidiEventConfig {
    fn default() -> (r: MidiEventConfig)
        ensures
            r.device_name is None,
            r.mapping@ == default_notes(),
    {
        let mut mapping = NoteMapping::new();
        mapping.insert(MarkerType::Go, 60);
        mapping.insert(MarkerType::Pause, 61);
        mapping.insert(MarkerType::Toggle, 62);
        mapping.insert(MarkerType::Goto, 63);
        mapping.insert(MarkerType::Load, 64);
        assert(mapping@ =~= default_notes());
        MidiEventConfig { device_name: None, mapping }
    }
}

/// The note of a marker type: the mapped one, 60 when unmapped.
pub open spec fn note_of(mapping: Map<MarkerType, u8>, t: MarkerType) -> u8 {
    if mapping.contains_key(t) {
        mapping[t]
    } else {
        60
    }
}

/// MIDI note for the marker's type (fallback 60).
pub fn note_for(mapping: &NoteMapping, marker_type: MarkerType) -> (r: u8)
    ensures
        r == note_of(mapping@, marker_type),
{
    match mapping.get(&marker_type) {
        Some(n) => *n,
        None => 60,
    }
}

/// The two messages fired for a marker: Note On (velocity 100) then Note
/// Off (velocity 0), both on channel 1, on the marker type's note.
pub open spec fn note_messages_of(mapping: Map<MarkerType, u8>, t: MarkerType) -> Seq<Seq<u8>> {
    seq![seq![0x90u8, note_of(mapping, t), 100u8], seq![0x80u8, note_of(mapping, t), 0u8]]
}

/// The messages to send for a marker, in order.
pub fn note_messages(mapping: &NoteMapping, marker: &Marker) -> (r: Vec<Vec<u8>>)
    ensures
        r@.len() == 2,
        r@[0]@ == note_messages_of(mapping@, marker.marker_type)[0],
        r@[1]@ == note_messages_of(mapping@, marker.marker_type)[1],
{
    let note = note_for(mapping, marker.marker_type);
    let on: Vec<u8> = vec![0x90, note, 100];
    let off: Vec<u8> = vec![0x80, note, 0];
    let r = vec![on, off];
    assert(r@[0]@ =~= note_messages_of(mapping@, marker.marker_type)[0]);
    assert(r@[1]@ =~= note_messages_of(mapping@, marker.marker_type)[1]);
    r
}

/// Picks the output for note events among the listed ports (`None` where a
/// port's name could not be read): with a device name, the first port whose
/// name contains it (an error when none does); without one, the first port
/// (an error when there is none).
pub fn select_event_port(port_names: &[Option<String>], device_name: &Option<String>) -> (r:
    Result<usize, ShowtimeError>)
    ensures
        device_name matches Some(n) ==> match first_matching_port(port_names@, n@) {
            Some(i) => (r matches Ok(j) && j == i),
            None => (r matches Err(ShowtimeError::Midi(m)) && m@ == device_not_found_message(n@)),
        },
        device_name is None ==> (if port_names@.len() == 0 {
            r matches Err(ShowtimeError::Midi(m)) && m@ == no_output_message()
        } else {
            r matches Ok(0)
        }),
{
    match device_name {
        Some(name) => match find_port(port_names, name.as_str()) {
            Some(i) => Ok(i),
            None => Err(ShowtimeError::Midi(device_not_found(name.as_str()))),
        },
        None => {
            if port_names.len() == 0 {
                Err(ShowtimeError::Midi(String::from_str("nenhum dispositivo MIDI de saída")))
            } else {
                Ok(0)
            }
        },
    }
}

} // verus!
