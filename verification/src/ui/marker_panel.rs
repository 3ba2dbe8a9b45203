//! Marker panel: the actions of the marker table and the edit draft.
//!
//! The table shows Name / Timecode / Cue / Executor / Type; the edit dialog
//! has Name, Type, Cue, Executor, Color and Comment. Enter saves, Esc
//! cancels.

use vstd::prelude::*;

use crate::markers::model::{Marker, MarkerType};
use crate::text::{trim, trimmed};

verus! {

/// Actions requested from the marker panel.
#[derive(Debug)]
pub struct MarkerPanelAction {
    pub add: bool,
    pub edit: Option<u32>,
    pub remove: Option<u32>,
    pub select: Option<u32>,
}

impl Default for MarkerPanelAction {
    fn default() -> (r: MarkerPanelAction)
        ensures
            !r.add,
            r.edit is None,
            r.remove is None,
            r.select is None,
    {
        MarkerPanelAction { add: false, edit: None, remove: None, select: None }
    }
}

/// Draft of the marker being edited (filled in by the dialog).
#[derive(Debug, Clone)]
pub struct MarkerEditDraft {
    pub id: u32,
    pub name: String,
    pub marker_type: MarkerType,
    pub cue_number: u32,
    pub executor: u32,
    pub color: String,
    pub comment: String,
}

/// The text of an optional field, empty when absent.
pub open spec fn text_or_empty(s: Option<String>) -> Seq<char> {
    match s {
        Some(t) => t@,
        None => Seq::empty(),
    }
}

fn clone_or_empty(s: &Option<String>) -> (r: String)
    ensures
        r@ == text_or_empty(*s),
{
    match s {
        Some(t) => t.clone(),
        None => String::new(),
    }
}

/// `r` is `m` with the draft applied: name and color trimmed, color and
/// comment present, id, time and timecode kept.
pub open spec fn is_edited(m: Marker, d: MarkerEditDraft, r: Marker) -> bool {
    &&& r.name@ == trim(d.name@)
    &&& r.marker_type == d.marker_type
    &&& r.cue_number == d.cue_number
    &&& r.executor == d.executor
    &&& r.color matches Some(c) && c@ == trim(d.color@)
    &&& r.comment matches Some(c) && c@ == d.comment@
    &&& r.id == m.id
    &&& r.time_ns == m.time_ns
    &&& r.timecode == m.timecode
}

impl MarkerEditDraft {
    /// Fills the draft from an existing marker.
    pub fn from_marker(m: &Marker) -> (r: MarkerEditDraft)
        ensures
            r.id == m.id,
            r.name@ == m.name@,
            r.marker_type == m.marker_type,
            r.cue_number == m.cue_number,
            r.executor == m.executor,
            r.color@ == text_or_empty(m.color),
            r.comment@ == text_or_empty(m.comment),
    {
        MarkerEditDraft {
            id: m.id,
            name: m.name.clone(),
            marker_type: m.marker_type,
            cue_number: m.cue_number,
            executor: m.executor,
            color: clone_or_empty(&m.color),
            comment: clone_or_empty(&m.comment),
        }
    }

    /// Applies the draft to the marker, keeping the fields it does not edit
    /// (id, time, timecode): the name and the color are trimmed, the color
    /// and the comment become present.
    pub fn apply_to(&self, m: &mut Marker)
        ensures
            final(m).name@ == trim(self.name@),
            final(m).marker_type == self.marker_type,
            final(m).cue_number == self.cue_number,
            final(m).executor == self.executor,
            final(m).color matches Some(c) && c@ == trim(self.color@),
            final(m).comment matches Some(c) && c@ == self.comment@,
            final(m).id == old(m).id,
            final(m).time_ns == old(m).time_ns,
            final(m).timecode == old(m).timecode,
    {
        m.name = trimmed(self.name.as_str());
        m.marker_type = self.marker_type;
        m.cue_number = self.cue_number;
        m.executor = self.executor;
        m.color = Some(trimmed(self.color.as_str()));
        m.comment = Some(self.comment.clone());
    }
}

/// Outcome of the edit dialog.
#[derive(Debug, Clone, Copy, PartialEq, Eq, Structural)]
pub enum MarkerEditResult {
    Save,
    Cancel,
}

/// What the edit dialog reports after one frame, and whether it stays
/// open: a button or key pressed (`pressed`) closes it with that outcome;
/// closing the window (`window_open` false) without one cancels; otherwise
/// nothing is reported and `open` is kept.
pub fn edit_dialog_outcome(pressed: Option<MarkerEditResult>, window_open: bool, open: bool) -> (r: (
    Option<MarkerEditResult>,
    bool,
))
    ensures
        pressed is Some ==> r == (pressed, false),
        pressed is None && !window_open ==> r == (Some(MarkerEditResult::Cancel), false),
        pressed is None && window_open ==> r == (None::<MarkerEditResult>, open),
{
    match pressed {
        Some(p) => (Some(p), false),
        None => if window_open {
            (None, open)
        } else {
            (Some(MarkerEditResult::Cancel), false)
        },
    }
}

/// What the edit dialog reports after one frame, from what happened in it:
/// the Save and Cancel buttons clicked, Enter and Esc pressed, and whether
/// the window is still open. Within a frame Esc wins over Enter, Enter over
/// the Cancel button, and the Cancel button over the Save button; any of
/// them closes the dialog. With none of them, closing the window cancels,
/// and otherwise nothing is reported and `open` is kept.
pub fn edit_dialog_input(
    save_clicked: bool,
    cancel_clicked: bool,
    enter: bool,
    esc: bool,
    window_open: bool,
    open: bool,
) -> (r: (Option<MarkerEditResult>, bool))
    ensures
        esc ==> r == (Some(MarkerEditResult::Cancel), false),
        !esc && enter ==> r == (Some(MarkerEditResult::Save), false),
        !esc && !enter && cancel_clicked ==> r == (Some(MarkerEditResult::Cancel), false),
        !esc && !enter && !cancel_clicked && save_clicked ==> r == (
            Some(MarkerEditResult::Save),
            false,
        ),
        !esc && !enter && !cancel_clicked && !save_clicked && !window_open ==> r == (
            Some(MarkerEditResult::Cancel),
            false,
        ),
        !esc && !enter && !cancel_clicked && !save_clicked && window_open ==> r == (
            None::<MarkerEditResult>,
            open,
        ),
{
    let pressed = if esc {
        Some(MarkerEditResult::Cancel)
    } else if enter {
        Some(MarkerEditResult::Save)
    } else if cancel_clicked {
        Some(MarkerEditResult::Cancel)
    } else if save_clicked {
        Some(MarkerEditResult::Save)
    } else {
        None
    };
    edit_dialog_outcome(pressed, window_open, open)
}

} // verus!
