//! Orchestration of the editor: adding markers at a position, recomputing
//! their timecodes after a settings change, and the live events fired while
//! the audio plays.

use vstd::prelude::*;

use crate::markers::manager::{
    distinct_ids, index_of_id, is_new_marker, is_time_ordered, law_sort_keeps_ordered,
    lemma_index_of_id_prefix, sorted_by_time, MarkerManager,
};
use crate::markers::model::{Marker, MarkerType};
use crate::text::{chars_of, decimal, push_decimal, string_from_chars, trim, trim_chars};
use crate::timecode::conversion::{
    seconds_to_timecode, seconds_to_timecode_fits, seconds_to_timecode_fits_check,
    seconds_to_timecode_rejects, timecode_at, timecode_or_zero, timecode_or_zero_at,
};
use crate::timecode::Timecode;
use crate::ui::marker_panel::{is_edited, MarkerEditDraft};
use crate::ui::settings::AppSettings;

verus! {

/// Largest cue number of `s` (0 for an empty sequence).
pub open spec fn max_cue(s: Seq<Marker>) -> u32
    decreases s.len(),
{
    if s.len() == 0 {
        0
    } else if max_cue(s.drop_last()) >= s.last().cue_number {
        max_cue(s.drop_last())
    } else {
        s.last().cue_number
    }
}

/// Law: `max_cue` is the largest cue number in use: no marker's cue number
/// is above it, some marker has it (when there is a marker), and it is 0
/// for no markers.
pub proof fn law_max_cue_is_largest(s: Seq<Marker>)
    ensures
        forall|i: int| 0 <= i < s.len() ==> #[trigger] s[i].cue_number <= max_cue(s),
        s.len() > 0 ==> exists|i: int| 0 <= i < s.len() && #[trigger] s[i].cue_number == max_cue(s),
        s.len() == 0 ==> max_cue(s) == 0,
    decreases s.len(),
{
    if s.len() > 0 {
        let d = s.drop_last();
        law_max_cue_is_largest(d);
        assert forall|i: int| 0 <= i < s.len() implies #[trigger] s[i].cue_number <= max_cue(s) by {
            if i < s.len() - 1 {
                assert(s[i] == d[i]);
            }
        }
        if max_cue(d) >= s.last().cue_number && d.len() > 0 {
            let i = choose|i: int| 0 <= i < d.len() && #[trigger] d[i].cue_number == max_cue(d);
            assert(s[i] == d[i]);
        } else {
            assert(s[s.len() - 1].cue_number == max_cue(s));
        }
    }
}

/// The cue number for a new marker: one above the largest in use (1 when
/// there is none).
pub fn next_cue_number(markers: &[Marker]) -> (r: u32)
    requires
        max_cue(markers@) < u32::MAX,
    ensures
        r == max_cue(markers@) + 1,
        forall|i: int| 0 <= i < markers@.len() ==> #[trigger] markers@[i].cue_number < r,
        markers@.len() > 0 ==> exists|i: int|
            0 <= i < markers@.len() && #[trigger] markers@[i].cue_number == r - 1,
        markers@.len() == 0 ==> r == 1,
{
    let mut max: u32 = 0;
    let mut i: usize = 0;
    while i < markers.len()
        invariant
            i <= markers@.len(),
            max == max_cue(markers@.take(i as int)),
            max_cue(markers@) < u32::MAX,
        decreases markers@.len() - i,
    {
        proof {
            assert(markers@.take(i + 1).drop_last() =~= markers@.take(i as int));
        }
        if markers[i].cue_number > max {
            max = markers[i].cue_number;
        }
        i += 1;
    }
    proof {
        assert(markers@.take(markers@.len() as int) =~= markers@);
        law_max_cue_is_largest(markers@);
    }
    max + 1
}

/// Adds a marker named "Marcador" at `time_ns`: its timecode from the
/// settings (zero when the conversion fails), the next cue number,
/// executor 1 and type Go. Returns its id.
pub fn add_marker_at(manager: &mut MarkerManager, time_ns: i64, settings: &AppSettings) -> (id: u32)
    requires
        old(manager).next_id_spec() < u32::MAX,
        max_cue(old(manager)@) < u32::MAX,
    ensures
        id == old(manager).next_id_spec(),
        final(manager).next_id_spec() == old(manager).next_id_spec() + 1,
        exists|m: Marker|
            #[trigger] is_new_marker(
                m,
                id,
                "Marcador"@,
                time_ns,
                timecode_or_zero(
                    time_ns as int,
                    settings.fps_milli as nat,
                    settings.drop_frame,
                    settings.offset,
                ),
                (max_cue(old(manager)@) + 1) as u32,
                1,
                MarkerType::Go,
            ) && final(manager)@ == sorted_by_time(old(manager)@.push(m)),
{
    let tc = timecode_or_zero_at(time_ns, settings.fps_milli, settings.drop_frame, settings.offset);
    let cue = next_cue_number(manager.markers());
    let id = manager.add("Marcador", time_ns, tc, cue, 1, MarkerType::Go);
    proof {
        let m = choose|m: Marker|
            #[trigger] is_new_marker(m, id, "Marcador"@, time_ns, tc, cue, 1, MarkerType::Go)
                && final(manager)@ == sorted_by_time(old(manager)@.push(m));
        assert(tc == timecode_or_zero(
            time_ns as int,
            settings.fps_milli as nat,
            settings.drop_frame,
            settings.offset,
        ));
        assert(cue == (max_cue(old(manager)@) + 1) as u32);
        assert(is_new_marker(m, id, "Marcador"@, time_ns, tc, cue, 1, MarkerType::Go));
    }
    id
}

/// `m` with its timecode recomputed from its time, when the conversion
/// succeeds; unchanged otherwise.
pub open spec fn recomputed_marker(m: Marker, fps_milli: nat, drop_frame: bool, offset: Timecode) -> Marker {
    if seconds_to_timecode_fits(m.time_ns as int, fps_milli, drop_frame, offset)
        && !seconds_to_timecode_rejects(m.time_ns as int, fps_milli, drop_frame, offset) {
        Marker { timecode: timecode_at(m.time_ns as int, fps_milli, drop_frame, offset), ..m }
    } else {
        m
    }
}

/// What one manager update by id does with the recomputation: the first
/// marker with that id is recomputed, then the list is re-sorted by time.
pub open spec fn recompute_one(s: Seq<Marker>, id: u32, fps_milli: nat, drop_frame: bool, offset: Timecode) -> Seq<Marker> {
    if index_of_id(s, id) >= 0 {
        sorted_by_time(
            s.update(
                index_of_id(s, id),
                recomputed_marker(s[index_of_id(s, id)], fps_milli, drop_frame, offset),
            ),
        )
    } else {
        s
    }
}

/// The updates by id, in order.
pub open spec fn recompute_by_ids(
    s: Seq<Marker>,
    ids: Seq<u32>,
    fps_milli: nat,
    drop_frame: bool,
    offset: Timecode,
) -> Seq<Marker>
    decreases ids.len(),
{
    if ids.len() == 0 {
        s
    } else {
        recompute_one(
            recompute_by_ids(s, ids.drop_last(), fps_milli, drop_frame, offset),
            ids.last(),
            fps_milli,
            drop_frame,
            offset,
        )
    }
}

/// The ids of the markers, in order.
pub open spec fn ids_of(s: Seq<Marker>) -> Seq<u32> {
    s.map_values(|m: Marker| m.id)
}

/// Recomputes the timecode of every marker (after the frame rate, the
/// drop-frame setting or the offset changed), updating each id in turn;
/// a marker whose conversion fails keeps its timecode.
pub fn recompute_marker_timecodes(manager: &mut MarkerManager, settings: &AppSettings)
    ensures
        final(manager)@ == recompute_by_ids(
            old(manager)@,
            ids_of(old(manager)@),
            settings.fps_milli as nat,
            settings.drop_frame,
            settings.offset,
        ),
        final(manager).next_id_spec() == old(manager).next_id_spec(),
        distinct_ids(old(manager)@) ==> final(manager)@.len() == old(manager)@.len(),
        distinct_ids(old(manager)@) ==> forall|i: int|
            0 <= i < old(manager)@.len() ==> {
                let m = old(manager)@[i];
                #[trigger] final(manager)@[i].timecode == if seconds_to_timecode_fits(
                    m.time_ns as int,
                    settings.fps_milli as nat,
                    settings.drop_frame,
                    settings.offset,
                ) && !seconds_to_timecode_rejects(
                    m.time_ns as int,
                    settings.fps_milli as nat,
                    settings.drop_frame,
                    settings.offset,
                ) {
                    timecode_at(
                        m.time_ns as int,
                        settings.fps_milli as nat,
                        settings.drop_frame,
                        settings.offset,
                    )
                } else {
                    m.timecode
                } && final(manager)@[i] == (Marker { timecode: final(manager)@[i].timecode, ..m })
            },
{
    let fps = settings.fps_milli;
    let drop = settings.drop_frame;
    let offset = settings.offset;
    let mut ids: Vec<u32> = Vec::new();
    let mut j: usize = 0;
    let _count: usize = manager.markers().len();
    while j < manager.markers().len()
        invariant
            j <= manager@.len(),
            manager@ == old(manager)@,
            manager.next_id_spec() == old(manager).next_id_spec(),
            ids@ == ids_of(old(manager)@).take(j as int),
        decreases manager@.len() - j,
    {
        ids.push(manager.markers()[j].id);
        proof {
            assert(ids@ =~= ids_of(old(manager)@).take(j + 1));
        }
        j += 1;
    }
    proof {
        assert(ids@ =~= ids_of(old(manager)@));
    }
    let mut k: usize = 0;
    while k < ids.len()
        invariant
            k <= ids@.len(),
            ids@ == ids_of(old(manager)@),
            manager@ == recompute_by_ids(
                old(manager)@,
                ids@.take(k as int),
                fps as nat,
                drop,
                offset,
            ),
            manager.next_id_spec() == old(manager).next_id_spec(),
        decreases ids@.len() - k,
    {
        let id = ids[k];
        let f = |m: Marker| -> (r: Marker)
            ensures
                r == recomputed_marker(m, fps as nat, drop, offset),
            {
                let mut m = m;
                if seconds_to_timecode_fits_check(m.time_ns, fps, drop, offset) {
                    match seconds_to_timecode(m.time_ns, fps, drop, offset) {
                        Ok(tc) => {
                            m.timecode = tc;
                        },
                        Err(_) => {},
                    }
                }
                m
            };
        let ghost before = manager@;
        manager.update(id, f);
        proof {
            assert(ids@.take(k + 1).drop_last() =~= ids@.take(k as int));
            assert(ids@.take(k + 1).last() == id);
        }
        k += 1;
    }
    proof {
        assert(ids@.take(ids@.len() as int) =~= ids@);
        if distinct_ids(old(manager)@) {
            law_recompute_uses_settings(
                old(manager)@,
                settings.fps_milli as nat,
                settings.drop_frame,
                settings.offset,
            );
        }
    }
}

/// Saves an edit: the first marker with the draft's id gets the draft
/// (then the list is re-sorted by time), and every timecode is recomputed
/// from the settings. Returns whether a marker had that id; without one,
/// only the timecodes are recomputed.
pub fn apply_edit(manager: &mut MarkerManager, draft: &MarkerEditDraft, settings: &AppSettings) -> (found: bool)
    ensures
        found == (index_of_id(old(manager)@, draft.id) >= 0),
        !found ==> final(manager)@ == recompute_by_ids(
            old(manager)@,
            ids_of(old(manager)@),
            settings.fps_milli as nat,
            settings.drop_frame,
            settings.offset,
        ),
        found ==> exists|m: Marker|
            #[trigger] is_edited(old(manager)@[index_of_id(old(manager)@, draft.id)], *draft, m) && {
                let edited = sorted_by_time(
                    old(manager)@.update(index_of_id(old(manager)@, draft.id), m),
                );
                final(manager)@ == recompute_by_ids(
                    edited,
                    ids_of(edited),
                    settings.fps_milli as nat,
                    settings.drop_frame,
                    settings.offset,
                )
            },
        final(manager).next_id_spec() == old(manager).next_id_spec(),
{
    let f = |m: Marker| -> (r: Marker)
        ensures
            is_edited(m, *draft, r),
        {
            let mut m = m;
            draft.apply_to(&mut m);
            m
        };
    let found = manager.update(draft.id, f);
    let ghost edited = manager@;
    recompute_marker_timecodes(manager, settings);
    proof {
        if found {
            let idx = index_of_id(old(manager)@, draft.id);
            let m = choose|m: Marker|
                #[trigger] f.ensures((old(manager)@[idx],), m) && edited == sorted_by_time(
                    old(manager)@.update(idx, m),
                );
            assert(is_edited(old(manager)@[idx], *draft, m));
        }
    }
    found
}

/// `s` with its first `k` markers recomputed.
pub open spec fn recomputed_prefix(
    s: Seq<Marker>,
    k: int,
    fps_milli: nat,
    drop_frame: bool,
    offset: Timecode,
) -> Seq<Marker> {
    Seq::new(
        s.len(),
        |i: int|
            if i < k {
                recomputed_marker(s[i], fps_milli, drop_frame, offset)
            } else {
                s[i]
            },
    )
}

/// Law: on markers in time order with distinct ids (what the editor
/// keeps), recomputing the timecodes recomputes each marker in place.
pub proof fn law_recompute_in_place(s: Seq<Marker>, fps_milli: nat, drop_frame: bool, offset: Timecode)
    requires
        is_time_ordered(s),
        distinct_ids(s),
    ensures
        recompute_by_ids(s, ids_of(s), fps_milli, drop_frame, offset) == s.map_values(
            |m: Marker| recomputed_marker(m, fps_milli, drop_frame, offset),
        ),
{
    lemma_recompute_prefix(s, fps_milli, drop_frame, offset, s.len() as int);
    assert(ids_of(s).take(s.len() as int) =~= ids_of(s));
    assert(recomputed_prefix(s, s.len() as int, fps_milli, drop_frame, offset) =~= s.map_values(
        |m: Marker| recomputed_marker(m, fps_milli, drop_frame, offset),
    ));
}

/// Law: after a change of settings, each marker of a list in time order
/// with distinct ids keeps its place and every field but its timecode, and
/// its timecode is the one the conversion gives for its time under the
/// full settings (frame rate, drop-frame counting and offset), the same
/// one a marker added at that time gets; a marker whose time the
/// conversion rejects keeps its timecode.
pub proof fn law_recompute_uses_settings(
    s: Seq<Marker>,
    fps_milli: nat,
    drop_frame: bool,
    offset: Timecode,
)
    requires
        is_time_ordered(s),
        distinct_ids(s),
    ensures
        recompute_by_ids(s, ids_of(s), fps_milli, drop_frame, offset).len() == s.len(),
        forall|i: int|
            0 <= i < s.len() ==> {
                let r = #[trigger] recompute_by_ids(s, ids_of(s), fps_milli, drop_frame, offset)[i];
                &&& r == (Marker { timecode: r.timecode, ..s[i] })
                &&& seconds_to_timecode_fits(s[i].time_ns as int, fps_milli, drop_frame, offset)
                    && !seconds_to_timecode_rejects(
                    s[i].time_ns as int,
                    fps_milli,
                    drop_frame,
                    offset,
                ) ==> r.timecode == timecode_at(s[i].time_ns as int, fps_milli, drop_frame, offset)
                    && r.timecode == timecode_or_zero(
                    s[i].time_ns as int,
                    fps_milli,
                    drop_frame,
                    offset,
                )
                &&& !(seconds_to_timecode_fits(s[i].time_ns as int, fps_milli, drop_frame, offset)
                    && !seconds_to_timecode_rejects(
                    s[i].time_ns as int,
                    fps_milli,
                    drop_frame,
                    offset,
                )) ==> r.timecode == s[i].timecode
            },
{
    law_recompute_in_place(s, fps_milli, drop_frame, offset);
}

proof fn lemma_recompute_prefix(s: Seq<Marker>, fps_milli: nat, drop_frame: bool, offset: Timecode, k: int)
    requires
        is_time_ordered(s),
        distinct_ids(s),
        0 <= k <= s.len(),
    ensures
        recompute_by_ids(s, ids_of(s).take(k), fps_milli, drop_frame, offset) == recomputed_prefix(
            s,
            k,
            fps_milli,
            drop_frame,
            offset,
        ),
    decreases k,
{
    if k == 0 {
        assert(ids_of(s).take(0) =~= Seq::<u32>::empty());
        assert(recomputed_prefix(s, 0, fps_milli, drop_frame, offset) =~= s);
    } else {
        lemma_recompute_prefix(s, fps_milli, drop_frame, offset, k - 1);
        assert(ids_of(s).take(k).drop_last() =~= ids_of(s).take(k - 1));
        assert(ids_of(s).take(k).last() == s[k - 1].id);
        lemma_recompute_step(s, fps_milli, drop_frame, offset, k);
    }
}

proof fn lemma_recompute_step(s: Seq<Marker>, fps_milli: nat, drop_frame: bool, offset: Timecode, k: int)
    requires
        is_time_ordered(s),
        distinct_ids(s),
        0 < k <= s.len(),
    ensures
        recompute_one(
            recomputed_prefix(s, k - 1, fps_milli, drop_frame, offset),
            s[k - 1].id,
            fps_milli,
            drop_frame,
            offset,
        ) == recomputed_prefix(s, k, fps_milli, drop_frame, offset),
{
    let t = recomputed_prefix(s, k - 1, fps_milli, drop_frame, offset);
    let v = recomputed_prefix(s, k, fps_milli, drop_frame, offset);
    assert forall|i: int| 0 <= i < k - 1 implies #[trigger] t[i].id != s[k - 1].id by {
        assert(s[i].id != s[k - 1].id);
    }
    lemma_index_of_id_prefix(t, s[k - 1].id, k - 1);
    let u = t.update(k - 1, recomputed_marker(t[k - 1], fps_milli, drop_frame, offset));
    assert(u =~= v);
    assert forall|i: int, j: int| 0 <= i <= j < v.len() implies v[i].time_ns <= v[j].time_ns by {
        assert(v[i].time_ns == s[i].time_ns);
        assert(v[j].time_ns == s[j].time_ns);
    }
    law_sort_keeps_ordered(v);
}

/// Export formats offered in the menu.
#[derive(Debug, Clone, Copy, PartialEq, Eq, Structural)]
pub enum ExportKind {
    Csv,
    Xml,
    Ma2Macro,
    Midi,
}

/// The save dialog of an export: the filter's name, the extension and the
/// suggested file name.
pub open spec fn export_target_text(kind: ExportKind) -> (Seq<char>, Seq<char>, Seq<char>) {
    match kind {
        ExportKind::Csv => ("CSV"@, "csv"@, "cues.csv"@),
        ExportKind::Xml => ("XML"@, "xml"@, "cues.xml"@),
        ExportKind::Ma2Macro => ("Macro MA2"@, "xml"@, "showtime_macro.xml"@),
        ExportKind::Midi => ("MIDI"@, "mid"@, "cues.mid"@),
    }
}

/// The save dialog of an export.
pub fn export_target(kind: ExportKind) -> (r: (&'static str, &'static str, &'static str))
    ensures
        (r.0@, r.1@, r.2@) == export_target_text(kind),
{
    match kind {
        ExportKind::Csv => ("CSV", "csv", "cues.csv"),
        ExportKind::Xml => ("XML", "xml", "cues.xml"),
        ExportKind::Ma2Macro => ("Macro MA2", "xml", "showtime_macro.xml"),
        ExportKind::Midi => ("MIDI", "mid", "cues.mid"),
    }
}

/// The MIDI device chosen in the settings: the trimmed text, `None` (first
/// port) when it is empty.
pub fn device_choice(text: &str) -> (r: Option<String>)
    ensures
        trim(text@).len() == 0 ==> r is None,
        trim(text@).len() > 0 ==> (r matches Some(d) && d@ == trim(text@)),
{
    let t = trim_chars(&chars_of(text));
    if t.len() == 0 {
        None
    } else {
        Some(string_from_chars(&t))
    }
}

/// The command sent to the console when a marker is crossed: Go, Toggle and
/// Load fire `Go Executor N`, Pause fires `Pause Executor N`, Goto fires
/// `Goto Cue C Executor N`.
pub open spec fn live_command_text(m: Marker) -> Seq<char> {
    match m.marker_type {
        MarkerType::Pause => "Pause Executor "@ + decimal(m.executor as nat),
        MarkerType::Goto => "Goto Cue "@ + decimal(m.cue_number as nat) + " Executor "@ + decimal(
            m.executor as nat,
        ),
        _ => "Go Executor "@ + decimal(m.executor as nat),
    }
}

/// The console command for a crossed marker.
pub fn live_command(m: &Marker) -> (r: String)
    ensures
        r@ == live_command_text(*m),
{
    let mut out = String::new();
    match m.marker_type {
        MarkerType::Pause => {
            out.append("Pause Executor ");
            push_decimal(&mut out, m.executor as u64);
        },
        MarkerType::Goto => {
            out.append("Goto Cue ");
            push_decimal(&mut out, m.cue_number as u64);
            out.append(" Executor ");
            push_decimal(&mut out, m.executor as u64);
        },
        _ => {
            out.append("Go Executor ");
            push_decimal(&mut out, m.executor as u64);
        },
    }
    proof {
        assert(out@ =~= live_command_text(*m));
    }
    out
}

/// A marker is crossed when the play position moves forward past its
/// time: `last < time <= pos`.
pub open spec fn is_crossed(m: Marker, last_ns: int, pos_ns: int) -> bool {
    last_ns < pos_ns && last_ns < m.time_ns && m.time_ns <= pos_ns
}

/// Law: when the position advances from `last` to `pos` through `mid`, a
/// marker crossed over the whole move is crossed in exactly one of the two
/// steps, and one crossed in a step is crossed over the whole move: no live
/// event is lost or fired twice however the frames split the move.
pub proof fn law_crossing_splits(m: Marker, last_ns: int, mid_ns: int, pos_ns: int)
    requires
        last_ns < mid_ns < pos_ns,
    ensures
        is_crossed(m, last_ns, pos_ns) == (is_crossed(m, last_ns, mid_ns) || is_crossed(
            m,
            mid_ns,
            pos_ns,
        )),
        !(is_crossed(m, last_ns, mid_ns) && is_crossed(m, mid_ns, pos_ns)),
{
}

/// Indices of the crossed markers of `s`, in order.
pub open spec fn crossed_indices(s: Seq<Marker>, last_ns: int, pos_ns: int) -> Seq<usize>
    decreases s.len(),
{
    if s.len() == 0 {
        Seq::empty()
    } else if is_crossed(s.last(), last_ns, pos_ns) {
        crossed_indices(s.drop_last(), last_ns, pos_ns).push((s.len() - 1) as usize)
    } else {
        crossed_indices(s.drop_last(), last_ns, pos_ns)
    }
}

/// The markers whose live events fire when the position moves from
/// `last_ns` to `pos_ns`, by index in the list; none when the position did
/// not move forward.
pub fn crossed_markers(markers: &[Marker], last_ns: i64, pos_ns: i64) -> (r: Vec<usize>)
    ensures
        r@ == crossed_indices(markers@, last_ns as int, pos_ns as int),
{
    let mut r: Vec<usize> = Vec::new();
    let mut i: usize = 0;
    while i < markers.len()
        invariant
            i <= markers@.len(),
            r@ == crossed_indices(markers@.take(i as int), last_ns as int, pos_ns as int),
        decreases markers@.len() - i,
    {
        proof {
            assert(markers@.take(i + 1).drop_last() =~= markers@.take(i as int));
            assert(markers@.take(i + 1).last() == markers@[i as int]);
        }
        let t = markers[i].time_ns;
        if last_ns < pos_ns && last_ns < t && t <= pos_ns {
            r.push(i);
        }
        i += 1;
    }
    proof {
        assert(markers@.take(markers@.len() as int) =~= markers@);
    }
    r
}

} // verus!
