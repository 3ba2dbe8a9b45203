//! MIDI file (.mid) with one note per marker, written with `midly`.
//!
//! Format 0 (one track), fixed tempo of 120 BPM, 480 ticks per beat. Each
//! marker becomes a Note On/Off pair on channel 1. The Note On's delta time
//! is the gap between the marker's tick and the previous marker's tick (1 s
//! is 960 ticks), and its Note Off follows one tick later, so counted from
//! the start of the track the note of marker `i` sounds at its tick plus `i`
//! (see `law_note_positions`). The note is derived from the marker's index
//! (36 + idx % 48) so it stays in an audible, stable range.

use vstd::prelude::*;

use midly::Format::SingleTrack;
use midly::MetaMessage::Tempo;
use midly::MidiMessage::{NoteOff, NoteOn};
use midly::Timing::Metrical;
use midly::TrackEventKind::{Meta, Midi};
use midly::{Header, Smf, TrackEvent};

use crate::error::ShowtimeError;
use crate::markers::model::Marker;

verus! {

/// Ticks per quarter note of the exported file.
pub const TICKS_PER_BEAT: u16 = 480;

/// Fixed tempo of the exported file, in beats per minute.
pub const BPM: u32 = 120;

/// What one track event carries besides its delta time.
#[derive(Debug, Clone, Copy, PartialEq, Eq, Structural)]
pub enum SmfEventKind {
    /// Set Tempo meta event, in microseconds per quarter note.
    Tempo(u32),
    /// Note On on a channel (0 to 15).
    NoteOn { channel: u8, key: u8, velocity: u8 },
    /// Note Off on a channel (0 to 15).
    NoteOff { channel: u8, key: u8, velocity: u8 },
}

/// One event of a track: ticks since the previous event, and what it does.
#[derive(Debug, Clone, Copy, PartialEq, Eq, Structural)]
pub struct SmfEvent {
    pub delta: u32,
    pub kind: SmfEventKind,
}

/// The bytes of the `MTrk` chunk body that `midly` writes for `events`:
/// each event as its variable-length delta time followed by the event's
/// encoding, with running status.
pub uninterp spec fn smf_track_body(events: Seq<SmfEvent>) -> Seq<u8>;

/// Big-endian bytes of a 16-bit value.
pub open spec fn be16(n: nat) -> Seq<u8> {
    seq![(n / 256) as u8, (n % 256) as u8]
}

/// Big-endian bytes of a 32-bit value.
pub open spec fn be32(n: nat) -> Seq<u8> {
    seq![
        (n / 0x100_0000 % 256) as u8,
        (n / 0x1_0000 % 256) as u8,
        (n / 0x100 % 256) as u8,
        (n % 256) as u8,
    ]
}

/// A Standard MIDI File of format 0 with one track whose chunk body is
/// `body`, timed in `ticks_per_beat` ticks per quarter note.
pub open spec fn single_track_file(ticks_per_beat: nat, body: Seq<u8>) -> Seq<u8> {
    seq![0x4du8, 0x54, 0x68, 0x64] + be32(6) + be16(0) + be16(1) + be16(ticks_per_beat) + seq![
        0x4du8,
        0x54,
        0x72,
        0x6b,
    ] + be32(body.len()) + body
}

/// Appends to `out` a format-0 file with one track holding `events`, using
/// `midly::Smf::write_std`.
///
/// Every event is handed to `midly` as it is, its delta, tempo, channel, key
/// and velocity converted to `midly`'s restricted integers (which keep the
/// low 28, 24, 4, 7 and 7 bits; the events of this module fit them, but for
/// deltas beyond 28 bits). `midly` writes the
/// `MThd` chunk (format 0, one track, the given ticks per beat), then the
/// `MTrk` chunk with its big-endian length; writing into a `Vec` fails only
/// when that length exceeds 32 bits. Each event takes at most 10 bytes (a
/// delta of at most 4 bytes, then at most 6 for the tempo meta event and 3
/// for a note), so a track of fewer than `u32::MAX / 10` events always
/// fits. What `out` holds after a failure is left unsaid.
#[verifier::external_body]
fn write_single_track_smf(events: &[SmfEvent], ticks_per_beat: u16, out: &mut Vec<u8>) -> (r: Result<(), std::io::Error>)
    requires
        ticks_per_beat < 0x8000,
    ensures
        r is Ok <==> smf_track_body(events@).len() <= u32::MAX,
        10 * events@.len() <= u32::MAX ==> r is Ok,
        r is Ok ==> final(out)@ == old(out)@ + single_track_file(
            ticks_per_beat as nat,
            smf_track_body(events@),
        ),
{
    let track = events.iter().map(|e| TrackEvent { delta: e.delta.into(), kind: match e.kind {
        SmfEventKind::Tempo(t) => Meta(Tempo(t.into())),
        SmfEventKind::NoteOn { channel, key, velocity } => Midi { channel: channel.into(), message: NoteOn { key: key.into(), vel: velocity.into() } },
        SmfEventKind::NoteOff { channel, key, velocity } => Midi { channel: channel.into(), message: NoteOff { key: key.into(), vel: velocity.into() } },
    } }).collect();
    Smf { header: Header::new(SingleTrack, Metrical(ticks_per_beat.into())), tracks: vec![track] }.write_std(out)
}

/// `std::io::Error`, the error of `midly`'s writer, carried through opaquely.
#[verifier::external_type_specification]
#[verifier::external_body]
pub struct ExIoError(std::io::Error);

/// Ticks per second at the fixed tempo: 480 ticks/beat * 120 beats / 60 s.
pub open spec fn ticks_per_second() -> int {
    TICKS_PER_BEAT * BPM / 60
}

/// Microseconds per quarter note at the fixed tempo.
pub open spec fn tempo_micros() -> u32 {
    60_000_000u32 / BPM
}

/// The tick at which a marker's note starts: its time in ticks rounded to
/// the nearest tick (halves away from zero), 0 for times at or before the
/// start, and at most `u32::MAX`.
pub open spec fn tick_of(time_ns: i64) -> int {
    if time_ns <= 0 {
        0
    } else {
        let t = (time_ns * ticks_per_second() + 500_000_000) / 1_000_000_000;
        if t > u32::MAX {
            u32::MAX as int
        } else {
            t
        }
    }
}

/// Ticks between the note of marker `i` and the tick of marker `i - 1`
/// (from tick 0 for the first marker); never negative.
pub open spec fn note_delta(s: Seq<Marker>, i: int) -> int {
    let prev = if i == 0 {
        0
    } else {
        tick_of(s[i - 1].time_ns)
    };
    if tick_of(s[i].time_ns) >= prev {
        tick_of(s[i].time_ns) - prev
    } else {
        0
    }
}

/// The note of marker `i`: `36 + i % 48`.
pub open spec fn note_key(i: int) -> u8 {
    (36 + i % 48) as u8
}

/// Event `j` after the tempo event: even positions are the Note On of
/// marker `j / 2` (velocity 100, delta `note_delta`), odd ones its Note Off
/// one tick later (velocity 0), all on the first channel.
pub open spec fn note_event(s: Seq<Marker>, j: int) -> SmfEvent {
    if j % 2 == 0 {
        SmfEvent {
            delta: note_delta(s, j / 2) as u32,
            kind: SmfEventKind::NoteOn { channel: 0, key: note_key(j / 2), velocity: 100 },
        }
    } else {
        SmfEvent {
            delta: 1,
            kind: SmfEventKind::NoteOff { channel: 0, key: note_key(j / 2), velocity: 0 },
        }
    }
}

/// The track of the export: the tempo at tick 0, then a note per marker.
pub open spec fn marker_track(s: Seq<Marker>) -> Seq<SmfEvent> {
    seq![SmfEvent { delta: 0, kind: SmfEventKind::Tempo(tempo_micros()) }] + Seq::new(
        2 * s.len(),
        |j: int| note_event(s, j),
    )
}

/// The file written for the markers when it fits.
pub open spec fn midi_file_bytes(s: Seq<Marker>) -> Seq<u8> {
    single_track_file(TICKS_PER_BEAT as nat, smf_track_body(marker_track(s)))
}

/// Ticks elapsed when the first `n` events of `events` have been played:
/// the sum of their delta times.
pub open spec fn elapsed_ticks(events: Seq<SmfEvent>, n: int) -> int
    decreases n,
{
    if n <= 0 {
        0
    } else {
        elapsed_ticks(events, n - 1) + events[n - 1].delta
    }
}

/// Markers whose times never decrease.
pub open spec fn times_non_decreasing(s: Seq<Marker>) -> bool {
    forall|i: int, j: int| 0 <= i <= j < s.len() ==> s[i].time_ns <= s[j].time_ns
}

proof fn lemma_tick_monotone(a: i64, b: i64)
    requires
        a <= b,
    ensures
        tick_of(a) <= tick_of(b),
{
    if a > 0 {
        assert((a * 960 + 500_000_000) / 1_000_000_000 <= (b * 960 + 500_000_000)
            / 1_000_000_000) by (nonlinear_arith)
            requires
                a <= b,
        ;
    }
}

/// Where the notes of the track land, for markers in time order.
///
/// The Note On of marker `i` comes the marker gap `tick(t_i) - tick(t_{i-1})`
/// after the Note Off of marker `i - 1`, and every Note Off lasts one tick,
/// so counting all delta times from the start of the track, the Note On of
/// marker `i` sounds at `tick(t_i) + i` and its Note Off one tick later.
pub proof fn law_note_positions(s: Seq<Marker>, i: int)
    requires
        times_non_decreasing(s),
        0 <= i < s.len(),
    ensures
        marker_track(s)[2 * i + 1].kind is NoteOn,
        marker_track(s)[2 * i + 2].kind is NoteOff,
        i > 0 ==> marker_track(s)[2 * i + 1].delta == tick_of(s[i].time_ns) - tick_of(
            s[i - 1].time_ns,
        ),
        elapsed_ticks(marker_track(s), 2 * i + 2) == tick_of(s[i].time_ns) + i,
        elapsed_ticks(marker_track(s), 2 * i + 3) == tick_of(s[i].time_ns) + i + 1,
    decreases i,
{
    let t = marker_track(s);
    assert((2 * i) % 2 == 0 && (2 * i) / 2 == i);
    assert((2 * i + 1) % 2 == 1 && (2 * i + 1) / 2 == i);
    assert(t[2 * i + 1] == note_event(s, 2 * i));
    assert(t[2 * i + 2] == note_event(s, 2 * i + 1));
    assert(0 <= tick_of(s[i].time_ns) <= u32::MAX);
    if i == 0 {
        assert(t[0] == SmfEvent { delta: 0, kind: SmfEventKind::Tempo(tempo_micros()) });
        assert(elapsed_ticks(t, 0) == 0);
        assert(elapsed_ticks(t, 1) == 0);
    } else {
        law_note_positions(s, i - 1);
        assert(s[i - 1].time_ns <= s[i].time_ns);
        lemma_tick_monotone(s[i - 1].time_ns, s[i].time_ns);
        assert(0 <= tick_of(s[i - 1].time_ns));
    }
}

/// The tick of a time in nanoseconds, as `tick_of` states it.
fn tick_for(time_ns: i64) -> (r: u32)
    ensures
        r == tick_of(time_ns),
{
    if time_ns <= 0 {
        return 0;
    }
    let t: u128 = ((time_ns as u128) * 960 + 500_000_000) / 1_000_000_000;
    if t > 0xFFFF_FFFF {
        0xFFFF_FFFF
    } else {
        t as u32
    }
}

/// The track events of the export: a tempo event (120 BPM) at tick 0, then
/// for each marker a Note On (velocity 100) whose delta is the marker's tick
/// minus the previous marker's tick, and a Note Off (velocity 0) one tick
/// later, on the first channel, with the note `36 + index % 48`.
pub fn marker_track_events(markers: &[Marker]) -> (r: Vec<SmfEvent>)
    ensures
        r@ == marker_track(markers@),
{
    let mut track: Vec<SmfEvent> = Vec::new();
    track.push(SmfEvent { delta: 0, kind: SmfEventKind::Tempo(60_000_000 / BPM) });
    let mut prev_tick: u32 = 0;
    let mut idx: usize = 0;
    while idx < markers.len()
        invariant
            idx <= markers@.len(),
            track@.len() == 1 + 2 * idx,
            track@[0] == (SmfEvent { delta: 0, kind: SmfEventKind::Tempo(tempo_micros()) }),
            forall|j: int| 0 <= j < 2 * idx ==> track@[1 + j] == note_event(markers@, j),
            idx > 0 ==> prev_tick == tick_of(markers@[idx - 1].time_ns),
            idx == 0 ==> prev_tick == 0,
        decreases markers@.len() - idx,
    {
        let tick = tick_for(markers[idx].time_ns);
        let delta: u32 = if tick >= prev_tick {
            tick - prev_tick
        } else {
            0
        };
        prev_tick = tick;
        let key: u8 = 36 + (idx % 48) as u8;
        track.push(
            SmfEvent { delta, kind: SmfEventKind::NoteOn { channel: 0, key, velocity: 100 } },
        );
        track.push(SmfEvent { delta: 1, kind: SmfEventKind::NoteOff { channel: 0, key, velocity: 0 } });
        proof {
            let i = idx as int;
            assert((2 * i) / 2 == i);
            assert((2 * i + 1) / 2 == i);
            assert((2 * i) % 2 == 0);
            assert((2 * i + 1) % 2 == 1);
            assert(track@[1 + 2 * i] == note_event(markers@, 2 * i));
            assert(track@[1 + 2 * i + 1] == note_event(markers@, 2 * i + 1));
        }
        idx += 1;
    }
    proof {
        assert(track@ =~= marker_track(markers@));
    }
    track
}

/// Turns the outcome of writing the file into the export's result: the
/// bytes when the write succeeded, an I/O error with the writer's message
/// otherwise.
pub fn midi_export_result(written: Result<(), std::io::Error>, bytes: Vec<u8>) -> (r: Result<
    Vec<u8>,
    ShowtimeError,
>)
    ensures
        written is Ok ==> (r matches Ok(b) && b@ == bytes@),
        written is Err ==> (r matches Err(ShowtimeError::Io(_))),
{
    match written {
        Ok(()) => Ok(bytes),
        Err(e) => Err(ShowtimeError::Io(e.to_string())),
    }
}

/// Serializes the markers as a MIDI file (bytes ready for a `.mid`).
///
/// Fails with an I/O error only when the track chunk would not fit a 32-bit
/// length, which cannot happen below 214 748 364 markers.
pub fn to_midi_bytes(markers: &[Marker]) -> (r: Result<Vec<u8>, ShowtimeError>)
    ensures
        r is Ok <==> smf_track_body(marker_track(markers@)).len() <= u32::MAX,
        20 * markers@.len() + 10 <= u32::MAX ==> r is Ok,
        r matches Ok(b) ==> b@ == midi_file_bytes(markers@),
        r matches Err(e) ==> e is Io,
{
    let events = marker_track_events(markers);
    let mut bytes: Vec<u8> = Vec::new();
    let written = write_single_track_smf(events.as_slice(), TICKS_PER_BEAT, &mut bytes);
    proof {
        assert(Seq::<u8>::empty() + midi_file_bytes(markers@) =~= midi_file_bytes(markers@));
    }
    midi_export_result(written, bytes)
}

} // verus!
