use midly::{Format, Smf, Timing, TrackEventKind};
use showtime::error::ShowtimeError;
use showtime::export::csv::to_csv;
use showtime::export::ma2_script::{to_ma2_commands, to_ma2_macro_xml, to_macro_xml};
use showtime::export::midi_file::{marker_track_events, midi_export_result, to_midi_bytes, SmfEvent, SmfEventKind};
use showtime::export::xml::{to_xml, xml_escape};
use showtime::markers::{Marker, MarkerType};
use showtime::timecode::Timecode;

fn ns(sec: f64) -> i64 {
    (sec * 1e9).round() as i64
}

fn marker_with(name: &str, comment: Option<&str>) -> Marker {
    let mut m = Marker::new(1, name, ns(12.5), "00:00:12:15".parse().unwrap(), 3, 2, MarkerType::Go);
    m.comment = comment.map(Into::into);
    m
}

fn intro() -> Marker {
    Marker::new(1, "Intro", ns(12.5), "00:00:12:15".parse().unwrap(), 3, 2, MarkerType::Go)
}

fn at(id: u32, time_sec: f64) -> Marker {
    Marker::new(id, "Intro", ns(time_sec), Timecode::zero(), id, 1, MarkerType::Go)
}

// -------------------------------------------------------------------- CSV

#[test]
fn header_and_columns() {
    let csv = to_csv(&[marker_with("Intro", None)]);
    let lines: Vec<&str> = csv.lines().collect();
    assert_eq!(lines[0], "timecode,cue_number,executor,tipo,nome,comentario");
    assert_eq!(lines[1], "00:00:12:15,3,2,go,Intro,");
}

#[test]
fn fields_with_comma_are_quoted() {
    let csv = to_csv(&[marker_with("Drop, main", Some("comentário com, vírgula"))]);
    assert!(csv.contains("\"Drop, main\""));
    assert!(csv.contains("\"comentário com, vírgula\""));
}

#[test]
fn embedded_quotes_doubled() {
    let csv = to_csv(&[marker_with("A \"B\" C", None)]);
    assert!(csv.contains("\"A \"\"B\"\" C\""));
}

#[test]
fn csv_of_no_markers_is_the_header() {
    assert_eq!(to_csv(&[]), "timecode,cue_number,executor,tipo,nome,comentario\n");
}

#[test]
fn csv_quotes_line_breaks() {
    let csv = to_csv(&[marker_with("two\nlines", Some("cr\rhere"))]);
    assert!(csv.ends_with(",go,\"two\nlines\",\"cr\rhere\"\n"));
}

// -------------------------------------------------------------------- XML

#[test]
fn structure_and_columns() {
    let xml = to_xml(&[intro()]);
    assert!(xml.contains("<markers>"));
    assert!(xml.contains("<timecode>00:00:12:15</timecode>"));
    assert!(xml.contains("<cue>3</cue>"));
    assert!(xml.contains("<executor>2</executor>"));
    assert!(xml.contains("<type>go</type>"));
    assert!(xml.contains("<name>Intro</name>"));
    assert!(xml.contains("<comment></comment>"));
    assert!(xml.contains("</markers>"));
}

#[test]
fn special_chars_escaped() {
    let mut m = intro();
    m.name = "A & B <C>".into();
    m.comment = Some("val \"aspas\"".into());
    let xml = to_xml(&[m]);
    assert!(xml.contains("<name>A &amp; B &lt;C&gt;</name>"));
    assert!(xml.contains("<comment>val &quot;aspas&quot;</comment>"));
}

#[test]
fn xml_escape_covers_all() {
    assert_eq!(xml_escape("&<>\"'"), "&amp;&lt;&gt;&quot;&apos;");
}

#[test]
fn xml_document_exactly() {
    let xml = to_xml(&[intro()]);
    assert_eq!(
        xml,
        "<?xml version=\"1.0\" encoding=\"UTF-8\"?>\n<markers>\n  <marker>\n    <timecode>00:00:12:15</timecode>\n    <cue>3</cue>\n    <executor>2</executor>\n    <type>go</type>\n    <name>Intro</name>\n    <comment></comment>\n  </marker>\n</markers>\n"
    );
}

#[test]
fn escaped_text_has_no_markup() {
    let e = xml_escape("<a href='x'>\"q\" & more</a>");
    assert!(!e.contains('<') && !e.contains('>') && !e.contains('"') && !e.contains('\''));
}

// -------------------------------------------------------------------- MA2

#[test]
fn commands_store_and_assign() {
    let script = to_ma2_commands(&[intro()]);
    assert_eq!(script, "Store Executor 2 Cue 3\nAssign Timecode 00:00:12:15 Executor 2 Cue 3\n");
}

#[test]
fn macro_xml_structure() {
    let xml = to_ma2_macro_xml("Showtime Cues", &[intro()]);
    assert!(xml.contains("<Macro name=\"Showtime Cues\">"));
    assert!(xml.contains("<MacroLine command=\"Store Executor 2 Cue 3\"/>"));
    assert!(xml.contains("<MacroLine command=\"Assign Timecode 00:00:12:15 Executor 2 Cue 3\"/>"));
    assert!(xml.contains("</Macro>"));
}

#[test]
fn macro_xml_escapes_commands() {
    let xml = to_macro_xml("M & M", &["Store Executor 1 Cue <2>".into()]);
    assert!(xml.contains("<Macro name=\"M &amp; M\">"));
    assert!(xml.contains("command=\"Store Executor 1 Cue &lt;2&gt;\""));
}

#[test]
fn macro_xml_lines_follow_the_script() {
    let markers = [intro(), Marker::new(2, "B", ns(20.0), "00:00:20:00".parse().unwrap(), 4, 7, MarkerType::Pause)];
    let script = to_ma2_commands(&markers);
    let commands: Vec<String> = script.lines().map(str::to_string).collect();
    assert_eq!(to_macro_xml("X", &commands), to_ma2_macro_xml("X", &markers));
    assert_eq!(
        to_macro_xml("X", &[]),
        "<?xml version=\"1.0\" encoding=\"UTF-8\"?>\n<Macro name=\"X\">\n</Macro>\n"
    );
}

// ------------------------------------------------------------------- MIDI

#[test]
fn roundtrip_has_note_pairs() {
    let markers = vec![at(1, 0.0), at(2, 1.0), at(3, 2.5)];
    let bytes = to_midi_bytes(&markers).unwrap();
    assert!(!bytes.is_empty());
    assert!(bytes.starts_with(b"MThd"));

    let parsed = Smf::parse(&bytes).unwrap();
    assert_eq!(parsed.header.format, Format::SingleTrack);
    assert_eq!(parsed.tracks.len(), 1);

    let note_events: usize = parsed.tracks[0]
        .iter()
        .filter(|e| matches!(e.kind, TrackEventKind::Midi { .. }))
        .count();
    assert_eq!(note_events, 6);
}

#[test]
fn ticks_follow_time() {
    let markers = vec![at(1, 0.0), at(2, 1.0)];
    let bytes = to_midi_bytes(&markers).unwrap();
    let parsed = Smf::parse(&bytes).unwrap();
    let deltas: Vec<u32> = parsed.tracks[0].iter().map(|e| u32::from(e.delta)).collect();
    assert!(deltas.contains(&960), "deltas: {deltas:?}");
}

#[test]
fn note_ons_sound_at_tick_plus_index() {
    // Markers at 0 s, 1 s and 2.5 s: ticks 0, 960 and 2400. Counting every
    // delta from the start, Note On i lands at its tick plus i.
    let events = marker_track_events(&[at(1, 0.0), at(2, 1.0), at(3, 2.5)]);
    let mut elapsed: Vec<u32> = Vec::new();
    let mut sum: u32 = 0;
    for e in &events {
        sum += e.delta;
        elapsed.push(sum);
    }
    assert_eq!(elapsed, vec![0, 0, 1, 961, 962, 2402, 2403]);
}

#[test]
fn midi_header_is_format_zero_at_480_ticks() {
    let bytes = to_midi_bytes(&[at(1, 0.5)]).unwrap();
    assert_eq!(&bytes[0..14], &[0x4d, 0x54, 0x68, 0x64, 0, 0, 0, 6, 0, 0, 0, 1, 0x01, 0xE0]);
    assert_eq!(&bytes[14..18], b"MTrk");
    let len = u32::from_be_bytes([bytes[18], bytes[19], bytes[20], bytes[21]]) as usize;
    assert_eq!(bytes.len(), 22 + len);
    let parsed = Smf::parse(&bytes).unwrap();
    assert_eq!(parsed.header.timing, Timing::Metrical(480.into()));
}

#[test]
fn track_events_of_markers() {
    let events = marker_track_events(&[at(1, 1.0), at(2, 0.5), at(3, 1.0)]);
    let expected = vec![
        SmfEvent { delta: 0, kind: SmfEventKind::Tempo(500_000) },
        SmfEvent { delta: 960, kind: SmfEventKind::NoteOn { channel: 0, key: 36, velocity: 100 } },
        SmfEvent { delta: 1, kind: SmfEventKind::NoteOff { channel: 0, key: 36, velocity: 0 } },
        SmfEvent { delta: 0, kind: SmfEventKind::NoteOn { channel: 0, key: 37, velocity: 100 } },
        SmfEvent { delta: 1, kind: SmfEventKind::NoteOff { channel: 0, key: 37, velocity: 0 } },
        SmfEvent { delta: 480, kind: SmfEventKind::NoteOn { channel: 0, key: 38, velocity: 100 } },
        SmfEvent { delta: 1, kind: SmfEventKind::NoteOff { channel: 0, key: 38, velocity: 0 } },
    ];
    assert_eq!(events, expected);
}

#[test]
fn notes_wrap_every_48_markers() {
    let markers: Vec<Marker> = (0..50).map(|i| at(i, 0.0)).collect();
    let events = marker_track_events(&markers);
    assert_eq!(events.len(), 101);
    assert_eq!(events[1 + 2 * 47].kind, SmfEventKind::NoteOn { channel: 0, key: 83, velocity: 100 });
    assert_eq!(events[1 + 2 * 48].kind, SmfEventKind::NoteOn { channel: 0, key: 36, velocity: 100 });
}

#[test]
fn ticks_round_and_clamp() {
    // 1/1920 s is half a tick: rounds up. Negative times sit at tick 0.
    let events = marker_track_events(&[at(1, -3.0), Marker::new(2, "x", 520_834, Timecode::zero(), 1, 1, MarkerType::Go)]);
    assert_eq!(events[1].delta, 0);
    assert_eq!(events[3].delta, 1);
    // Far beyond u32 ticks the tick saturates.
    let events = marker_track_events(&[Marker::new(1, "x", i64::MAX, Timecode::zero(), 1, 1, MarkerType::Go)]);
    assert_eq!(events[1].delta, u32::MAX);
}

#[test]
fn export_result_maps_write_errors() {
    let ok = midi_export_result(Ok(()), vec![1, 2, 3]).unwrap();
    assert_eq!(ok, vec![1, 2, 3]);
    let err = midi_export_result(Err(std::io::Error::new(std::io::ErrorKind::InvalidInput, "too big")), vec![]);
    match err {
        Err(ShowtimeError::Io(m)) => assert_eq!(m, "too big"),
        other => panic!("unexpected {other:?}"),
    }
}

#[test]
fn escaped_text_reads_back() {
    let text = "a & b <c> \"d\" 'e' &amp;";
    let escaped = xml_escape(text);
    let back = escaped
        .replace("&lt;", "<")
        .replace("&gt;", ">")
        .replace("&quot;", "\"")
        .replace("&apos;", "'")
        .replace("&amp;", "&");
    assert_eq!(back, text);
    assert_eq!(xml_escape("plain text 123"), "plain text 123");
}

#[test]
fn small_exports_always_succeed() {
    assert!(to_midi_bytes(&[]).is_ok());
}
