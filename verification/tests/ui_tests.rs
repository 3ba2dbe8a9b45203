use showtime::markers::{Marker, MarkerManager, MarkerType};
use showtime::timecode::Timecode;
use showtime::ui::app::{
    add_marker_at, apply_edit, crossed_markers, device_choice, export_target, live_command,
    next_cue_number,
    recompute_marker_timecodes, ExportKind,
};
use showtime::ui::marker_panel::{
    edit_dialog_input, edit_dialog_outcome, MarkerEditDraft, MarkerEditResult, MarkerPanelAction,
};
use showtime::ui::settings::{frame_rates, AppSettings};
use showtime::ui::timeline::parse_hex_color;

fn ns(sec: f64) -> i64 {
    (sec * 1e9).round() as i64
}

fn tc(hours: u32, minutes: u32, seconds: u32, frames: u32) -> Timecode {
    Timecode { hours, minutes, seconds, frames }
}

// ----------------------------------------------------------- marker panel

#[test]
fn panel_action_starts_empty() {
    let a = MarkerPanelAction::default();
    assert!(!a.add);
    assert!(a.edit.is_none() && a.remove.is_none() && a.select.is_none());
}

#[test]
fn draft_round_trip_trims_name_and_color() {
    let mut m = Marker::new(4, "Intro", ns(3.0), tc(0, 0, 3, 0), 5, 6, MarkerType::Go);
    let mut draft = MarkerEditDraft::from_marker(&m);
    assert_eq!(draft.id, 4);
    assert_eq!(draft.color, "");
    assert_eq!(draft.comment, "");
    draft.name = "  Verse 1 \t".into();
    draft.marker_type = MarkerType::Goto;
    draft.cue_number = 9;
    draft.executor = 2;
    draft.color = " #FF8800 ".into();
    draft.comment = " keep spaces ".into();
    draft.apply_to(&mut m);
    assert_eq!(m.name, "Verse 1");
    assert_eq!(m.marker_type, MarkerType::Goto);
    assert_eq!(m.cue_number, 9);
    assert_eq!(m.executor, 2);
    assert_eq!(m.color.as_deref(), Some("#FF8800"));
    assert_eq!(m.comment.as_deref(), Some(" keep spaces "));
    assert_eq!(m.id, 4);
    assert_eq!(m.time_ns, ns(3.0));
    assert_eq!(MarkerEditDraft::from_marker(&m).color, "#FF8800");
    assert_ne!(MarkerEditResult::Save, MarkerEditResult::Cancel);
}

// ---------------------------------------------------------------- colors

#[test]
fn hex_colors_parse() {
    assert_eq!(parse_hex_color("#FF8800"), Some((255, 136, 0)));
    assert_eq!(parse_hex_color("  ##0a0B0c "), Some((10, 11, 12)));
    assert_eq!(parse_hex_color("abcdef"), Some((0xab, 0xcd, 0xef)));
    assert_eq!(parse_hex_color("+f+f+f"), None);
    assert_eq!(parse_hex_color("aé123"), None);
    assert_eq!(parse_hex_color("ab€c"), None);
    assert_eq!(parse_hex_color("#FF88"), None);
    assert_eq!(parse_hex_color("#GG8800"), None);
    assert_eq!(parse_hex_color("-f0000"), None);
    assert_eq!(parse_hex_color(""), None);
    assert_eq!(parse_hex_color("zz€a"), None);
}

// -------------------------------------------------------------- settings

#[test]
fn settings_defaults_and_rates() {
    let s = AppSettings::default();
    assert_eq!(s.fps_milli, 30000);
    assert!(!s.drop_frame);
    assert_eq!(s.offset, Timecode::zero());
    assert_eq!(s.midi_device, "");
    assert_eq!(s.tcp_ip, "192.168.1.10");
    assert_eq!(s.tcp_port, 3000);
    assert_eq!(frame_rates(), [24000, 25000, 30000, 29970]);
}

#[test]
fn leaving_2997_turns_drop_frame_off() {
    let mut s = AppSettings::default();
    assert!(!s.choose_drop_frame(true));
    assert!(!s.drop_frame);
    assert!(s.choose_frame_rate(29970));
    assert!(s.drop_frame_allowed());
    assert!(s.choose_drop_frame(true));
    assert!(s.drop_frame);
    assert!(s.choose_frame_rate(25000));
    assert!(!s.drop_frame);
}

#[test]
fn offset_text_commits_only_valid_changes() {
    let mut s = AppSettings::default();
    assert!(s.commit_offset_text("01:00:00:00"));
    assert_eq!(s.offset, tc(1, 0, 0, 0));
    assert!(!s.commit_offset_text("01:00:00:00"));
    assert!(!s.commit_offset_text("nope"));
    assert_eq!(s.offset, tc(1, 0, 0, 0));
}

// ------------------------------------------------------------ app logic

#[test]
fn next_cue_is_one_above_the_largest() {
    assert_eq!(next_cue_number(&[]), 1);
    let markers = vec![
        Marker::new(0, "a", 0, Timecode::zero(), 7, 1, MarkerType::Go),
        Marker::new(1, "b", 0, Timecode::zero(), 3, 1, MarkerType::Go),
    ];
    assert_eq!(next_cue_number(&markers), 8);
}

#[test]
fn marker_added_at_position() {
    let mut mgr = MarkerManager::new();
    let settings = AppSettings::default();
    let id = add_marker_at(&mut mgr, ns(2.5), &settings);
    let m = mgr.get(id).unwrap();
    assert_eq!(m.name, "Marcador");
    assert_eq!(m.timecode, tc(0, 0, 2, 15));
    assert_eq!(m.cue_number, 1);
    assert_eq!(m.executor, 1);
    assert_eq!(m.marker_type, MarkerType::Go);
    let id2 = add_marker_at(&mut mgr, ns(1.0), &settings);
    assert_eq!(mgr.get(id2).unwrap().cue_number, 2);
    assert_eq!(mgr.markers()[0].id, id2);
}

#[test]
fn timecodes_follow_new_settings() {
    let mut mgr = MarkerManager::new();
    let mut settings = AppSettings::default();
    let a = add_marker_at(&mut mgr, ns(1.0), &settings);
    let b = add_marker_at(&mut mgr, ns(61.0), &settings);
    settings.choose_frame_rate(25000);
    settings.commit_offset_text("01:00:00:00");
    recompute_marker_timecodes(&mut mgr, &settings);
    assert_eq!(mgr.get(a).unwrap().timecode, tc(1, 0, 1, 0));
    assert_eq!(mgr.get(b).unwrap().timecode, tc(1, 1, 1, 0));
    // A rate the conversion rejects keeps the previous timecodes.
    settings.fps_milli = 0;
    recompute_marker_timecodes(&mut mgr, &settings);
    assert_eq!(mgr.get(a).unwrap().timecode, tc(1, 0, 1, 0));
}

#[test]
fn live_commands_per_type() {
    let m = |t| Marker::new(1, "x", 0, Timecode::zero(), 12, 3, t);
    assert_eq!(live_command(&m(MarkerType::Go)), "Go Executor 3");
    assert_eq!(live_command(&m(MarkerType::Toggle)), "Go Executor 3");
    assert_eq!(live_command(&m(MarkerType::Load)), "Go Executor 3");
    assert_eq!(live_command(&m(MarkerType::Pause)), "Pause Executor 3");
    assert_eq!(live_command(&m(MarkerType::Goto)), "Goto Cue 12 Executor 3");
}

#[test]
fn crossed_markers_between_positions() {
    let markers: Vec<Marker> = [1.0, 2.0, 3.0]
        .iter()
        .enumerate()
        .map(|(i, s)| Marker::new(i as u32, "x", ns(*s), Timecode::zero(), 1, 1, MarkerType::Go))
        .collect();
    assert_eq!(crossed_markers(&markers, ns(1.0), ns(2.5)), vec![1]);
    assert_eq!(crossed_markers(&markers, ns(0.5), ns(3.0)), vec![0, 1, 2]);
    assert!(crossed_markers(&markers, ns(2.5), ns(1.0)).is_empty());
    assert!(crossed_markers(&markers, ns(2.0), ns(2.0)).is_empty());
    // Split moves fire each marker once.
    let mut fired = crossed_markers(&markers, ns(0.0), ns(1.5));
    fired.extend(crossed_markers(&markers, ns(1.5), ns(3.0)));
    assert_eq!(fired, vec![0, 1, 2]);
}

#[test]
fn blank_device_means_first_port() {
    assert_eq!(device_choice("   "), None);
    assert_eq!(device_choice(""), None);
    assert_eq!(device_choice("  IAC Driver "), Some("IAC Driver".to_string()));
}

#[test]
fn export_dialogs() {
    assert_eq!(export_target(ExportKind::Csv), ("CSV", "csv", "cues.csv"));
    assert_eq!(export_target(ExportKind::Xml), ("XML", "xml", "cues.xml"));
    assert_eq!(export_target(ExportKind::Ma2Macro), ("Macro MA2", "xml", "showtime_macro.xml"));
    assert_eq!(export_target(ExportKind::Midi), ("MIDI", "mid", "cues.mid"));
}

#[test]
fn edit_dialog_outcomes() {
    let (save, cancel) = (MarkerEditResult::Save, MarkerEditResult::Cancel);
    assert_eq!(edit_dialog_outcome(Some(save), true, true), (Some(save), false));
    assert_eq!(edit_dialog_outcome(Some(cancel), false, true), (Some(cancel), false));
    assert_eq!(edit_dialog_outcome(None, false, true), (Some(cancel), false));
    assert_eq!(edit_dialog_outcome(None, true, true), (None, true));
}

#[test]
fn edit_dialog_keys_and_buttons_precedence() {
    let (save, cancel) = (MarkerEditResult::Save, MarkerEditResult::Cancel);
    // Esc wins over everything else in the same frame.
    assert_eq!(edit_dialog_input(true, true, true, true, true, true), (Some(cancel), false));
    // Enter wins over both buttons.
    assert_eq!(edit_dialog_input(true, true, true, false, true, true), (Some(save), false));
    // The Cancel button wins over the Save button.
    assert_eq!(edit_dialog_input(true, true, false, false, true, true), (Some(cancel), false));
    assert_eq!(edit_dialog_input(true, false, false, false, true, true), (Some(save), false));
    // Closing the window with nothing pressed cancels; otherwise it stays.
    assert_eq!(edit_dialog_input(false, false, false, false, false, true), (Some(cancel), false));
    assert_eq!(edit_dialog_input(false, false, false, false, true, true), (None, true));
}

#[test]
fn saving_an_edit_recomputes_timecodes() {
    let mut mgr = MarkerManager::new();
    let mut settings = AppSettings::default();
    let id = add_marker_at(&mut mgr, ns(2.0), &settings);
    settings.choose_frame_rate(25000);
    let mut draft = MarkerEditDraft::from_marker(mgr.get(id).unwrap());
    draft.name = " Chorus ".into();
    draft.executor = 4;
    assert!(apply_edit(&mut mgr, &draft, &settings));
    let m = mgr.get(id).unwrap();
    assert_eq!(m.name, "Chorus");
    assert_eq!(m.executor, 4);
    assert_eq!(m.timecode, tc(0, 0, 2, 0));
    draft.id = 99;
    assert!(!apply_edit(&mut mgr, &draft, &settings));
}

#[test]
fn settings_edits_of_one_frame() {
    let mut s = AppSettings::default();
    assert!(!s.apply_edits(None, None, None));
    assert!(s.apply_edits(Some(29970), Some(true), Some("00:00:10:00")));
    assert_eq!((s.fps_milli, s.drop_frame, s.offset), (29970, true, tc(0, 0, 10, 0)));
    assert!(s.apply_edits(Some(24000), Some(true), Some("bad")));
    assert_eq!((s.fps_milli, s.drop_frame, s.offset), (24000, false, tc(0, 0, 10, 0)));
    // Without a frame rate: an ignored drop-frame toggle and the same offset
    // change nothing; a new offset alone does.
    assert!(!s.apply_edits(None, Some(true), Some("00:00:10:00")));
    assert!(s.apply_edits(None, None, Some("00:00:11:00")));
    assert_eq!(s.offset, tc(0, 0, 11, 0));
    s.tcp_port = 4000;
    assert!(s.apply_edits(Some(29970), None, None));
    assert!(s.apply_edits(None, Some(true), None));
    assert!(s.drop_frame);
    assert_eq!((s.tcp_port, s.tcp_ip.as_str()), (4000, "192.168.1.10"));
}
