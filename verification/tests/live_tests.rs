use showtime::error::ShowtimeError;
use showtime::live::midi_events::{note_for, note_messages, select_event_port, MidiEventConfig, NoteMapping};
use showtime::live::mtc::{
    mtc_frame_period_ns, mtc_frame_update, quarter_frame_nibbles, select_output_port, MtcConfig,
};
use showtime::live::tcp_client::{Ma2Link, TcpConfig};
use showtime::markers::{Marker, MarkerType};
use showtime::timecode::Timecode;

// -------------------------------------------------------------------- MTC

#[test]
fn quarter_frames_30fps_ndf() {
    let tc = Timecode { hours: 1, minutes: 2, seconds: 3, frames: 4 };
    let qf = quarter_frame_nibbles(tc, 30000, false);
    assert_eq!(qf, [0x04, 0x10, 0x23, 0x30, 0x42, 0x50, 0x61, 0x76]);
}

#[test]
fn quarter_frames_2997_df_rate_bits() {
    let tc = Timecode { hours: 1, minutes: 2, seconds: 3, frames: 4 };
    let qf = quarter_frame_nibbles(tc, 29970, true);
    assert_eq!(qf[7], 0x7C);
}

#[test]
fn quarter_frames_25fps_rate_bits() {
    let tc = Timecode::zero();
    let qf = quarter_frame_nibbles(tc, 25000, false);
    assert_eq!(qf[7], 0x72);
}

#[test]
fn quarter_frames_frame_carry() {
    let tc = Timecode { hours: 0, minutes: 0, seconds: 0, frames: 0x1F };
    let qf = quarter_frame_nibbles(tc, 30000, false);
    assert_eq!(qf[0], 0x0F);
    assert_eq!(qf[1], 0x11);
}

#[test]
fn quarter_frames_rebuild_the_timecode() {
    let tc = Timecode { hours: 23, minutes: 59, seconds: 58, frames: 23 };
    let q = quarter_frame_nibbles(tc, 24000, false);
    for (k, b) in q.iter().enumerate() {
        assert_eq!((b >> 4) as usize, k);
    }
    assert_eq!((q[0] & 0xF) | ((q[1] & 0xF) << 4), 23);
    assert_eq!((q[2] & 0xF) | ((q[3] & 0xF) << 4), 58);
    assert_eq!((q[4] & 0xF) | ((q[5] & 0xF) << 4), 59);
    assert_eq!((q[6] & 0xF) | ((q[7] & 0x1) << 4), 23);
    assert_eq!((q[7] >> 1) & 0x3, 0);
}

#[test]
fn non_drop_2997_uses_rate_3() {
    let qf = quarter_frame_nibbles(Timecode::zero(), 29970, false);
    assert_eq!(qf[7], 0x76);
}

fn config(device: Option<&str>) -> MtcConfig {
    MtcConfig {
        device_name: device.map(str::to_string),
        fps_milli: 30000,
        drop_frame: false,
        offset: Timecode::zero(),
    }
}

#[test]
fn mtc_sends_every_frame() {
    let cfg = config(None);
    let (shown, msgs) = mtc_frame_update(1_000_000_000, &cfg);
    let one_second = Timecode { hours: 0, minutes: 0, seconds: 1, frames: 0 };
    assert_eq!(shown, one_second);
    assert_eq!(msgs.len(), 8);
    assert_eq!(msgs[0], vec![0xF1, 0x00]);
    assert_eq!(msgs[2], vec![0xF1, 0x21]);
    assert_eq!(msgs[7], vec![0xF1, 0x76]);
    // A held position sends the same 8 messages again.
    let (again, same) = mtc_frame_update(1_010_000_000, &cfg);
    assert_eq!(again, one_second);
    assert_eq!(same, msgs);
}

#[test]
fn mtc_shows_zero_when_conversion_fails() {
    let mut cfg = config(None);
    cfg.fps_milli = 0;
    let (shown, msgs) = mtc_frame_update(5_000_000_000, &cfg);
    assert_eq!(shown, Timecode::zero());
    assert_eq!(msgs.len(), 8);
}

#[test]
fn mtc_frame_period() {
    assert_eq!(mtc_frame_period_ns(30000), 33_333_333);
    assert_eq!(mtc_frame_period_ns(25000), 40_000_000);
    assert_eq!(mtc_frame_period_ns(29970), 33_366_700);
}

#[test]
fn output_port_selection() {
    let ports = vec![Some("Microsoft GS".to_string()), None, Some("IAC Driver Bus 1".to_string())];
    assert_eq!(select_output_port(&ports, &None).unwrap(), 0);
    assert_eq!(select_output_port(&ports, &Some("IAC".to_string())).unwrap(), 2);
    match select_output_port(&ports, &Some("loopMIDI".to_string())) {
        Err(ShowtimeError::Midi(m)) => assert_eq!(m, "dispositivo MIDI 'loopMIDI' não encontrado"),
        other => panic!("unexpected {other:?}"),
    }
    match select_output_port(&[], &Some("IAC".to_string())) {
        Err(ShowtimeError::Midi(m)) => assert_eq!(m, "nenhum dispositivo MIDI de saída"),
        other => panic!("unexpected {other:?}"),
    }
}

// ------------------------------------------------------------ MIDI events

#[test]
fn default_mapping_covers_all_types() {
    let cfg = MidiEventConfig::default();
    for t in MarkerType::all() {
        assert!(cfg.mapping.contains_key(&t), "type {t:?} without a note");
    }
    assert_eq!(cfg.mapping.get(&MarkerType::Go), Some(&60));
    assert_eq!(cfg.mapping.get(&MarkerType::Load), Some(&64));
}

#[test]
fn mapping_missing_falls_back_to_60() {
    let empty = NoteMapping::new();
    assert_eq!(note_for(&empty, MarkerType::Go), 60);

    let mut mapping = NoteMapping::new();
    mapping.insert(MarkerType::Pause, 72);
    assert_eq!(note_for(&mapping, MarkerType::Pause), 72);
    assert_eq!(note_for(&mapping, MarkerType::Go), 60);
}

#[test]
fn mapping_insert_returns_previous_note() {
    let mut mapping = NoteMapping::new();
    assert_eq!(mapping.insert(MarkerType::Goto, 70), None);
    assert_eq!(mapping.insert(MarkerType::Goto, 71), Some(70));
    assert_eq!(mapping.get(&MarkerType::Goto), Some(&71));
    assert!(!mapping.contains_key(&MarkerType::Toggle));
}

#[test]
fn note_on_then_off_for_a_marker() {
    let cfg = MidiEventConfig::default();
    let m = Marker::new(1, "x", 0, Timecode::zero(), 1, 1, MarkerType::Toggle);
    let msgs = note_messages(&cfg.mapping, &m);
    assert_eq!(msgs, vec![vec![0x90, 62, 100], vec![0x80, 62, 0]]);
}

#[test]
fn event_port_selection() {
    let ports = vec![Some("A".to_string()), Some("B".to_string())];
    assert_eq!(select_event_port(&ports, &Some("B".to_string())).unwrap(), 1);
    assert_eq!(select_event_port(&ports, &None).unwrap(), 0);
    match select_event_port(&[], &None) {
        Err(ShowtimeError::Midi(m)) => assert_eq!(m, "nenhum dispositivo MIDI de saída"),
        other => panic!("unexpected {other:?}"),
    }
    match select_event_port(&[], &Some("B".to_string())) {
        Err(ShowtimeError::Midi(m)) => assert_eq!(m, "dispositivo MIDI 'B' não encontrado"),
        other => panic!("unexpected {other:?}"),
    }
}

// -------------------------------------------------------------------- TCP

#[test]
fn tcp_defaults() {
    let cfg = TcpConfig::default();
    assert_eq!(cfg.ip, "192.168.1.10");
    assert_eq!(cfg.port, 3000);
    assert_eq!(cfg.address(), "192.168.1.10:3000");
}

#[test]
fn send_without_connect_fails() {
    let link = Ma2Link::new();
    assert!(link.command_line("Go Executor 1").is_err());
    assert!(!link.is_connected());
}

#[test]
fn link_refuses_commands_until_connected() {
    let mut link = Ma2Link::new();
    assert!(!link.is_connected());
    match link.command_line("Go Executor 1") {
        Err(ShowtimeError::Network(m)) => assert_eq!(m, "não conectado ao MA2"),
        other => panic!("unexpected {other:?}"),
    }
    link.connected();
    assert_eq!(link.command_line("Go Executor 1").unwrap(), "Go Executor 1\n");
    link.send_finished(true);
    assert!(link.is_connected());
    link.send_finished(false);
    assert!(!link.is_connected());
    link.connected();
    link.disconnected();
    assert!(!link.is_connected());
}
