use showtime::audio::transport::TransportClock;

/// A clock over one second of stereo audio at 44.1 kHz.
fn silent() -> TransportClock {
    TransportClock::new(44100 * 2, 44100, 2)
}

#[test]
fn duration_from_samples() {
    let p = silent();
    assert_eq!(p.duration_ns(), 1_000_000_000);
}

#[test]
fn seek_clamps_to_duration() {
    let mut p = silent();
    assert_eq!(p.seek(5_000_000_000, 0), None);
    assert_eq!(p.position_ns(0), (1_000_000_000, false));
    p.seek(-2_000_000_000, 0);
    assert_eq!(p.position_ns(0).0, 0);
}

#[test]
fn clock_advances_while_playing() {
    let mut p = silent();
    assert_eq!(p.play(), Some(0));
    let (pos, ended) = p.position_ns(50_000_000);
    assert!(pos > 0 && pos < 1_000_000_000, "position: {pos}");
    assert!(!ended);
}

#[test]
fn pause_freezes_position() {
    let mut p = silent();
    p.play();
    p.pause(30_000_000);
    let frozen = p.position_ns(0).0;
    assert_eq!(p.position_ns(30_000_000).0, frozen);
    assert_eq!(frozen, 30_000_000);
}

#[test]
fn stop_resets_position() {
    let mut p = silent();
    p.play();
    p.position_ns(30_000_000);
    p.stop();
    assert_eq!(p.position_ns(10).0, 0);
    assert!(!p.is_playing());
}

// ---------------------------------------------------------------- own tests

#[test]
fn duration_rounds_to_the_nanosecond() {
    let c = TransportClock::new(1, 3, 1);
    assert_eq!(c.duration_ns(), 333_333_333);
    let c = TransportClock::new(0, 48000, 2);
    assert_eq!(c.duration_ns(), 0);
}

#[test]
fn clock_stands_still_while_stopped() {
    let mut c = silent();
    assert_eq!(c.position_ns(50_000_000), (0, false));
}

#[test]
fn playing_to_the_end_stops() {
    let mut c = silent();
    c.play();
    assert_eq!(c.position_ns(2_000_000_000), (1_000_000_000, true));
    assert!(!c.is_playing());
    // Playing again from the end restarts at the beginning.
    assert_eq!(c.play(), Some(0));
    assert_eq!(c.position_ns(0).0, 0);
}

#[test]
fn source_restarts_at_the_frame_of_the_position() {
    let mut c = TransportClock::new(6, 3, 2);
    // 3 frames per second of 2 channels: 0.5 s is frame 1.5 -> 2 -> sample 4.
    assert_eq!(c.source_start(500_000_000), Some(4));
    assert_eq!(c.source_start(1_000_000_000), None);
    assert_eq!(c.source_start(-1), Some(0));
    c.play();
    assert_eq!(c.seek(333_333_334, 0), Some(2));
}

#[test]
fn seek_while_paused_restarts_nothing() {
    let mut c = silent();
    assert_eq!(c.seek(500_000_000, 0), None);
    assert_eq!(c.play(), Some(44100));
}
