use showtime::error::ShowtimeError;
use showtime::timecode::conversion::{
    seconds_to_timecode, seconds_to_timecode_fits_check, timecode_or_zero_at, timecode_to_seconds,
    timecode_to_seconds_fits_check,
};
use showtime::timecode::model::ParseTimecodeError;
use showtime::timecode::Timecode;

fn ns(sec: f64) -> i64 {
    (sec * 1e9).round() as i64
}

fn secs(ns: i64) -> f64 {
    ns as f64 / 1e9
}

fn tc(hours: u32, minutes: u32, seconds: u32, frames: u32) -> Timecode {
    Timecode { hours, minutes, seconds, frames }
}

#[test]
fn display_formats_zero_padded() {
    let tc = Timecode { hours: 1, minutes: 0, seconds: 12, frames: 16 };
    assert_eq!(tc.to_string(), "01:00:12:16");
}

#[test]
fn parse_roundtrip() {
    let tc: Timecode = "01:00:12:16".parse().unwrap();
    assert_eq!(tc.to_string(), "01:00:12:16");
    assert_eq!(tc.hours, 1);
    assert_eq!(tc.frames, 16);
}

#[test]
fn parse_single_digits() {
    let tc: Timecode = "0:0:0:0".parse().unwrap();
    assert_eq!(tc, Timecode::zero());
}

#[test]
fn parse_rejects_wrong_field_count() {
    assert!("01:00:12".parse::<Timecode>().is_err());
    assert!("01:00:12:16:00".parse::<Timecode>().is_err());
}

#[test]
fn parse_rejects_non_numeric() {
    assert!("aa:00:12:16".parse::<Timecode>().is_err());
}

#[test]
fn ndf_30_roundtrip() {
    // 12.5 s at 30 fps = 375 frames = 00:00:12:15
    let tc = seconds_to_timecode(ns(12.5), 30000, false, Timecode::zero()).unwrap();
    assert_eq!(tc, Timecode { hours: 0, minutes: 0, seconds: 12, frames: 15 });
    let back = timecode_to_seconds(tc, 30000, false, Timecode::zero()).unwrap();
    assert!((secs(back) - 12.5).abs() < 0.05);
}

#[test]
fn offset_applies_after_conversion() {
    let offset: Timecode = "01:00:00:00".parse().unwrap();
    let tc = seconds_to_timecode(ns(12.5333), 30000, false, offset).unwrap();
    assert_eq!(tc, Timecode { hours: 1, minutes: 0, seconds: 12, frames: 16 });
}

#[test]
fn df_29_97_vectors() {
    // 01:00:00:00 drop-frame == 107892 real frames == 3600 s at 29.97.
    let tc = seconds_to_timecode(ns(3600.0), 29970, true, Timecode::zero()).unwrap();
    assert_eq!(tc, Timecode { hours: 1, minutes: 0, seconds: 0, frames: 0 });
    let back = timecode_to_seconds(tc, 29970, true, Timecode::zero()).unwrap();
    assert!((secs(back) - 3600.0).abs() < 0.05);
}

#[test]
fn df_round_trip_property() {
    for s in (0..=7200).map(|x| x as f64 * 1.0) {
        let tc = seconds_to_timecode(ns(s), 29970, true, Timecode::zero()).unwrap();
        let back = timecode_to_seconds(tc, 29970, true, Timecode::zero()).unwrap();
        assert!(
            (secs(back) - s).abs() < 0.05,
            "round trip failed at {s}s -> {} -> {}",
            tc.to_string(),
            secs(back)
        );
    }
}

#[test]
fn invalid_fps_rejected() {
    assert!(seconds_to_timecode(ns(1.0), 0, false, Timecode::zero()).is_err());
}

#[test]
fn ndf_25_and_24() {
    let tc25 = seconds_to_timecode(ns(1.0), 25000, false, Timecode::zero()).unwrap();
    assert_eq!(tc25, Timecode { hours: 0, minutes: 0, seconds: 1, frames: 0 });
    // 0.5 s at 25 fps = 12.5 frames -> rounds to 13.
    let tc25b = seconds_to_timecode(ns(0.5), 25000, false, Timecode::zero()).unwrap();
    assert_eq!(tc25b.frames, 13);
    let tc24 = seconds_to_timecode(ns(0.5), 24000, false, Timecode::zero()).unwrap();
    assert_eq!(tc24.frames, 12);
}

#[test]
fn df_minute_boundary() {
    let tc = seconds_to_timecode(ns(60.0), 29970, true, Timecode::zero()).unwrap();
    assert_eq!(tc, Timecode { hours: 0, minutes: 1, seconds: 0, frames: 0 });
    let tc = seconds_to_timecode(ns(60.0666), 29970, true, Timecode::zero()).unwrap();
    assert_eq!(tc, Timecode { hours: 0, minutes: 1, seconds: 0, frames: 2 });
}

#[test]
fn df_rejects_non_2997() {
    assert!(seconds_to_timecode(ns(1.0), 30000, true, Timecode::zero()).is_err());
}

#[test]
fn tc_with_offset_roundtrip() {
    let offset: Timecode = "01:00:00:00".parse().unwrap();
    for s in (0..=3600).map(|x| x as f64 * 2.0) {
        let tc = seconds_to_timecode(ns(s), 29970, true, offset).unwrap();
        let back = timecode_to_seconds(tc, 29970, true, offset).unwrap();
        assert!((secs(back) - s).abs() < 0.05, "offset round trip failed at {s}s");
    }
}

#[test]
fn invalid_tc_fields_rejected() {
    let bad = Timecode { hours: 0, minutes: 0, seconds: 12, frames: 30 };
    assert!(timecode_to_seconds(bad, 30000, false, Timecode::zero()).is_err());
}

// ---------------------------------------------------------------- own tests

#[test]
fn negative_time_is_rejected() {
    let r = seconds_to_timecode(-1, 30000, false, Timecode::zero());
    assert!(matches!(r, Err(ShowtimeError::InvalidTimecode(_))));
}

#[test]
fn offset_out_of_range_is_rejected() {
    let r = seconds_to_timecode(0, 25000, false, tc(0, 0, 0, 25));
    assert!(matches!(r, Err(ShowtimeError::InvalidTimecode(_))));
    let r = seconds_to_timecode(0, 25000, false, tc(0, 60, 0, 0));
    assert!(r.is_err());
}

#[test]
fn df_skips_two_labels_at_the_minute_boundary() {
    // Real frame 1797 reads 00:00:59:27; real frame 1798, the boundary of
    // minute 1, reads 00:01:00:00: two labels are skipped.
    let just_before = seconds_to_timecode(ns(1797.0 / 29.97), 29970, true, Timecode::zero()).unwrap();
    assert_eq!(just_before, tc(0, 0, 59, 27));
    let at = seconds_to_timecode(ns(1798.0 / 29.97), 29970, true, Timecode::zero()).unwrap();
    assert_eq!(at, tc(0, 1, 0, 0));
}

#[test]
fn df_tenth_minute_keeps_labels() {
    // 10 minutes of real time read 00:10:00:00 (17982 real frames).
    let t = seconds_to_timecode(ns(600.0), 29970, true, Timecode::zero()).unwrap();
    assert_eq!(t, tc(0, 10, 0, 0));
}

#[test]
fn dropped_label_has_no_time() {
    // 00:00:59:28 is never displayed in drop-frame counting.
    let r = timecode_to_seconds(tc(0, 0, 59, 28), 29970, true, Timecode::zero());
    assert!(r.is_err());
}

#[test]
fn timecode_before_offset_is_outside_the_conversion() {
    let offset = tc(1, 0, 0, 0);
    assert!(!timecode_to_seconds_fits_check(tc(0, 59, 59, 0), 30000, false, offset));
    assert!(timecode_to_seconds_fits_check(tc(1, 0, 0, 0), 30000, false, offset));
    assert_eq!(timecode_to_seconds(tc(1, 0, 0, 0), 30000, false, offset).unwrap(), 0);
}

#[test]
fn ndf_frame_start_is_exact() {
    // Frame 1 at 30 fps starts at 1/30 s, rounded to the nanosecond.
    let t = timecode_to_seconds(tc(0, 0, 0, 1), 30000, false, Timecode::zero()).unwrap();
    assert_eq!(t, 33_333_333);
    let t = timecode_to_seconds(tc(0, 0, 1, 0), 25000, false, Timecode::zero()).unwrap();
    assert_eq!(t, 1_000_000_000);
}

#[test]
fn time_round_trip_on_frame_starts() {
    for n in 0..2000u64 {
        let t = ((2 * n * 1_000_000_000_000 + 29970) / (2 * 29970)) as i64;
        let shown = seconds_to_timecode(t, 29970, true, Timecode::zero()).unwrap();
        let back = timecode_to_seconds(shown, 29970, true, Timecode::zero()).unwrap();
        assert_eq!(back, t);
    }
}

#[test]
fn fits_check_accepts_ordinary_positions() {
    assert!(seconds_to_timecode_fits_check(ns(3600.0), 29970, true, Timecode::zero()));
    assert!(seconds_to_timecode_fits_check(i64::MAX, 30000, false, Timecode::zero()));
}

#[test]
fn display_falls_back_to_zero() {
    assert_eq!(timecode_or_zero_at(-5, 30000, false, Timecode::zero()), Timecode::zero());
    assert_eq!(timecode_or_zero_at(ns(1.0), 30000, false, tc(0, 0, 0, 1)), tc(0, 0, 1, 1));
}

#[test]
fn parse_error_names_the_input() {
    let e: ParseTimecodeError = "x".parse::<Timecode>().unwrap_err();
    assert_eq!(e.to_string(), "timecode inválido 'x' (esperado HH:MM:SS:FF)");
}

#[test]
fn parse_trims_fields() {
    let t: Timecode = " 1 : 2 :3: 4 ".parse().unwrap();
    assert_eq!(t, tc(1, 2, 3, 4));
    assert!("1:2:3:99999999999".parse::<Timecode>().is_err());
    assert!("1:2:3:-4".parse::<Timecode>().is_err());
}

#[test]
fn display_keeps_wide_fields() {
    assert_eq!(tc(123, 4, 5, 6).to_string(), "123:04:05:06");
}

#[test]
fn error_messages_carry_their_prefix() {
    let e = ShowtimeError::InvalidTimecode("x".to_string());
    assert_eq!(e.to_string(), "timecode inválido: x");
    let e = ShowtimeError::Network("y".to_string());
    assert_eq!(e.to_string(), "erro de rede: y");
}

#[test]
fn text_parses_back_to_the_timecode() {
    for t in [tc(0, 0, 0, 0), tc(1, 2, 3, 4), tc(123, 59, 59, 29), tc(u32::MAX, 7, 8, 9)] {
        let back: Timecode = t.to_string().parse().unwrap();
        assert_eq!(back, t);
    }
}

#[test]
fn errors_name_the_offending_value() {
    let message = |r: Result<Timecode, ShowtimeError>| match r {
        Err(ShowtimeError::InvalidTimecode(m)) => m,
        other => panic!("unexpected {other:?}"),
    };
    let zero = Timecode::zero();
    assert_eq!(message(seconds_to_timecode(ns(-1.5), 30000, false, zero)), "tempo negativo: -1.5s");
    assert_eq!(message(seconds_to_timecode(-2_000_000_000, 30000, false, zero)), "tempo negativo: -2s");
    assert_eq!(message(seconds_to_timecode(-250_000, 30000, false, zero)), "tempo negativo: -0.00025s");
    assert_eq!(message(seconds_to_timecode(0, 0, false, zero)), "frame rate inválido: 0");
    assert_eq!(
        message(seconds_to_timecode(0, 30000, true, zero)),
        "drop-frame só é suportado em 29.97fps (recebido 30)"
    );
    assert_eq!(
        message(seconds_to_timecode(0, 23976, true, zero)),
        "drop-frame só é suportado em 29.97fps (recebido 23.976)"
    );
    match timecode_to_seconds(zero, 25000, true, zero) {
        Err(ShowtimeError::InvalidTimecode(m)) => {
            assert_eq!(m, "drop-frame só é suportado em 29.97fps (recebido 25)")
        }
        other => panic!("unexpected {other:?}"),
    }
}
