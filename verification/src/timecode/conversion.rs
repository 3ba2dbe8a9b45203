//! Conversions between time positions and [`Timecode`] with frame rate,
//! drop-frame counting and offset.
//!
//! Time positions are integer nanoseconds from the start of the audio and
//! frame rates are integer milli-frames per second (`29_970` is 29.97 fps).
//!
//! # Drop-frame (29.97)
//!
//! Drop-frame counting advances the displayed count by two extra labels at
//! the boundary of every minute except every tenth one, so that the display
//! follows real time: one real hour reads `01:00:00:00` (107892 real frames
//! at 29.97 fps). The real frame on a boundary shows the minute's `00`
//! label; the last two labels before it (`..:59:28` and `..:59:29`) are the
//! ones never shown.
//!
//! Given the real frame `n`, the displayed (nominal) value is
//! `D(n) = n + 2 * E(n)`, where `E(n)` counts the drop events whose minute
//! boundary `B_k = round(k * 60 * 29.97)` lies at or before `n`. The inverse
//! solves `n = D - 2 * E(n)` by fixed-point iteration.

use vstd::prelude::*;
use vstd::arithmetic::div_mod::*;

use super::model::Timecode;
use crate::error::ShowtimeError;
use crate::text::{push_char, push_scaled_decimal, scaled_decimal};

verus! {

// ------------------------------------------------------------------ model

/// Real frame (29.97 fps) at which drop minute `k` begins:
/// `round(k * 60 * 29.97) = round(k * 1798.2)`.
pub open spec fn boundary_of_minute(k: nat) -> nat {
    (17982 * k + 5) / 10
}

/// Drop events of minutes `k, k+1, ...` whose boundary lies at or before the
/// real frame `n`; every tenth minute has no drop event.
pub open spec fn drop_events_from(n: nat, k: nat) -> nat
    decreases n + 1 - k,
{
    if boundary_of_minute(k) > n {
        0
    } else {
        (if k % 10 != 0 { 1nat } else { 0nat }) + drop_events_from(n, k + 1)
    }
}

/// `E(n)`: drop events (each skipping two labels) up to the real frame `n`.
pub open spec fn drop_count(n: nat) -> nat {
    drop_events_from(n, 1)
}

/// `D(n)`: the nominal (displayed) frame count of the real frame `n`.
pub open spec fn nominal_of(n: nat, drop_frame: bool) -> nat {
    if drop_frame {
        n + 2 * drop_count(n)
    } else {
        n
    }
}

/// Integer frame rate used to split the display: the milli-fps rounded to
/// the nearest whole frame per second.
pub open spec fn rounded_fps(fps_milli: nat) -> nat {
    (fps_milli + 500) / 1000
}

/// Nominal frame count of a timecode at `f` frames per second.
pub open spec fn nominal_of_tc(tc: Timecode, f: nat) -> nat {
    (tc.hours * 3600 * f + tc.minutes * 60 * f + tc.seconds * f + tc.frames) as nat
}

/// Timecode displaying the nominal frame count `d` at `f` frames per second
/// (the hours keep the low 32 bits).
pub open spec fn tc_of_nominal(d: nat, f: nat) -> Timecode {
    let rem = d % (3600 * f);
    let rem2 = rem % (60 * f);
    Timecode {
        hours: (d / (3600 * f)) as u32,
        minutes: (rem / (60 * f)) as u32,
        seconds: (rem2 / f) as u32,
        frames: (rem2 % f) as u32,
    }
}

/// All fields of `tc` are in range at `f` frames per second.
pub open spec fn is_valid_tc(tc: Timecode, f: nat) -> bool {
    tc.frames < f && tc.seconds < 60 && tc.minutes < 60
}

/// Field-wise sum of two timecodes with carries (hours carry, no wrap).
pub open spec fn sum_tc(a: Timecode, b: Timecode, f: nat) -> Timecode {
    let fr = a.frames + b.frames;
    let c1: nat = if fr >= f { 1 } else { 0 };
    let s = a.seconds + b.seconds + c1;
    let c2: nat = if s >= 60 { 1 } else { 0 };
    let m = a.minutes + b.minutes + c2;
    let c3: nat = if m >= 60 { 1 } else { 0 };
    Timecode {
        hours: (a.hours + b.hours + c3) as u32,
        minutes: (m - 60 * c3) as u32,
        seconds: (s - 60 * c2) as u32,
        frames: (fr - f * c1) as u32,
    }
}

/// The hours of `sum_tc(a, b, f)` fit in `u32`.
pub open spec fn sum_tc_fits(a: Timecode, b: Timecode, f: nat) -> bool {
    let c1: nat = if a.frames + b.frames >= f { 1 } else { 0 };
    let c2: nat = if a.seconds + b.seconds + c1 >= 60 { 1 } else { 0 };
    let c3: nat = if a.minutes + b.minutes + c2 >= 60 { 1 } else { 0 };
    a.hours + b.hours + c3 <= u32::MAX
}

/// Real frames at `fps_milli` nearest to `time_ns`: `round(t * fps)`.
pub open spec fn real_frames_of(time_ns: int, fps_milli: nat) -> nat {
    ((time_ns * fps_milli + 500_000_000_000) / 1_000_000_000_000) as nat
}

/// Start of the real frame `n` in nanoseconds, rounded to the nearest
/// nanosecond: `round(n / fps)`.
pub open spec fn frame_start_ns(n: nat, fps_milli: nat) -> nat {
    ((2 * n * 1_000_000_000_000 + fps_milli) / (2 * fps_milli)) as nat
}

/// Inputs that `seconds_to_timecode` rejects with an error: a non-positive
/// frame rate, drop-frame at another rate than 29.97, an offset with fields
/// out of range, or a negative time.
pub open spec fn seconds_to_timecode_rejects(
    time_ns: int,
    fps_milli: nat,
    drop_frame: bool,
    offset: Timecode,
) -> bool {
    ||| fps_milli == 0
    ||| drop_frame && fps_milli != 29970
    ||| !is_valid_tc(offset, rounded_fps(fps_milli))
    ||| time_ns < 0
}

/// The timecode displayed at `time_ns`: real frames, nominal count, display
/// fields, then the offset added field-wise.
pub open spec fn timecode_at(
    time_ns: int,
    fps_milli: nat,
    drop_frame: bool,
    offset: Timecode,
) -> Timecode {
    let f = rounded_fps(fps_milli);
    let d = nominal_of(real_frames_of(time_ns, fps_milli), drop_frame);
    sum_tc(tc_of_nominal(d, f), offset, f)
}

/// The arithmetic of the conversion stays within the machine integers
/// (`u64` nominal frames, `u32` hours) for an accepted input.
pub open spec fn seconds_to_timecode_fits(
    time_ns: int,
    fps_milli: nat,
    drop_frame: bool,
    offset: Timecode,
) -> bool {
    !seconds_to_timecode_rejects(time_ns, fps_milli, drop_frame, offset) ==> {
        let f = rounded_fps(fps_milli);
        let d = nominal_of(real_frames_of(time_ns, fps_milli), drop_frame);
        &&& d <= u64::MAX
        &&& sum_tc_fits(tc_of_nominal(d, f), offset, f)
    }
}

/// Inputs that `timecode_to_seconds` rejects before inverting the count.
pub open spec fn timecode_to_seconds_rejects(
    tc: Timecode,
    fps_milli: nat,
    drop_frame: bool,
    offset: Timecode,
) -> bool {
    ||| fps_milli == 0
    ||| drop_frame && fps_milli != 29970
    ||| !is_valid_tc(tc, rounded_fps(fps_milli))
    ||| !is_valid_tc(offset, rounded_fps(fps_milli))
}

/// `tc` is not before `offset` and its nominal count fits in `u64`.
pub open spec fn timecode_to_seconds_fits(
    tc: Timecode,
    fps_milli: nat,
    drop_frame: bool,
    offset: Timecode,
) -> bool {
    !timecode_to_seconds_rejects(tc, fps_milli, drop_frame, offset) ==> {
        let f = rounded_fps(fps_milli);
        &&& nominal_of_tc(tc, f) <= u64::MAX
        &&& nominal_of_tc(offset, f) <= nominal_of_tc(tc, f)
    }
}

/// Some real frame displays the nominal count `d`.
pub open spec fn is_displayed(d: nat, drop_frame: bool) -> bool {
    exists|m: nat| nominal_of(m, drop_frame) == d
}

/// The real frame that displays the nominal count `d` (meaningful when
/// `is_displayed(d, drop_frame)`; it is then unique).
pub open spec fn real_of_nominal(d: nat, drop_frame: bool) -> nat {
    choose|m: nat| nominal_of(m, drop_frame) == d
}

/// Nominal count of `tc` measured from `offset`.
pub open spec fn nominal_since_offset(tc: Timecode, fps_milli: nat, offset: Timecode) -> nat {
    let f = rounded_fps(fps_milli);
    (nominal_of_tc(tc, f) - nominal_of_tc(offset, f)) as nat
}

/// Start in nanoseconds of the real frame that displays `tc`, saturated at
/// `i64::MAX`.
pub open spec fn time_of_timecode(
    tc: Timecode,
    fps_milli: nat,
    drop_frame: bool,
    offset: Timecode,
) -> int {
    let t = frame_start_ns(
        real_of_nominal(nominal_since_offset(tc, fps_milli, offset), drop_frame),
        fps_milli,
    );
    if t > i64::MAX {
        i64::MAX as int
    } else {
        t as int
    }
}

// ------------------------------------------------------------------ lemmas

proof fn lemma_boundary_facts(k: nat)
    ensures
        boundary_of_minute(k) >= 1798 * k,
        boundary_of_minute(k + 1) >= boundary_of_minute(k) + 1798,
        boundary_of_minute(k + 1) <= boundary_of_minute(k) + 1799,
{
}

/// Every counted event needs a boundary at least 1798 frames after the
/// previous one: `1798 * E(n) <= n`.
proof fn lemma_events_bound(n: nat, k: nat)
    requires
        k >= 1,
        1798 * (k - 1) <= n,
    ensures
        1798 * (k - 1 + drop_events_from(n, k)) <= n,
    decreases n + 1 - k,
{
    lemma_boundary_facts(k);
    if boundary_of_minute(k) <= n {
        lemma_events_bound(n, k + 1);
    }
}

pub proof fn lemma_drop_count_bound(n: nat)
    ensures
        1798 * drop_count(n) <= n,
        2 * drop_count(n) <= n,
{
    lemma_events_bound(n, 1);
}

/// `E` never decreases.
proof fn lemma_events_monotone(a: nat, b: nat, k: nat)
    requires
        a <= b,
    ensures
        drop_events_from(a, k) <= drop_events_from(b, k),
    decreases b + 1 - k,
{
    lemma_boundary_facts(k);
    if boundary_of_minute(k) <= a {
        lemma_events_monotone(a, b, k + 1);
    }
}

/// Boundaries are at least 1798 frames apart, so a window shorter than
/// that holds at most one drop event.
proof fn lemma_events_window(a: nat, b: nat, k: nat)
    requires
        a <= b,
        b <= a + 1797,
    ensures
        drop_events_from(b, k) <= drop_events_from(a, k) + 1,
    decreases b + 1 - k,
{
    lemma_boundary_facts(k);
    if boundary_of_minute(k) <= a {
        lemma_events_window(a, b, k + 1);
    } else if boundary_of_minute(k) <= b {
        lemma_boundary_facts(k + 1);
        assert(boundary_of_minute(k + 1) > b);
        assert(drop_events_from(b, k + 1) == 0);
    }
}

pub proof fn lemma_drop_count_monotone(a: nat, b: nat)
    requires
        a <= b,
    ensures
        drop_count(a) <= drop_count(b),
{
    lemma_events_monotone(a, b, 1);
}

pub proof fn lemma_drop_count_window(a: nat, b: nat)
    requires
        a <= b,
        b <= a + 1797,
    ensures
        drop_count(b) <= drop_count(a) + 1,
{
    lemma_events_window(a, b, 1);
}

/// The nominal count is strictly increasing in the real frame, so at most
/// one real frame displays a given count.
pub proof fn lemma_nominal_strictly_increasing(a: nat, b: nat, drop_frame: bool)
    requires
        a < b,
    ensures
        nominal_of(a, drop_frame) < nominal_of(b, drop_frame),
{
    lemma_drop_count_monotone(a, b);
}

/// Splitting a nominal count into display fields and summing them back gives
/// the count again, and the fields are in range.
pub proof fn lemma_tc_of_nominal(d: nat, f: nat)
    requires
        1 <= f <= u32::MAX,
        d / (3600 * f) <= u32::MAX,
    ensures
        is_valid_tc(tc_of_nominal(d, f), f),
        nominal_of_tc(tc_of_nominal(d, f), f) == d,
{
    let hf = 3600 * f;
    let mf = 60 * f;
    let q = d / hf;
    let r = d % hf;
    let m = r / mf;
    let r2 = r % mf;
    let s = r2 / f;
    let fr = r2 % f;
    lemma_fundamental_div_mod(d as int, hf as int);
    lemma_mod_pos_bound(d as int, hf as int);
    lemma_fundamental_div_mod(r as int, mf as int);
    lemma_mod_pos_bound(r as int, mf as int);
    lemma_fundamental_div_mod(r2 as int, f as int);
    lemma_mod_pos_bound(r2 as int, f as int);
    assert(m < 60) by (nonlinear_arith)
        requires
            r == mf * m + r2,
            r2 >= 0,
            r < hf,
            hf == 3600 * f,
            mf == 60 * f,
            f >= 1,
            m >= 0,
    ;
    assert(s < 60) by (nonlinear_arith)
        requires
            r2 == f * s + fr,
            fr >= 0,
            r2 < mf,
            mf == 60 * f,
            f >= 1,
            s >= 0,
    ;
    let tc = tc_of_nominal(d, f);
    assert(tc.hours == q && tc.minutes == m && tc.seconds == s && tc.frames == fr);
    assert(q * 3600 * f + m * 60 * f + s * f + fr == d) by (nonlinear_arith)
        requires
            d == hf * q + r,
            r == mf * m + r2,
            r2 == f * s + fr,
            hf == 3600 * f,
            mf == 60 * f,
    ;
}

/// A timecode with fields in range is recovered from its nominal count.
pub proof fn lemma_nominal_of_valid_tc(tc: Timecode, f: nat)
    requires
        f >= 1,
        is_valid_tc(tc, f),
    ensures
        tc_of_nominal(nominal_of_tc(tc, f), f) == tc,
        nominal_of_tc(tc, f) / (3600 * f) == tc.hours,
{
    let hf = 3600 * f;
    let mf = 60 * f;
    let h = tc.hours as nat;
    let m = tc.minutes as nat;
    let s = tc.seconds as nat;
    let fr = tc.frames as nat;
    let x = nominal_of_tc(tc, f);
    let r2 = s * f + fr;
    let r = m * mf + r2;
    assert(r2 < mf) by (nonlinear_arith)
        requires
            r2 == s * f + fr,
            s < 60,
            fr < f,
            mf == 60 * f,
    ;
    assert(r < hf) by (nonlinear_arith)
        requires
            r == m * mf + r2,
            r2 < mf,
            m < 60,
            mf == 60 * f,
            hf == 3600 * f,
    ;
    assert(x == h * hf + r) by (nonlinear_arith)
        requires
            x == h * 3600 * f + m * 60 * f + s * f + fr,
            r == m * mf + r2,
            r2 == s * f + fr,
            mf == 60 * f,
            hf == 3600 * f,
    ;
    lemma_fundamental_div_mod_converse(x as int, hf as int, h as int, r as int);
    lemma_fundamental_div_mod_converse(r as int, mf as int, m as int, r2 as int);
    lemma_fundamental_div_mod_converse(r2 as int, f as int, s as int, fr as int);
}

/// A count not above the nominal count of a timecode has at most its hours.
pub proof fn lemma_hours_below(x: nat, tc: Timecode, f: nat)
    requires
        f >= 1,
        is_valid_tc(tc, f),
        x <= nominal_of_tc(tc, f),
    ensures
        x / (3600 * f) <= tc.hours,
{
    lemma_nominal_of_valid_tc(tc, f);
    lemma_div_is_ordered(x as int, nominal_of_tc(tc, f) as int, (3600 * f) as int);
}

/// Field-wise addition with carries adds the nominal counts.
pub proof fn lemma_sum_tc(a: Timecode, b: Timecode, f: nat)
    requires
        1 <= f <= u32::MAX,
        is_valid_tc(a, f),
        is_valid_tc(b, f),
        sum_tc_fits(a, b, f),
    ensures
        is_valid_tc(sum_tc(a, b, f), f),
        nominal_of_tc(sum_tc(a, b, f), f) == nominal_of_tc(a, f) + nominal_of_tc(b, f),
{
    let fr = a.frames + b.frames;
    let c1: nat = if fr >= f { 1 } else { 0 };
    let s = a.seconds + b.seconds + c1;
    let c2: nat = if s >= 60 { 1 } else { 0 };
    let m = a.minutes + b.minutes + c2;
    let c3: nat = if m >= 60 { 1 } else { 0 };
    let t = sum_tc(a, b, f);
    assert(t.hours == a.hours + b.hours + c3);
    assert(t.minutes == m - 60 * c3);
    assert(t.seconds == s - 60 * c2);
    assert(t.frames == fr - f * c1);
    let ha = a.hours as int;
    let hb = b.hours as int;
    let ma = a.minutes as int;
    let mb = b.minutes as int;
    let sa = a.seconds as int;
    let sb = b.seconds as int;
    let fa = a.frames as int;
    let fb = b.frames as int;
    assert((ha + hb + c3) * 3600 * f + (ma + mb + c2 - 60 * c3) * 60 * f + (sa + sb + c1 - 60
        * c2) * f + (fa + fb - f * c1) == (ha * 3600 * f + ma * 60 * f + sa * f + fa) + (hb * 3600
        * f + mb * 60 * f + sb * f + fb)) by (nonlinear_arith);
}

/// Adding a valid offset to the display of a count displays the count plus
/// the offset's nominal count.
pub proof fn lemma_sum_offset(d: nat, offset: Timecode, f: nat)
    requires
        1 <= f <= u32::MAX,
        d / (3600 * f) <= u32::MAX,
        is_valid_tc(offset, f),
        sum_tc_fits(tc_of_nominal(d, f), offset, f),
    ensures
        is_valid_tc(sum_tc(tc_of_nominal(d, f), offset, f), f),
        nominal_of_tc(sum_tc(tc_of_nominal(d, f), offset, f), f) == d + nominal_of_tc(offset, f),
{
    lemma_tc_of_nominal(d, f);
    lemma_sum_tc(tc_of_nominal(d, f), offset, f);
}

/// Rounding a frame start back to frames gives the frame, for every frame
/// rate below 10^9 fps.
pub proof fn lemma_frame_start_round_trip(n: nat, fps_milli: nat)
    requires
        1 <= fps_milli < 1_000_000_000_000,
    ensures
        real_frames_of(frame_start_ns(n, fps_milli) as int, fps_milli) == n,
{
    let big: int = 1_000_000_000_000;
    let fm = fps_milli as int;
    let num = 2 * n * big + fm;
    let t = num / (2 * fm);
    lemma_fundamental_div_mod(num, 2 * fm);
    lemma_mod_pos_bound(num, 2 * fm);
    assert(t >= 0) by (nonlinear_arith)
        requires
            num >= 0,
            fm >= 1,
            t == num / (2 * fm),
    {
        lemma_div_pos_is_pos(num, 2 * fm);
    }
    let y = t * fm + 500_000_000_000;
    assert(n * big <= y < n * big + big) by (nonlinear_arith)
        requires
            num == (2 * fm) * t + num % (2 * fm),
            0 <= num % (2 * fm) < 2 * fm,
            num == 2 * n * big + fm,
            y == t * fm + 500_000_000_000,
            big == 1_000_000_000_000,
            1 <= fm < big,
    ;
    lemma_fundamental_div_mod_converse(y, big, n as int, y - n * big);
}

/// A time and the start of its nearest frame are at most half a frame (plus
/// half a nanosecond of rounding) apart.
pub proof fn lemma_frame_start_near(time_ns: nat, fps_milli: nat)
    requires
        1 <= fps_milli,
    ensures
        ({
            let s = frame_start_ns(real_frames_of(time_ns as int, fps_milli), fps_milli);
            &&& 2 * fps_milli * (s - time_ns) <= 1_000_000_000_000 + fps_milli
            &&& 2 * fps_milli * (time_ns - s) <= 1_000_000_000_000 + fps_milli
        }),
{
    let big: int = 1_000_000_000_000;
    let fm = fps_milli as int;
    let a = time_ns * fm + 500_000_000_000;
    let n = a / big;
    lemma_fundamental_div_mod(a, big);
    lemma_mod_pos_bound(a, big);
    lemma_div_pos_is_pos(a, big);
    let num = 2 * n * big + fm;
    let s = num / (2 * fm);
    lemma_fundamental_div_mod(num, 2 * fm);
    lemma_mod_pos_bound(num, 2 * fm);
    assert(2 * fm * (s - time_ns) <= big + fm && 2 * fm * (time_ns - s) <= big + fm)
        by (nonlinear_arith)
        requires
            a == big * n + a % big,
            0 <= a % big < big,
            a == time_ns * fm + 500_000_000_000,
            num == (2 * fm) * s + num % (2 * fm),
            0 <= num % (2 * fm) < 2 * fm,
            num == 2 * n * big + fm,
            big == 1_000_000_000_000,
            fm >= 1,
    ;
}


/// The fields of the display of a count fit the ranges of a valid
/// timecode, whatever the hours.
pub proof fn lemma_tc_of_nominal_fields(d: nat, f: nat)
    requires
        1 <= f <= u32::MAX,
    ensures
        is_valid_tc(tc_of_nominal(d, f), f),
{
    let hf = 3600 * f;
    let mf = 60 * f;
    let r = d % hf;
    let r2 = r % mf;
    lemma_mod_pos_bound(d as int, hf as int);
    lemma_mod_pos_bound(r as int, mf as int);
    lemma_mod_pos_bound(r2 as int, f as int);
    lemma_multiply_divide_lt(r as int, mf as int, 60);
    lemma_multiply_divide_lt(r2 as int, f as int, 60);
}

/// The real frame that displays a count is the only one.
pub proof fn lemma_real_of_nominal_unique(n: nat, d: nat, drop_frame: bool)
    requires
        nominal_of(n, drop_frame) == d,
    ensures
        is_displayed(d, drop_frame),
        real_of_nominal(d, drop_frame) == n,
{
    assert(nominal_of(n, drop_frame) == d);
    let m = real_of_nominal(d, drop_frame);
    if m < n {
        lemma_nominal_strictly_increasing(m, n, drop_frame);
    } else if n < m {
        lemma_nominal_strictly_increasing(n, m, drop_frame);
    }
}


/// The hours of a field-wise sum, before they are stored in `u32`, are the
/// hours of the summed nominal counts.
pub proof fn lemma_sum_tc_hours(a: Timecode, b: Timecode, f: nat)
    requires
        1 <= f <= u32::MAX,
        is_valid_tc(a, f),
        is_valid_tc(b, f),
    ensures
        sum_tc_fits(a, b, f) <==> (nominal_of_tc(a, f) + nominal_of_tc(b, f)) / (3600 * f)
            <= u32::MAX,
{
    let fr = a.frames + b.frames;
    let c1: nat = if fr >= f { 1 } else { 0 };
    let s = a.seconds + b.seconds + c1;
    let c2: nat = if s >= 60 { 1 } else { 0 };
    let m = a.minutes + b.minutes + c2;
    let c3: nat = if m >= 60 { 1 } else { 0 };
    let hs = a.hours + b.hours + c3;
    let ms = m - 60 * c3;
    let ss = s - 60 * c2;
    let fs = fr - f * c1;
    let rest = ms * 60 * f + ss * f + fs;
    let ha = a.hours as int;
    let hb = b.hours as int;
    let ma = a.minutes as int;
    let mb = b.minutes as int;
    let sa = a.seconds as int;
    let sb = b.seconds as int;
    let fa = a.frames as int;
    let fb = b.frames as int;
    assert(hs * (3600 * f) + rest == (ha * 3600 * f + ma * 60 * f + sa * f + fa) + (hb * 3600 * f
        + mb * 60 * f + sb * f + fb)) by (nonlinear_arith)
        requires
            hs == ha + hb + c3,
            rest == ms * 60 * f + ss * f + fs,
            ms == ma + mb + c2 - 60 * c3,
            ss == sa + sb + c1 - 60 * c2,
            fs == fa + fb - f * c1,
    ;
    assert(0 <= rest < 3600 * f) by (nonlinear_arith)
        requires
            rest == ms * 60 * f + ss * f + fs,
            0 <= ms < 60,
            0 <= ss < 60,
            0 <= fs < f,
    ;
    lemma_fundamental_div_mod_converse(
        (nominal_of_tc(a, f) + nominal_of_tc(b, f)) as int,
        (3600 * f) as int,
        hs as int,
        rest as int,
    );
}

// ------------------------------------------------------------------ laws

/// Law: adding two timecodes with carries adds their frame counts and
/// keeps every field in range (hours carry, with no 24-hour wrap); and
/// subtracting `b` from `a + b` (what `sub_tc` computes from the frame
/// counts) gives `a` back.
pub proof fn law_sub_undoes_add(a: Timecode, b: Timecode, f: nat)
    requires
        1 <= f <= u32::MAX,
        is_valid_tc(a, f),
        is_valid_tc(b, f),
        sum_tc_fits(a, b, f),
    ensures
        is_valid_tc(sum_tc(a, b, f), f),
        nominal_of_tc(sum_tc(a, b, f), f) == nominal_of_tc(a, f) + nominal_of_tc(b, f),
        nominal_of_tc(b, f) <= nominal_of_tc(sum_tc(a, b, f), f),
        tc_of_nominal((nominal_of_tc(sum_tc(a, b, f), f) - nominal_of_tc(b, f)) as nat, f) == a,
{
    lemma_sum_tc(a, b, f);
    assert((nominal_of_tc(sum_tc(a, b, f), f) - nominal_of_tc(b, f)) as nat == nominal_of_tc(a, f));
    lemma_nominal_of_valid_tc(a, f);
}

/// Law: subtracting timecodes (first not below second) subtracts their
/// frame counts, with every field of the difference in range.
pub proof fn law_sub_tc(a: Timecode, b: Timecode, f: nat)
    requires
        1 <= f <= u32::MAX,
        nominal_of_tc(b, f) <= nominal_of_tc(a, f),
        ((nominal_of_tc(a, f) - nominal_of_tc(b, f)) as nat) / (3600 * f) <= u32::MAX,
    ensures
        is_valid_tc(tc_of_nominal((nominal_of_tc(a, f) - nominal_of_tc(b, f)) as nat, f), f),
        nominal_of_tc(tc_of_nominal((nominal_of_tc(a, f) - nominal_of_tc(b, f)) as nat, f), f)
            == nominal_of_tc(a, f) - nominal_of_tc(b, f),
{
    lemma_tc_of_nominal((nominal_of_tc(a, f) - nominal_of_tc(b, f)) as nat, f);
}

/// Law: converting a timecode to the time of the frame that displays it and
/// back gives the same timecode, for every valid timecode (after the offset)
/// that some real frame displays and whose time is below `i64::MAX`
/// nanoseconds.
pub proof fn law_timecode_round_trip(
    tc: Timecode,
    fps_milli: u32,
    drop_frame: bool,
    offset: Timecode,
)
    requires
        !timecode_to_seconds_rejects(tc, fps_milli as nat, drop_frame, offset),
        timecode_to_seconds_fits(tc, fps_milli as nat, drop_frame, offset),
        is_displayed(nominal_since_offset(tc, fps_milli as nat, offset), drop_frame),
        time_of_timecode(tc, fps_milli as nat, drop_frame, offset) < i64::MAX,
    ensures
        ({
            let t = time_of_timecode(tc, fps_milli as nat, drop_frame, offset);
            &&& !seconds_to_timecode_rejects(t, fps_milli as nat, drop_frame, offset)
            &&& seconds_to_timecode_fits(t, fps_milli as nat, drop_frame, offset)
            &&& timecode_at(t, fps_milli as nat, drop_frame, offset) == tc
        }),
{
    let fm = fps_milli as nat;
    let f = rounded_fps(fm);
    let d = nominal_since_offset(tc, fm, offset);
    let n = real_of_nominal(d, drop_frame);
    assert(nominal_of(n, drop_frame) == d);
    let t = time_of_timecode(tc, fm, drop_frame, offset);
    assert(t == frame_start_ns(n, fm));
    lemma_frame_start_round_trip(n, fm);
    assert(real_frames_of(t, fm) == n);
    lemma_hours_below(d, tc, f);
    lemma_tc_of_nominal(d, f);
    let a = tc_of_nominal(d, f);
    lemma_sum_tc_hours(a, offset, f);
    lemma_nominal_of_valid_tc(tc, f);
    assert(sum_tc_fits(a, offset, f));
    lemma_sum_tc(a, offset, f);
    let r = sum_tc(a, offset, f);
    lemma_nominal_of_valid_tc(r, f);
    assert(nominal_of_tc(r, f) == nominal_of_tc(tc, f));
    assert(r == tc);
}

/// Law: converting a time to its timecode and back gives the start of the
/// frame nearest to that time, at most half a frame away; this holds for
/// every accepted time whose display does not wrap the `u32` hours and whose
/// timecode's nominal count fits in `u64`.
pub proof fn law_time_round_trip(
    time_ns: int,
    fps_milli: u32,
    drop_frame: bool,
    offset: Timecode,
)
    requires
        !seconds_to_timecode_rejects(time_ns, fps_milli as nat, drop_frame, offset),
        seconds_to_timecode_fits(time_ns, fps_milli as nat, drop_frame, offset),
        nominal_of(real_frames_of(time_ns, fps_milli as nat), drop_frame) / (3600 * rounded_fps(
            fps_milli as nat,
        )) <= u32::MAX,
        nominal_of(real_frames_of(time_ns, fps_milli as nat), drop_frame) + nominal_of_tc(
            offset,
            rounded_fps(fps_milli as nat),
        ) <= u64::MAX,
    ensures
        ({
            let fm = fps_milli as nat;
            let tc = timecode_at(time_ns, fm, drop_frame, offset);
            let n = real_frames_of(time_ns, fm);
            let start = frame_start_ns(n, fm);
            &&& !timecode_to_seconds_rejects(tc, fm, drop_frame, offset)
            &&& timecode_to_seconds_fits(tc, fm, drop_frame, offset)
            &&& nominal_since_offset(tc, fm, offset) == nominal_of(n, drop_frame)
            &&& is_displayed(nominal_since_offset(tc, fm, offset), drop_frame)
            &&& time_of_timecode(tc, fm, drop_frame, offset) == if start > i64::MAX {
                i64::MAX as int
            } else {
                start as int
            }
            &&& 2 * fm * (start - time_ns) <= 1_000_000_000_000 + fm
            &&& 2 * fm * (time_ns - start) <= 1_000_000_000_000 + fm
        }),
{
    let fm = fps_milli as nat;
    let f = rounded_fps(fm);
    let n = real_frames_of(time_ns, fm);
    let d = nominal_of(n, drop_frame);
    lemma_sum_offset(d, offset, f);
    let tc = timecode_at(time_ns, fm, drop_frame, offset);
    assert(nominal_since_offset(tc, fm, offset) == d);
    lemma_real_of_nominal_unique(n, d, drop_frame);
    lemma_frame_start_near(time_ns as nat, fm);
}

// ------------------------------------------------------------ executable

fn invalid(msg: &str) -> (e: ShowtimeError)
    ensures
        e matches ShowtimeError::InvalidTimecode(m) && m@ == msg@,
{
    ShowtimeError::InvalidTimecode(String::from_str(msg))
}

/// The error for a negative time, which names it in seconds, e.g.
/// `tempo negativo: -1.5s`.
fn negative_time(time_ns: i64) -> (e: ShowtimeError)
    requires
        time_ns < 0,
    ensures
        e matches ShowtimeError::InvalidTimecode(m) && m@ == "tempo negativo: -"@ + scaled_decimal(
            (0 - time_ns) as nat,
            1_000_000_000,
            100_000_000,
        ).push('s'),
{
    let mut msg = String::from_str("tempo negativo: -");
    let magnitude: u64 = (0 - (time_ns as i128)) as u64;
    push_scaled_decimal(&mut msg, magnitude, 1_000_000_000, 100_000_000);
    push_char(&mut msg, 's');
    ShowtimeError::InvalidTimecode(msg)
}

/// The error for drop-frame counting at another rate than 29.97 fps, which
/// names the rate in frames per second, e.g. `(recebido 30)`.
fn drop_frame_unsupported(fps_milli: u32) -> (e: ShowtimeError)
    ensures
        e matches ShowtimeError::InvalidTimecode(m) && m@ == "drop-frame só é suportado em 29.97fps (recebido "@
            + scaled_decimal(fps_milli as nat, 1000, 100).push(')'),
{
    let mut msg = String::from_str("drop-frame só é suportado em 29.97fps (recebido ");
    push_scaled_decimal(&mut msg, fps_milli as u64, 1000, 100);
    push_char(&mut msg, ')');
    ShowtimeError::InvalidTimecode(msg)
}

/// Integer frame rate (milli-fps rounded to whole frames) used to split the
/// display; a zero frame rate is rejected.
fn fps_rounded(fps_milli: u32) -> (r: Result<u32, ShowtimeError>)
    ensures
        r is Err <==> fps_milli == 0,
        r matches Ok(f) ==> f == rounded_fps(fps_milli as nat),
        r matches Err(e) ==> e is InvalidTimecode,
{
    if fps_milli == 0 {
        return Err(invalid("frame rate inválido: 0"));
    }
    Ok(((fps_milli as u64 + 500) / 1000) as u32)
}

/// Real frames nearest to `time_ns` at `fps_milli`; negative times are
/// rejected.
fn real_frames(time_ns: i64, fps_milli: u32) -> (r: Result<u64, ShowtimeError>)
    ensures
        r is Err <==> time_ns < 0,
        r matches Ok(n) ==> n == real_frames_of(time_ns as int, fps_milli as nat),
        r matches Err(e) ==> e is InvalidTimecode,
{
    if time_ns < 0 {
        return Err(negative_time(time_ns));
    }
    assert((time_ns as int) * (fps_milli as int) <= i64::MAX * u32::MAX) by (nonlinear_arith)
        requires
            0 <= time_ns <= i64::MAX,
            fps_milli <= u32::MAX,
    ;
    let prod: u128 = (time_ns as u128) * (fps_milli as u128);
    let q: u128 = (prod + 500_000_000_000) / 1_000_000_000_000;
    assert(q <= u64::MAX) by (nonlinear_arith)
        requires
            prod == (time_ns as int) * (fps_milli as int),
            0 <= time_ns <= i64::MAX,
            fps_milli <= u32::MAX,
            q == (prod + 500_000_000_000) / 1_000_000_000_000,
    ;
    Ok(q as u64)
}

/// Real frame at which drop minute `k` begins: `round(k * 60 * 29.97)`.
fn minute_boundary_frames(k: u64) -> (b: u128)
    ensures
        b == boundary_of_minute(k as nat),
{
    (17982 * (k as u128) + 5) / 10
}

/// `E(n)`: drop events up to the real frame `n` (29.97 drop-frame).
fn drop_events(n: u64) -> (e: u64)
    ensures
        e == drop_count(n as nat),
{
    let mut events: u64 = 0;
    let mut k: u64 = 1;
    loop
        invariant
            1 <= k <= n as nat + 1,
            events <= k,
            events + drop_events_from(n as nat, k as nat) == drop_count(n as nat),
        ensures
            events == drop_count(n as nat),
        decreases n + 1 - k,
    {
        let b = minute_boundary_frames(k);
        if b > n as u128 {
            break;
        }
        proof {
            lemma_boundary_facts(k as nat);
        }
        if k % 10 != 0 {
            events += 1;
        }
        k += 1;
    }
    events
}

/// `D(n)`: the nominal (displayed) frame count of the real frame `n`.
fn nominal_frames(n: u64, drop_frame: bool) -> (d: u64)
    requires
        nominal_of(n as nat, drop_frame) <= u64::MAX,
    ensures
        d == nominal_of(n as nat, drop_frame),
{
    if drop_frame {
        n + 2 * drop_events(n)
    } else {
        n
    }
}

/// `E` grows by at most one event per 1797 frames (plus one).
proof fn lemma_drop_count_spread(a: nat, b: nat)
    requires
        a <= b,
    ensures
        drop_count(b) <= drop_count(a) + (b - a) / 1797 + 1,
    decreases b - a,
{
    if b <= a + 1797 {
        lemma_drop_count_window(a, b);
    } else {
        lemma_drop_count_spread(a + 1797, b);
        lemma_drop_count_window(a, a + 1797);
        assert((b - a - 1797) / 1797 == (b - a) / 1797 - 1);
    }
}

/// Error bound of the fixed-point iteration after `i` steps, starting from
/// an error of at most `2^64`.
spec fn inversion_error_bound(i: nat) -> int
    decreases i,
{
    if i == 0 {
        0x1_0000_0000_0000_0000
    } else {
        2 * (inversion_error_bound((i - 1) as nat) / 1797) + 2
    }
}

/// One step of the iteration `n -> d - 2 * E(n)` around the frame `m` that
/// displays `d`: the error changes sign (or vanishes) and shrinks to at most
/// `2 * (|error| / 1797) + 2`.
proof fn lemma_inversion_step(d: nat, m: nat, n: nat)
    requires
        nominal_of(m, true) == d,
        n <= d,
    ensures
        ({
            let e = n - m;
            let e2 = d - 2 * drop_count(n) - m;
            &&& e >= 0 ==> -(2 * (e / 1797) + 2) <= e2 <= 0
            &&& e <= 0 ==> 0 <= e2 <= 2 * ((-e) / 1797) + 2
        }),
{
    if n >= m {
        lemma_drop_count_monotone(m, n);
        lemma_drop_count_spread(m, n);
    } else {
        lemma_drop_count_monotone(n, m);
        lemma_drop_count_spread(n, m);
    }
}

/// A drop event lies within the two frames after `m`.
spec fn event_just_after(m: nat) -> bool {
    drop_count(m + 2) > drop_count(m)
}

/// A drop event lies within the two frames up to `m`.
spec fn event_just_before(m: nat) -> bool {
    m >= 2 && drop_count(m) > drop_count((m - 2) as nat)
}

/// Steps the iteration still needs from an error of at most two frames.
spec fn settle_steps(e: int, m: nat) -> int {
    if e == 0 {
        0
    } else if (e > 0 && !event_just_after(m)) || (e < 0 && !event_just_before(m)) {
        1
    } else {
        2
    }
}

/// Within two frames of `m`, each step either lands on `m` or jumps across
/// it to the side where no event can be (events are 1798 frames apart), so
/// at most two steps remain.
proof fn lemma_inversion_settles(d: nat, m: nat, n: nat)
    requires
        nominal_of(m, true) == d,
        n <= d,
        n != m,
        -2 <= n - m <= 2,
    ensures
        ({
            let e2 = d - 2 * drop_count(n) - m;
            &&& -2 <= e2 <= 2
            &&& settle_steps(e2, m) < settle_steps(n - m, m)
        }),
{
    if m >= 2 {
        lemma_drop_count_window((m - 2) as nat, m + 2);
        lemma_drop_count_monotone((m - 2) as nat, m);
        lemma_drop_count_monotone(m, m + 2);
    } else {
        lemma_drop_count_window(0, m + 2);
        lemma_drop_count_monotone(0, m);
        lemma_drop_count_monotone(m, m + 2);
        assert(drop_count(0) == 0) by {
            assert(boundary_of_minute(1) > 0);
        }
    }
    if n > m {
        lemma_drop_count_monotone(m, n);
        lemma_drop_count_monotone(n, m + 2);
        lemma_drop_count_window(m, n);
    } else {
        lemma_drop_count_monotone(n, m);
        lemma_drop_count_window(n, m);
        if m >= 2 {
            lemma_drop_count_monotone((m - 2) as nat, n);
        }
    }
}

/// The real frame that displays the nominal count `d`, found by the
/// fixed-point iteration `n = d - 2 * E(n)` (at most 32 steps).
///
/// Without drop-frame the count is the frame. With drop-frame, the result
/// is the real frame that displays `d` whenever one does (the iteration
/// settles within ten steps); a label that drop-frame skips is rejected.
fn real_from_nominal(d: u64, drop_frame: bool) -> (r: Result<u64, ShowtimeError>)
    ensures
        r matches Ok(n) ==> nominal_of(n as nat, drop_frame) == d,
        !drop_frame ==> r == Ok::<u64, ShowtimeError>(d),
        drop_frame && is_displayed(d as nat, true) ==> r is Ok,
        r matches Err(e) ==> e is InvalidTimecode,
{
    if !drop_frame {
        return Ok(d);
    }
    let ghost good = is_displayed(d as nat, true);
    let ghost m = real_of_nominal(d as nat, true);
    proof {
        if good {
            assert(nominal_of(m, true) == d);
            lemma_drop_count_bound(m);
        }
        assert(inversion_error_bound(0) == 18446744073709551616);
        assert(inversion_error_bound(1) == 20530599970739624);
        assert(inversion_error_bound(2) == 22849860846678);
        assert(inversion_error_bound(3) == 25431119474);
        assert(inversion_error_bound(4) == 28303974);
        assert(inversion_error_bound(5) == 31502);
        assert(inversion_error_bound(6) == 36);
        assert(inversion_error_bound(7) == 2);
    }
    let mut n = d;
    let mut i: u32 = 0;
    while i < 32
        invariant
            drop_frame,
            n <= d,
            i <= 32,
            good == is_displayed(d as nat, true),
            inversion_error_bound(7) == 2,
            good ==> nominal_of(m, true) == d,
            good ==> i <= 9,
            good && i <= 7 ==> -inversion_error_bound(i as nat) <= n - m <= inversion_error_bound(
                i as nat,
            ),
            good && i >= 7 ==> -2 <= n - m <= 2 && settle_steps(n - m, m) <= 9 - i,
        decreases 32 - i,
    {
        let e = drop_events(n);
        proof {
            lemma_drop_count_bound(n as nat);
        }
        let next = d - 2 * e;
        if next == n {
            return Ok(n);
        }
        proof {
            if good {
                lemma_inversion_step(d as nat, m, n as nat);
                if i < 7 {
                    let b = inversion_error_bound(i as nat);
                    let err = n - m;
                    if err >= 0 {
                        vstd::arithmetic::div_mod::lemma_div_is_ordered(err, b, 1797);
                    } else {
                        vstd::arithmetic::div_mod::lemma_div_is_ordered(-err, b, 1797);
                    }
                    assert(inversion_error_bound((i + 1) as nat) == 2 * (b / 1797) + 2);
                    if i == 6 {
                        assert(settle_steps(next - m, m) <= 2);
                    }
                } else {
                    if n == m {
                        assert(next == n);
                    }
                    lemma_inversion_settles(d as nat, m, n as nat);
                }
            }
        }
        n = next;
        i += 1;
    }
    Err(invalid("falha ao inverter contagem drop-frame"))
}

/// Nominal frame count of a timecode at `f` frames per second.
fn tc_to_nominal(tc: Timecode, f: u32) -> (d: u64)
    requires
        nominal_of_tc(tc, f as nat) <= u64::MAX,
    ensures
        d == nominal_of_tc(tc, f as nat),
{
    let h = tc.hours as u64 * 3600;
    let m = tc.minutes as u64 * 60;
    assert(h * (f as u64) <= nominal_of_tc(tc, f as nat)) by (nonlinear_arith)
        requires
            h == tc.hours * 3600,
            nominal_of_tc(tc, f as nat) == tc.hours * 3600 * f + tc.minutes * 60 * f + tc.seconds
                * f + tc.frames,
    ;
    assert(m * (f as u64) <= nominal_of_tc(tc, f as nat)) by (nonlinear_arith)
        requires
            m == tc.minutes * 60,
            nominal_of_tc(tc, f as nat) == tc.hours * 3600 * f + tc.minutes * 60 * f + tc.seconds
                * f + tc.frames,
    ;
    assert((tc.seconds as u64) * (f as u64) <= nominal_of_tc(tc, f as nat)) by (nonlinear_arith)
        requires
            nominal_of_tc(tc, f as nat) == tc.hours * 3600 * f + tc.minutes * 60 * f + tc.seconds
                * f + tc.frames,
    ;
    assert(h * (f as u64) + m * (f as u64) <= nominal_of_tc(tc, f as nat)) by (nonlinear_arith)
        requires
            h == tc.hours * 3600,
            m == tc.minutes * 60,
            nominal_of_tc(tc, f as nat) == tc.hours * 3600 * f + tc.minutes * 60 * f + tc.seconds
                * f + tc.frames,
    ;
    h * f as u64 + m * f as u64 + tc.seconds as u64 * f as u64 + tc.frames as u64
}

/// Display fields of the nominal count `n` at `f` frames per second.
fn nominal_to_tc(n: u64, f: u32) -> (tc: Timecode)
    requires
        f >= 1,
    ensures
        tc == tc_of_nominal(n as nat, f as nat),
{
    let fpsr = f as u64;
    let hf = 3600 * fpsr;
    let mf = 60 * fpsr;
    let hours = n / hf;
    let rem = n % hf;
    let minutes = rem / mf;
    let rem2 = rem % mf;
    let seconds = rem2 / fpsr;
    let frames = rem2 % fpsr;
    proof {
        lemma_mod_pos_bound(n as int, hf as int);
        lemma_mod_pos_bound(rem as int, mf as int);
        lemma_mod_pos_bound(rem2 as int, fpsr as int);
    }
    assert(minutes < 60) by (nonlinear_arith)
        requires
            minutes == rem / mf,
            rem < hf,
            hf == 60 * mf,
            mf >= 1,
    {
        lemma_multiply_divide_lt(rem as int, mf as int, 60);
    }
    assert(seconds < 60) by (nonlinear_arith)
        requires
            seconds == rem2 / fpsr,
            rem2 < mf,
            mf == 60 * fpsr,
            fpsr >= 1,
    {
        lemma_multiply_divide_lt(rem2 as int, fpsr as int, 60);
    }
    Timecode {
        hours: hours as u32,
        minutes: minutes as u32,
        seconds: seconds as u32,
        frames: frames as u32,
    }
}

/// Adds two timecodes in the display domain, with carries (the carry of the
/// minutes goes into the hours, which do not wrap).
fn add_tc(a: Timecode, b: Timecode, f: u32) -> (r: Timecode)
    requires
        f <= 0x8000_0000,
        is_valid_tc(a, f as nat),
        is_valid_tc(b, f as nat),
        sum_tc_fits(a, b, f as nat),
    ensures
        r == sum_tc(a, b, f as nat),
{
    let mut frames = a.frames + b.frames;
    let mut seconds = a.seconds + b.seconds;
    let mut minutes = a.minutes + b.minutes;
    let mut hours = a.hours + b.hours;
    if frames >= f {
        frames -= f;
        seconds += 1;
    }
    if seconds >= 60 {
        seconds -= 60;
        minutes += 1;
    }
    if minutes >= 60 {
        minutes -= 60;
        hours += 1;
    }
    Timecode { hours, minutes, seconds, frames }
}

/// Subtracts `b` from `a` in the display domain (`a` not before `b`).
fn sub_tc(a: Timecode, b: Timecode, f: u32) -> (r: Timecode)
    requires
        f >= 1,
        nominal_of_tc(a, f as nat) <= u64::MAX,
        nominal_of_tc(b, f as nat) <= nominal_of_tc(a, f as nat),
    ensures
        r == tc_of_nominal((nominal_of_tc(a, f as nat) - nominal_of_tc(b, f as nat)) as nat, f as nat),
{
    let n = tc_to_nominal(a, f) - tc_to_nominal(b, f);
    nominal_to_tc(n, f)
}

/// Checks that every field of `tc` is in range at `f` frames per second.
fn validate_tc(tc: Timecode, f: u32) -> (r: Result<(), ShowtimeError>)
    ensures
        r is Ok <==> is_valid_tc(tc, f as nat),
        r matches Err(e) ==> e is InvalidTimecode,
{
    if tc.frames >= f || tc.seconds >= 60 || tc.minutes >= 60 {
        let mut msg = String::from_str("campos fora da faixa para ");
        crate::text::push_decimal(&mut msg, f as u64);
        msg.append("fps: ");
        tc.push_text(&mut msg);
        return Err(ShowtimeError::InvalidTimecode(msg));
    }
    Ok(())
}

/// Tells whether [`seconds_to_timecode`] stays within the machine integers
/// on these inputs (always, except for times or offsets near the `u32`
/// hour limit).
pub fn seconds_to_timecode_fits_check(
    time_ns: i64,
    fps_milli: u32,
    drop_frame: bool,
    offset: Timecode,
) -> (r: bool)
    ensures
        r == seconds_to_timecode_fits(time_ns as int, fps_milli as nat, drop_frame, offset),
{
    if fps_milli == 0 || (drop_frame && fps_milli != 29970) || time_ns < 0 {
        return true;
    }
    let f = ((fps_milli as u64 + 500) / 1000) as u32;
    if !(offset.frames < f && offset.seconds < 60 && offset.minutes < 60) {
        return true;
    }
    let n = match real_frames(time_ns, fps_milli) {
        Ok(n) => n,
        Err(_) => { return true; },
    };
    let d: u64 = if drop_frame {
        let e = drop_events(n);
        if e > (u64::MAX - n) / 2 {
            return false;
        }
        n + 2 * e
    } else {
        n
    };
    let a = nominal_to_tc(d, f);
    let c1: u64 = if a.frames as u64 + offset.frames as u64 >= f as u64 { 1 } else { 0 };
    let c2: u64 = if a.seconds as u64 + offset.seconds as u64 + c1 >= 60 { 1 } else { 0 };
    let c3: u64 = if a.minutes as u64 + offset.minutes as u64 + c2 >= 60 { 1 } else { 0 };
    a.hours as u64 + offset.hours as u64 + c3 <= u32::MAX as u64
}

/// Converts a time position (nanoseconds from the start of the audio) to an
/// SMPTE [`Timecode`].
///
/// * `fps_milli` — frame rate in milli-fps (24000, 25000, 30000, 29970).
/// * `drop_frame` — drop-frame counting (29.97 only).
/// * `offset` — timecode of the audio's instant zero; it is added to the
///   result field-wise, carrying into the hours (no 24h wrap).
///
/// Example: 12.5333s at 30fps with offset `01:00:00:00` gives `01:00:12:16`.
pub fn seconds_to_timecode(
    time_ns: i64,
    fps_milli: u32,
    drop_frame: bool,
    offset: Timecode,
) -> (r: Result<Timecode, ShowtimeError>)
    requires
        seconds_to_timecode_fits(time_ns as int, fps_milli as nat, drop_frame, offset),
    ensures
        r is Err <==> seconds_to_timecode_rejects(time_ns as int, fps_milli as nat, drop_frame, offset),
        r matches Ok(tc) ==> tc == timecode_at(time_ns as int, fps_milli as nat, drop_frame, offset),
        r matches Err(e) ==> e is InvalidTimecode,
{
    let f = fps_rounded(fps_milli)?;
    if drop_frame && fps_milli != 29970 {
        return Err(drop_frame_unsupported(fps_milli));
    }
    validate_tc(offset, f)?;
    let n = real_frames(time_ns, fps_milli)?;
    let d = nominal_frames(n, drop_frame);
    proof {
        lemma_tc_of_nominal_fields(d as nat, f as nat);
    }
    Ok(add_tc(nominal_to_tc(d, f), offset, f))
}

/// Nominal count of a timecode computed without overflow.
fn nominal_u128(tc: Timecode, f: u128) -> (r: u128)
    requires
        f <= 4_294_968,
    ensures
        r == nominal_of_tc(tc, f as nat),
{
    let h = tc.hours as u128 * 3600;
    let m = tc.minutes as u128 * 60;
    assert(h * f <= 0x1_0000_0000 * 3600 * 4_294_968) by (nonlinear_arith)
        requires
            h <= 0x1_0000_0000 * 3600,
            f <= 4_294_968,
    ;
    assert(m * f <= 0x1_0000_0000 * 60 * 4_294_968) by (nonlinear_arith)
        requires
            m <= 0x1_0000_0000 * 60,
            f <= 4_294_968,
    ;
    assert((tc.seconds as u128) * f <= 0x1_0000_0000 * 4_294_968) by (nonlinear_arith)
        requires
            tc.seconds <= 0x1_0000_0000,
            f <= 4_294_968,
    ;
    h * f + m * f + tc.seconds as u128 * f + tc.frames as u128
}

/// Tells whether [`timecode_to_seconds`] stays within the machine integers
/// on these inputs: `tc` must not be before `offset` and its nominal count
/// must fit in `u64`.
pub fn timecode_to_seconds_fits_check(
    tc: Timecode,
    fps_milli: u32,
    drop_frame: bool,
    offset: Timecode,
) -> (r: bool)
    ensures
        r == timecode_to_seconds_fits(tc, fps_milli as nat, drop_frame, offset),
{
    if fps_milli == 0 || (drop_frame && fps_milli != 29970) {
        return true;
    }
    let f = ((fps_milli as u64 + 500) / 1000) as u128;
    if !((tc.frames as u128) < f && tc.seconds < 60 && tc.minutes < 60) {
        return true;
    }
    if !((offset.frames as u128) < f && offset.seconds < 60 && offset.minutes < 60) {
        return true;
    }
    let a: u128 = nominal_u128(tc, f);
    let b: u128 = nominal_u128(offset, f);
    a <= u64::MAX as u128 && b <= a
}

/// Converts a [`Timecode`] back to the time position (nanoseconds from the
/// start of the audio) of the real frame that displays it; the inverse of
/// [`seconds_to_timecode`], with the offset subtracted.
///
/// A drop-frame label that no real frame displays is rejected.
pub fn timecode_to_seconds(
    tc: Timecode,
    fps_milli: u32,
    drop_frame: bool,
    offset: Timecode,
) -> (r: Result<i64, ShowtimeError>)
    requires
        timecode_to_seconds_fits(tc, fps_milli as nat, drop_frame, offset),
    ensures
        timecode_to_seconds_rejects(tc, fps_milli as nat, drop_frame, offset) ==> r is Err,
        r matches Ok(t) ==> {
            &&& is_displayed(nominal_since_offset(tc, fps_milli as nat, offset), drop_frame)
            &&& t == time_of_timecode(tc, fps_milli as nat, drop_frame, offset)
        },
        !timecode_to_seconds_rejects(tc, fps_milli as nat, drop_frame, offset) && is_displayed(
            nominal_since_offset(tc, fps_milli as nat, offset),
            drop_frame,
        ) ==> r is Ok,
        r matches Err(e) ==> e is InvalidTimecode,
{
    let f = fps_rounded(fps_milli)?;
    if drop_frame && fps_milli != 29970 {
        return Err(drop_frame_unsupported(fps_milli));
    }
    validate_tc(tc, f)?;
    validate_tc(offset, f)?;
    proof {
        lemma_hours_below(
            (nominal_of_tc(tc, f as nat) - nominal_of_tc(offset, f as nat)) as nat,
            tc,
            f as nat,
        );
        lemma_tc_of_nominal(
            (nominal_of_tc(tc, f as nat) - nominal_of_tc(offset, f as nat)) as nat,
            f as nat,
        );
    }
    let base = sub_tc(tc, offset, f);
    let d = tc_to_nominal(base, f);
    let n = real_from_nominal(d, drop_frame)?;
    proof {
        let ghost dd = nominal_since_offset(tc, fps_milli as nat, offset);
        assert(dd == d);
        assert(is_displayed(dd, drop_frame));
        lemma_real_of_nominal_unique(n as nat, d as nat, drop_frame);
    }
    let num: u128 = 2 * (n as u128) * 1_000_000_000_000 + fps_milli as u128;
    let t: u128 = num / (2 * fps_milli as u128);
    if t > i64::MAX as u128 {
        Ok(i64::MAX)
    } else {
        Ok(t as i64)
    }
}

/// The timecode shown at `time_ns`: the conversion's result, or zero where
/// the conversion rejects the input or its hours would not fit 32 bits.
pub open spec fn timecode_or_zero(
    time_ns: int,
    fps_milli: nat,
    drop_frame: bool,
    offset: Timecode,
) -> Timecode {
    if seconds_to_timecode_fits(time_ns, fps_milli, drop_frame, offset)
        && !seconds_to_timecode_rejects(time_ns, fps_milli, drop_frame, offset) {
        timecode_at(time_ns, fps_milli, drop_frame, offset)
    } else {
        Timecode { hours: 0, minutes: 0, seconds: 0, frames: 0 }
    }
}

/// The timecode to display for a position, falling back to zero when the
/// conversion fails.
pub fn timecode_or_zero_at(time_ns: i64, fps_milli: u32, drop_frame: bool, offset: Timecode) -> (r:
    Timecode)
    ensures
        r == timecode_or_zero(time_ns as int, fps_milli as nat, drop_frame, offset),
{
    if seconds_to_timecode_fits_check(time_ns, fps_milli, drop_frame, offset) {
        match seconds_to_timecode(time_ns, fps_milli, drop_frame, offset) {
            Ok(t) => t,
            Err(_) => Timecode::zero(),
        }
    } else {
        Timecode::zero()
    }
}

} // verus!

