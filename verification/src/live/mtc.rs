//! MIDI Timecode (MTC): quarter-frame messages (0xF1).
//!
//! MTC sends 8 quarter-frame messages per SMPTE frame. Each one carries a
//! nibble of the current timecode:
//!
//! ```text
//! qf0: frames low nibble   (0x0F)   qf1: frames high nibble  (0x10)
//! qf2: seconds low nibble  (0x2F)   qf3: seconds high nibble (0x30)
//! qf4: minutes low nibble  (0x4F)   qf5: minutes high nibble (0x50)
//! qf6: hours low nibble    (0x6F)   qf7: hours high + rate   (0x70)
//! ```
//!
//! The nibble of qf7 encodes: bit 0 = hours (bit 4), bits 1-2 = frame rate
//! (0=24, 1=25, 2=29.97DF, 3=30), bit 3 = drop flag.
//!
//! The sender recomputes the timecode from the audio position once per
//! frame (1/fps seconds) and sends the 8 quarter-frames of the current
//! frame (240 messages per second at 30 fps); this module decides what to
//! send, the caller owns the MIDI port and the clock.

use vstd::prelude::*;

use crate::error::ShowtimeError;
use crate::text::{contains_str, has_substring};
use crate::timecode::conversion::{timecode_or_zero, timecode_or_zero_at};
use crate::timecode::Timecode;

verus! {

/// MTC sending configuration.
#[derive(Debug, Clone)]
pub struct MtcConfig {
    /// Name of the MIDI output device (substring; `None` = first port).
    pub device_name: Option<String>,
    /// Frame rate in milli-frames per second: 24000, 25000, 30000 or 29970.
    pub fps_milli: u32,
    /// Drop-frame counting (29.97 only).
    pub drop_frame: bool,
    /// Offset applied at the start of the music.
    pub offset: Timecode,
}

/// The MTC rate code of a frame rate: 0 for 24, 1 for 25, 2 for 29.97
/// drop-frame and 3 for 29.97 non-drop, 30 and any other rate.
pub open spec fn mtc_rate(fps_milli: nat, drop_frame: bool) -> nat {
    if fps_milli == 24000 {
        0
    } else if fps_milli == 25000 {
        1
    } else if fps_milli == 29970 && drop_frame {
        2
    } else {
        3
    }
}

/// The data byte of quarter-frame `k` (0 to 7) for `tc`: the message index
/// in the high nibble and the timecode nibble in the low one.
pub open spec fn quarter_frame(tc: Timecode, fps_milli: nat, drop_frame: bool, k: int) -> u8 {
    let low: int = if k == 0 {
        tc.frames as int % 16
    } else if k == 1 {
        tc.frames as int / 16 % 16
    } else if k == 2 {
        tc.seconds as int % 16
    } else if k == 3 {
        tc.seconds as int / 16 % 16
    } else if k == 4 {
        tc.minutes as int % 16
    } else if k == 5 {
        tc.minutes as int / 16 % 16
    } else if k == 6 {
        tc.hours as int % 16
    } else {
        tc.hours as int / 16 % 2 + 2 * mtc_rate(fps_milli, drop_frame) + 8 * (if drop_frame {
            1int
        } else {
            0
        })
    };
    (16 * k + low) as u8
}

/// The 8 quarter-frame data bytes of `tc`.
pub open spec fn quarter_frames(tc: Timecode, fps_milli: nat, drop_frame: bool) -> Seq<u8> {
    Seq::new(8, |k: int| quarter_frame(tc, fps_milli, drop_frame, k))
}

proof fn lemma_nibbles(x: u32)
    ensures
        (x & 0x0F) as u8 == x % 16,
        ((x >> 4) & 0x0F) as u8 == x / 16 % 16,
        ((x >> 4) & 0x01) as u8 == x / 16 % 2,
{
    assert((x & 0x0F) as u8 == x % 16) by (bit_vector);
    assert(((x >> 4) & 0x0F) as u8 == x / 16 % 16) by (bit_vector);
    assert(((x >> 4) & 0x01) as u8 == x / 16 % 2) by (bit_vector);
}

proof fn lemma_or_high(h: u8, l: u8)
    requires
        h % 16 == 0,
        l < 16,
    ensures
        h | l == h + l,
{
    assert(h % 16 == 0 && l < 16 ==> h | l == h + l) by (bit_vector);
}

/// Encodes the 8 quarter-frames of the timecode (data bytes, without the
/// 0xF1 status).
pub fn quarter_frame_nibbles(tc: Timecode, fps_milli: u32, drop_frame: bool) -> (r: [u8; 8])
    ensures
        r@ == quarter_frames(tc, fps_milli as nat, drop_frame),
{
    proof {
        lemma_nibbles(tc.frames);
        lemma_nibbles(tc.seconds);
        lemma_nibbles(tc.minutes);
        lemma_nibbles(tc.hours);
    }
    let frames = (tc.frames & 0x0F) as u8;
    let seconds = (tc.seconds & 0x0F) as u8;
    let minutes = (tc.minutes & 0x0F) as u8;
    let hours = (tc.hours & 0x0F) as u8;
    let hour_high = ((tc.hours >> 4) & 0x01) as u8;
    let frames_high = ((tc.frames >> 4) & 0x0F) as u8;
    let seconds_high = ((tc.seconds >> 4) & 0x0F) as u8;
    let minutes_high = ((tc.minutes >> 4) & 0x0F) as u8;

    let rate: u8 = if fps_milli == 24000 {
        0
    } else if fps_milli == 25000 {
        1
    } else if fps_milli == 29970 {
        if drop_frame {
            2
        } else {
            3
        }
    } else {
        3
    };
    let drop: u8 = if drop_frame {
        1
    } else {
        0
    };
    let last_low: u8 = hour_high + 2 * rate + 8 * drop;
    proof {
        lemma_or_high(0x10, frames_high);
        lemma_or_high(0x20, seconds);
        lemma_or_high(0x30, seconds_high);
        lemma_or_high(0x40, minutes);
        lemma_or_high(0x50, minutes_high);
        lemma_or_high(0x60, hours);
        lemma_or_high(0x70, last_low);
    }
    let r = [
        frames,
        0x10 | frames_high,
        0x20 | seconds,
        0x30 | seconds_high,
        0x40 | minutes,
        0x50 | minutes_high,
        0x60 | hours,
        0x70 | last_low,
    ];
    assert(r@ =~= quarter_frames(tc, fps_milli as nat, drop_frame));
    r
}

/// A receiver rebuilds the timecode from the 8 quarter-frames: each message
/// names its index in its high nibble, and the low nibbles reassemble the
/// frames, seconds, minutes and the 5 bits of hours that MTC carries.
pub proof fn law_quarter_frames_carry_timecode(tc: Timecode, fps_milli: nat, drop_frame: bool)
    requires
        tc.frames < 256,
        tc.seconds < 256,
        tc.minutes < 256,
        tc.hours < 32,
    ensures
        forall|k: int| 0 <= k < 8 ==> #[trigger] quarter_frames(tc, fps_milli, drop_frame)[k] / 16 == k,
        ({
            let q = quarter_frames(tc, fps_milli, drop_frame);
            &&& q[0] % 16 + 16 * (q[1] % 16) == tc.frames
            &&& q[2] % 16 + 16 * (q[3] % 16) == tc.seconds
            &&& q[4] % 16 + 16 * (q[5] % 16) == tc.minutes
            &&& q[6] % 16 + 16 * (q[7] % 2) == tc.hours
            &&& q[7] % 16 / 2 % 4 == mtc_rate(fps_milli, drop_frame)
            &&& (q[7] % 16 >= 8) == drop_frame
        }),
{
    let q = quarter_frames(tc, fps_milli, drop_frame);
    assert forall|k: int| 0 <= k < 8 implies #[trigger] q[k] / 16 == k by {
        assert(q[k] == quarter_frame(tc, fps_milli, drop_frame, k));
    }
    assert(q[0] == quarter_frame(tc, fps_milli, drop_frame, 0));
    assert(q[1] == quarter_frame(tc, fps_milli, drop_frame, 1));
    assert(q[2] == quarter_frame(tc, fps_milli, drop_frame, 2));
    assert(q[3] == quarter_frame(tc, fps_milli, drop_frame, 3));
    assert(q[4] == quarter_frame(tc, fps_milli, drop_frame, 4));
    assert(q[5] == quarter_frame(tc, fps_milli, drop_frame, 5));
    assert(q[6] == quarter_frame(tc, fps_milli, drop_frame, 6));
    assert(q[7] == quarter_frame(tc, fps_milli, drop_frame, 7));
}

/// A listed output port whose name could be read and contains `name`.
pub open spec fn port_matches(port: Option<String>, name: Seq<char>) -> bool {
    match port {
        Some(n) => has_substring(n@, name),
        None => false,
    }
}

/// Index of the first port that matches `name`, if any.
pub open spec fn first_matching_port(ports: Seq<Option<String>>, name: Seq<char>) -> Option<int>
    decreases ports.len(),
{
    if ports.len() == 0 {
        None
    } else {
        match first_matching_port(ports.drop_last(), name) {
            Some(i) => Some(i),
            None => if port_matches(ports.last(), name) {
                Some(ports.len() - 1)
            } else {
                None
            },
        }
    }
}

/// The message when no MIDI output exists.
pub open spec fn no_output_message() -> Seq<char> {
    "nenhum dispositivo MIDI de saída"@
}

/// The message when no output port matches the configured device name.
pub open spec fn device_not_found_message(name: Seq<char>) -> Seq<char> {
    "dispositivo MIDI '"@ + name + "' não encontrado"@
}

proof fn lemma_first_matching_port(ports: Seq<Option<String>>, name: Seq<char>)
    ensures
        first_matching_port(ports, name) matches Some(i) ==> 0 <= i < ports.len() && port_matches(
            ports[i],
            name,
        ) && forall|j: int| 0 <= j < i ==> !port_matches(#[trigger] ports[j], name),
        first_matching_port(ports, name) is None ==> forall|j: int|
            0 <= j < ports.len() ==> !port_matches(#[trigger] ports[j], name),
    decreases ports.len(),
{
    if ports.len() > 0 {
        lemma_first_matching_port(ports.drop_last(), name);
        assert forall|j: int| 0 <= j < ports.len() - 1 implies ports.drop_last()[j] == ports[j] by {}
    }
}

/// Index of the first listed port whose name contains `name`.
pub fn find_port(port_names: &[Option<String>], name: &str) -> (r: Option<usize>)
    ensures
        r matches Some(i) ==> first_matching_port(port_names@, name@) == Some(i as int),
        r is None ==> first_matching_port(port_names@, name@) is None,
{
    let mut i: usize = 0;
    while i < port_names.len()
        invariant
            i <= port_names@.len(),
            first_matching_port(port_names@.take(i as int), name@) is None,
        decreases port_names@.len() - i,
    {
        let hit = match &port_names[i] {
            Some(n) => contains_str(n.as_str(), name),
            None => false,
        };
        proof {
            let t = port_names@.take(i + 1);
            assert(t.drop_last() =~= port_names@.take(i as int));
            assert(t.last() == port_names@[i as int]);
        }
        if hit {
            proof {
                lemma_first_matching_port(port_names@.take(i + 1), name@);
                lemma_prefix_match(port_names@, name@, i + 1);
            }
            return Some(i);
        }
        i += 1;
    }
    proof {
        assert(port_names@.take(port_names@.len() as int) =~= port_names@);
    }
    None
}

proof fn lemma_prefix_match(ports: Seq<Option<String>>, name: Seq<char>, n: int)
    requires
        0 <= n <= ports.len(),
        first_matching_port(ports.take(n), name) is Some,
    ensures
        first_matching_port(ports, name) == first_matching_port(ports.take(n), name),
    decreases ports.len() - n,
{
    if n < ports.len() {
        assert(ports.take(n + 1).drop_last() =~= ports.take(n));
        lemma_prefix_match(ports, name, n + 1);
    } else {
        assert(ports.take(n) =~= ports);
    }
}

/// Picks the MTC output among the ports that the MIDI backend lists (`None`
/// where a port's name could not be read): the first port whose name
/// contains the configured device name, or the first port when no name is
/// configured. Fails when there is no port at all, or when none matches.
pub fn select_output_port(port_names: &[Option<String>], device_name: &Option<String>) -> (r:
    Result<usize, ShowtimeError>)
    ensures
        port_names@.len() == 0 ==> (r matches Err(ShowtimeError::Midi(m))
            && m@ == no_output_message()),
        port_names@.len() > 0 && device_name is None ==> r matches Ok(0),
        device_name matches Some(n) ==> (port_names@.len() > 0 ==> match first_matching_port(
            port_names@,
            n@,
        ) {
            Some(i) => (r matches Ok(j) && j == i),
            None => (r matches Err(ShowtimeError::Midi(m)) && m@ == device_not_found_message(n@)),
        }),
{
    if port_names.len() == 0 {
        return Err(ShowtimeError::Midi(String::from_str("nenhum dispositivo MIDI de saída")));
    }
    match device_name {
        Some(name) => match find_port(port_names, name.as_str()) {
            Some(i) => Ok(i),
            None => Err(ShowtimeError::Midi(device_not_found(name.as_str()))),
        },
        None => Ok(0),
    }
}

/// `dispositivo MIDI '<name>' não encontrado`.
pub fn device_not_found(name: &str) -> (r: String)
    ensures
        r@ == device_not_found_message(name@),
{
    let mut m = String::from_str("dispositivo MIDI '");
    m.append(name);
    m.append("' não encontrado");
    m
}

/// The 8 MIDI messages `[0xF1, data]` of one frame.
pub open spec fn mtc_messages(tc: Timecode, fps_milli: nat, drop_frame: bool) -> Seq<Seq<u8>> {
    Seq::new(8, |k: int| seq![0xF1u8, quarter_frame(tc, fps_milli, drop_frame, k)])
}

/// One frame tick of the MTC sender: the timecode at the audio position and
/// the 8 quarter-frame messages to send for it. Every frame sends them, so
/// a receiver follows the position even while it holds still (240 messages
/// per second at 30 fps).
pub fn mtc_frame_update(position_ns: i64, config: &MtcConfig) -> (r: (Timecode, Vec<Vec<u8>>))
    ensures
        r.0 == timecode_or_zero(
            position_ns as int,
            config.fps_milli as nat,
            config.drop_frame,
            config.offset,
        ),
        r.1@.len() == 8,
        forall|k: int|
            0 <= k < 8 ==> #[trigger] r.1@[k]@ == mtc_messages(
                r.0,
                config.fps_milli as nat,
                config.drop_frame,
            )[k],
{
    let tc = timecode_or_zero_at(position_ns, config.fps_milli, config.drop_frame, config.offset);
    let qf = quarter_frame_nibbles(tc, config.fps_milli, config.drop_frame);
    let mut messages: Vec<Vec<u8>> = Vec::new();
    let mut k: usize = 0;
    while k < 8
        invariant
            k <= 8,
            qf@ == quarter_frames(tc, config.fps_milli as nat, config.drop_frame),
            messages@.len() == k,
            forall|j: int| 0 <= j < k ==> #[trigger] messages@[j]@ == mtc_messages(
                tc,
                config.fps_milli as nat,
                config.drop_frame,
            )[j],
        decreases 8 - k,
    {
        let msg: Vec<u8> = vec![0xF1, qf[k]];
        assert(msg@ =~= mtc_messages(tc, config.fps_milli as nat, config.drop_frame)[k as int]);
        messages.push(msg);
        k += 1;
    }
    (tc, messages)
}

/// Length of one frame in nanoseconds, `1 / fps` rounded to the nearest
/// nanosecond: the period at which the sender ticks.
pub fn mtc_frame_period_ns(fps_milli: u32) -> (r: u64)
    requires
        fps_milli > 0,
    ensures
        r == (2 * 1_000_000_000_000 + fps_milli) / (2 * fps_milli as int),
{
    let f: u64 = fps_milli as u64;
    (2_000_000_000_000u64 + f) / (2 * f)
}

} // verus!
