//! Application settings: frame rate, offset, MIDI device, TCP network.

use vstd::prelude::*;

use crate::timecode::model::parsed_timecode;
use crate::timecode::Timecode;

verus! {

/// Settings state (edited in the Settings window).
#[derive(Debug, Clone)]
pub struct AppSettings {
    /// Frame rate in milli-frames per second.
    pub fps_milli: u32,
    pub drop_frame: bool,
    pub offset: Timecode,
    pub midi_device: String,
    pub tcp_ip: String,
    pub tcp_port: u16,
}

/// Drop-frame counting is on only at 29.97 fps.
pub open spec fn drop_frame_consistent(s: AppSettings) -> bool {
    s.drop_frame ==> s.fps_milli == 29970
}

impl Default for AppSettings {
    fn default() -> (r: AppSettings)
        ensures
            r.fps_milli == 30000,
            !r.drop_frame,
            r.offset == (Timecode { hours: 0, minutes: 0, seconds: 0, frames: 0 }),
            r.midi_device@ == Seq::<char>::empty(),
            r.tcp_ip@ == "192.168.1.10"@,
            r.tcp_port == 3000,
            drop_frame_consistent(r),
    {
        AppSettings {
            fps_milli: 30000,
            drop_frame: false,
            offset: Timecode::zero(),
            midi_device: String::new(),
            tcp_ip: String::from_str("192.168.1.10"),
            tcp_port: 3000,
        }
    }
}

/// The frame rates offered, in the order shown: 24, 25, 30 and 29.97 fps.
pub fn frame_rates() -> (r: [u32; 4])
    ensures
        r@ == seq![24000u32, 25000, 30000, 29970],
{
    let r = [24000, 25000, 30000, 29970];
    assert(r@ =~= seq![24000u32, 25000, 30000, 29970]);
    r
}

/// The frame rate after a frame rate was picked (or not).
pub open spec fn rate_after(s: AppSettings, fps_milli: Option<u32>) -> u32 {
    match fps_milli {
        Some(f) => f,
        None => s.fps_milli,
    }
}

/// The drop-frame setting after a frame rate was picked (or not): leaving
/// 29.97 turns it off.
pub open spec fn drop_frame_after_rate(s: AppSettings, fps_milli: Option<u32>) -> bool {
    match fps_milli {
        Some(f) => s.drop_frame && f == 29970,
        None => s.drop_frame,
    }
}

impl AppSettings {
    /// Drop-frame can be chosen only at 29.97 fps.
    pub fn drop_frame_allowed(&self) -> (r: bool)
        ensures
            r == (self.fps_milli == 29970),
    {
        self.fps_milli == 29970
    }

    /// Picks a frame rate; leaving 29.97 turns drop-frame off. Returns
    /// `true`: the markers' timecodes must be recomputed.
    pub fn choose_frame_rate(&mut self, fps_milli: u32) -> (changed: bool)
        ensures
            changed,
            final(self).fps_milli == fps_milli,
            final(self).drop_frame == (old(self).drop_frame && fps_milli == 29970),
            final(self).offset == old(self).offset,
            final(self).midi_device == old(self).midi_device,
            final(self).tcp_ip == old(self).tcp_ip,
            final(self).tcp_port == old(self).tcp_port,
            drop_frame_consistent(*old(self)) ==> drop_frame_consistent(*final(self)),
    {
        self.fps_milli = fps_milli;
        if fps_milli != 29970 {
            self.drop_frame = false;
        }
        true
    }

    /// Toggles drop-frame counting when the frame rate allows it; returns
    /// whether the setting changed.
    pub fn choose_drop_frame(&mut self, drop_frame: bool) -> (changed: bool)
        ensures
            changed == (old(self).fps_milli == 29970 && drop_frame != old(self).drop_frame),
            final(self).drop_frame == (if old(self).fps_milli == 29970 {
                drop_frame
            } else {
                old(self).drop_frame
            }),
            final(self).fps_milli == old(self).fps_milli,
            final(self).offset == old(self).offset,
            final(self).midi_device == old(self).midi_device,
            final(self).tcp_ip == old(self).tcp_ip,
            final(self).tcp_port == old(self).tcp_port,
            drop_frame_consistent(*old(self)) ==> drop_frame_consistent(*final(self)),
    {
        if self.fps_milli == 29970 && drop_frame != self.drop_frame {
            self.drop_frame = drop_frame;
            true
        } else {
            false
        }
    }

    /// Commits the offset typed as `HH:MM:SS:FF`: a valid timecode that
    /// differs from the current offset replaces it (returns `true`); invalid
    /// or unchanged text keeps the previous offset.
    pub fn commit_offset_text(&mut self, text: &str) -> (changed: bool)
        ensures
            changed == (parsed_timecode(text@) matches Some(tc) && tc != old(self).offset),
            final(self).offset == (if changed {
                parsed_timecode(text@)->Some_0
            } else {
                old(self).offset
            }),
            final(self).fps_milli == old(self).fps_milli,
            final(self).drop_frame == old(self).drop_frame,
            final(self).midi_device == old(self).midi_device,
            final(self).tcp_ip == old(self).tcp_ip,
            final(self).tcp_port == old(self).tcp_port,
            drop_frame_consistent(*old(self)) ==> drop_frame_consistent(*final(self)),
    {
        match Timecode::parse(text) {
            Ok(tc) => {
                if tc != self.offset {
                    self.offset = tc;
                    true
                } else {
                    false
                }
            },
            Err(_) => false,
        }
    }

    /// Applies the edits made in the settings window during one frame, in
    /// the order the window shows them: a frame rate picked, the drop-frame
    /// box toggled, an offset text committed. Returns whether the
    /// markers' timecodes must be recomputed.
    pub fn apply_edits(
        &mut self,
        fps_milli: Option<u32>,
        drop_frame: Option<bool>,
        offset_text: Option<&str>,
    ) -> (changed: bool)
        ensures
            final(self).fps_milli == rate_after(*old(self), fps_milli),
            final(self).drop_frame == (match drop_frame {
                Some(d) => if rate_after(*old(self), fps_milli) == 29970 {
                    d
                } else {
                    drop_frame_after_rate(*old(self), fps_milli)
                },
                None => drop_frame_after_rate(*old(self), fps_milli),
            }),
            offset_text matches Some(t) ==> (parsed_timecode(t@) matches Some(tc)
                ==> final(self).offset == tc),
            offset_text matches Some(t) ==> (parsed_timecode(t@) is None ==> final(self).offset
                == old(self).offset),
            offset_text is None ==> final(self).offset == old(self).offset,
            changed == (fps_milli is Some || final(self).drop_frame != drop_frame_after_rate(
                *old(self),
                fps_milli,
            ) || final(self).offset != old(self).offset),
            final(self).midi_device == old(self).midi_device,
            final(self).tcp_ip == old(self).tcp_ip,
            final(self).tcp_port == old(self).tcp_port,
            drop_frame_consistent(*old(self)) ==> drop_frame_consistent(*final(self)),
    {
        let mut changed = false;
        if let Some(f) = fps_milli {
            changed = self.choose_frame_rate(f);
        }
        if let Some(d) = drop_frame {
            let c = self.choose_drop_frame(d);
            changed = changed || c;
        }
        if let Some(t) = offset_text {
            let c = self.commit_offset_text(t);
            changed = changed || c;
        }
        changed
    }
}

} // verus!
