//! Transport (play/pause/stop/seek) over decoded PCM.
//!
//! The state is self-timed: the position advances by the real time elapsed
//! while playing, even without an audio device (silent mode). The caller
//! measures the elapsed time and drives the output device; this clock
//! decides the position, when playback ends, and from which sample the
//! audio source restarts.

use vstd::prelude::*;

verus! {

/// Length in nanoseconds of `total_samples` interleaved samples, rounded to
/// the nearest nanosecond and at most `i64::MAX`.
pub open spec fn samples_duration_ns(total_samples: nat, channels: nat, sample_rate: nat) -> int {
    let d = (2 * total_samples * 1_000_000_000 + channels * sample_rate) / (2 * (channels
        * sample_rate));
    if d > i64::MAX {
        i64::MAX as int
    } else {
        d as int
    }
}

/// Index of the first interleaved sample of the frame nearest to `time_ns`
/// (the frame count times the channels, saturated at `usize::MAX`).
pub open spec fn frame_sample_index(time_ns: int, channels: nat, sample_rate: nat) -> int {
    let frame = if time_ns <= 0 {
        0
    } else {
        (time_ns * sample_rate + 500_000_000) / 1_000_000_000
    };
    if frame * channels > usize::MAX {
        usize::MAX as int
    } else {
        frame * channels
    }
}

/// Where the audio source restarts for `time_ns`: the sample index, or
/// `None` when it lies past the samples.
pub open spec fn source_start(
    time_ns: int,
    total_samples: nat,
    channels: nat,
    sample_rate: nat,
) -> Option<int> {
    let offset = frame_sample_index(time_ns, channels, sample_rate);
    if offset >= total_samples {
        None
    } else {
        Some(offset)
    }
}

/// The play clock of decoded audio.
#[derive(Debug, Clone, Copy)]
pub struct TransportClock {
    total_samples: usize,
    channels: u16,
    sample_rate: u32,
    duration_ns: i64,
    position_ns: i64,
    playing: bool,
}

impl TransportClock {
    /// Number of interleaved samples.
    pub closed spec fn samples(&self) -> nat {
        self.total_samples as nat
    }

    /// Channels of the audio.
    pub closed spec fn channel_count(&self) -> nat {
        self.channels as nat
    }

    /// Sample rate of the audio.
    pub closed spec fn rate(&self) -> nat {
        self.sample_rate as nat
    }

    /// Duration of the audio in nanoseconds.
    pub closed spec fn duration(&self) -> int {
        self.duration_ns as int
    }

    /// Current position in nanoseconds.
    pub closed spec fn position(&self) -> int {
        self.position_ns as int
    }

    /// Whether the clock is running.
    pub closed spec fn running(&self) -> bool {
        self.playing
    }

    /// The clock's well-formedness: a real audio format, the duration of
    /// its samples, and a position within it.
    pub closed spec fn wf(&self) -> bool {
        &&& self.channels > 0
        &&& self.sample_rate > 0
        &&& self.duration_ns == samples_duration_ns(
            self.total_samples as nat,
            self.channels as nat,
            self.sample_rate as nat,
        )
        &&& 0 <= self.position_ns <= self.duration_ns
    }

    /// A stopped clock at the start of `total_samples` interleaved samples.
    pub fn new(total_samples: usize, sample_rate: u32, channels: u16) -> (r: TransportClock)
        requires
            channels > 0,
            sample_rate > 0,
        ensures
            r.wf(),
            r.samples() == total_samples,
            r.channel_count() == channels,
            r.rate() == sample_rate,
            r.duration() == samples_duration_ns(total_samples as nat, channels as nat, sample_rate as nat),
            r.position() == 0,
            !r.running(),
    {
        let t: u128 = total_samples as u128;
        let c: u128 = channels as u128;
        let f: u128 = sample_rate as u128;
        assert(c * f <= 0xFFFF * 0xFFFF_FFFF) by (nonlinear_arith)
            requires
                c <= 0xFFFF,
                f <= 0xFFFF_FFFF,
        ;
        assert(c * f > 0) by (nonlinear_arith)
            requires
                c > 0,
                f > 0,
        ;
        let cf: u128 = c * f;
        let num: u128 = 2 * t * 1_000_000_000 + cf;
        let den: u128 = 2 * cf;
        let d: u128 = num / den;
        let duration_ns: i64 = if d > 0x7FFF_FFFF_FFFF_FFFF {
            0x7FFF_FFFF_FFFF_FFFF
        } else {
            d as i64
        };
        TransportClock {
            total_samples,
            channels,
            sample_rate,
            duration_ns,
            position_ns: 0,
            playing: false,
        }
    }

    /// Duration of the audio in nanoseconds.
    pub fn duration_ns(&self) -> (r: i64)
        ensures
            r == self.duration(),
    {
        self.duration_ns
    }

    /// Whether the audio is playing.
    pub fn is_playing(&self) -> (r: bool)
        ensures
            r == self.running(),
    {
        self.playing
    }

    /// The sample index from which the source restarts for `time_ns`.
    pub fn source_start(&self, time_ns: i64) -> (r: Option<usize>)
        requires
            self.wf(),
        ensures
            r == (match source_start(time_ns as int, self.samples(), self.channel_count(), self.rate()) {
                Some(i) => Some(i as usize),
                None => None::<usize>,
            }),
    {
        let f: u128 = self.sample_rate as u128;
        let c: u128 = self.channels as u128;
        let frame: u128 = if time_ns <= 0 {
            0
        } else {
            let t: u128 = time_ns as u128;
            assert(t * f <= 0x7FFF_FFFF_FFFF_FFFF * 0xFFFF_FFFF) by (nonlinear_arith)
                requires
                    t <= 0x7FFF_FFFF_FFFF_FFFF,
                    f <= 0xFFFF_FFFF,
            ;
            (t * f + 500_000_000) / 1_000_000_000
        };
        assert(frame <= 0x7FFF_FFFF_FFFF_FFFF * 0xFFFF_FFFF);
        assert(frame * c <= 0x7FFF_FFFF_FFFF_FFFF * 0xFFFF_FFFF * 0xFFFF) by (nonlinear_arith)
            requires
                frame <= 0x7FFF_FFFF_FFFF_FFFF * 0xFFFF_FFFF,
                c <= 0xFFFF,
        ;
        let wide: u128 = frame * c;
        let offset: usize = if wide > usize::MAX as u128 {
            usize::MAX
        } else {
            wide as usize
        };
        if offset >= self.total_samples {
            None
        } else {
            Some(offset)
        }
    }

    /// Advances the position by `elapsed_ns` of real time while playing;
    /// reaching the end stops the clock at the end. Returns `true` when
    /// this call reached the end (the output must be stopped).
    pub fn advance(&mut self, elapsed_ns: u64) -> (ended: bool)
        requires
            old(self).wf(),
        ensures
            final(self).wf(),
            final(self).samples() == old(self).samples(),
            final(self).channel_count() == old(self).channel_count(),
            final(self).rate() == old(self).rate(),
            final(self).duration() == old(self).duration(),
            !old(self).running() ==> *final(self) == *old(self) && !ended,
            old(self).running() ==> if old(self).position() + elapsed_ns >= old(self).duration() {
                ended && final(self).position() == old(self).duration() && !final(self).running()
            } else {
                !ended && final(self).position() == old(self).position() + elapsed_ns
                    && final(self).running()
            },
    {
        if !self.playing {
            return false;
        }
        let room: u64 = (self.duration_ns - self.position_ns) as u64;
        if elapsed_ns >= room {
            self.position_ns = self.duration_ns;
            self.playing = false;
            true
        } else {
            self.position_ns = self.position_ns + elapsed_ns as i64;
            false
        }
    }

    /// Starts playing from the current position (from the start when the
    /// position is at the end). Returns where the source restarts, `None`
    /// when no sample is left to play.
    pub fn play(&mut self) -> (r: Option<usize>)
        requires
            old(self).wf(),
        ensures
            final(self).wf(),
            final(self).running(),
            final(self).position() == (if old(self).position() >= old(self).duration() {
                0
            } else {
                old(self).position()
            }),
            final(self).samples() == old(self).samples(),
            final(self).channel_count() == old(self).channel_count(),
            final(self).rate() == old(self).rate(),
            final(self).duration() == old(self).duration(),
            r == (match source_start(
                final(self).position(),
                old(self).samples(),
                old(self).channel_count(),
                old(self).rate(),
            ) {
                Some(i) => Some(i as usize),
                None => None::<usize>,
            }),
    {
        if self.position_ns >= self.duration_ns {
            self.position_ns = 0;
        }
        let start = self.source_start(self.position_ns);
        self.playing = true;
        start
    }

    /// Pauses, freezing the position after accounting `elapsed_ns`.
    pub fn pause(&mut self, elapsed_ns: u64)
        requires
            old(self).wf(),
        ensures
            final(self).wf(),
            !final(self).running(),
            final(self).position() == (if old(self).running() {
                if old(self).position() + elapsed_ns >= old(self).duration() {
                    old(self).duration()
                } else {
                    old(self).position() + elapsed_ns
                }
            } else {
                old(self).position()
            }),
            final(self).samples() == old(self).samples(),
            final(self).channel_count() == old(self).channel_count(),
            final(self).rate() == old(self).rate(),
            final(self).duration() == old(self).duration(),
    {
        self.advance(elapsed_ns);
        self.playing = false;
    }

    /// Stops and goes back to the start.
    pub fn stop(&mut self)
        requires
            old(self).wf(),
        ensures
            final(self).wf(),
            !final(self).running(),
            final(self).position() == 0,
            final(self).samples() == old(self).samples(),
            final(self).channel_count() == old(self).channel_count(),
            final(self).rate() == old(self).rate(),
            final(self).duration() == old(self).duration(),
    {
        self.playing = false;
        self.position_ns = 0;
    }

    /// Moves the position to `target_ns`, clamped to the audio, after
    /// accounting `elapsed_ns`. When still playing, returns where the source
    /// restarts.
    pub fn seek(&mut self, target_ns: i64, elapsed_ns: u64) -> (r: Option<usize>)
        requires
            old(self).wf(),
        ensures
            final(self).wf(),
            final(self).position() == (if target_ns < 0 {
                0
            } else if target_ns > old(self).duration() {
                old(self).duration()
            } else {
                target_ns as int
            }),
            final(self).running() == (old(self).running() && old(self).position() + elapsed_ns
                < old(self).duration()),
            final(self).samples() == old(self).samples(),
            final(self).channel_count() == old(self).channel_count(),
            final(self).rate() == old(self).rate(),
            final(self).duration() == old(self).duration(),
            r == (if final(self).running() {
                match source_start(
                    final(self).position(),
                    old(self).samples(),
                    old(self).channel_count(),
                    old(self).rate(),
                ) {
                    Some(i) => Some(i as usize),
                    None => None::<usize>,
                }
            } else {
                None::<usize>
            }),
    {
        let clamped: i64 = if target_ns < 0 {
            0
        } else if target_ns > self.duration_ns {
            self.duration_ns
        } else {
            target_ns
        };
        self.advance(elapsed_ns);
        self.position_ns = clamped;
        if self.playing {
            self.source_start(clamped)
        } else {
            None
        }
    }

    /// The current position after accounting `elapsed_ns`; returns it and
    /// whether playback just reached the end.
    pub fn position_ns(&mut self, elapsed_ns: u64) -> (r: (i64, bool))
        requires
            old(self).wf(),
        ensures
            final(self).wf(),
            r.0 == final(self).position(),
            !old(self).running() ==> *final(self) == *old(self) && !r.1,
            old(self).running() ==> if old(self).position() + elapsed_ns >= old(self).duration() {
                r.1 && final(self).position() == old(self).duration() && !final(self).running()
            } else {
                !r.1 && final(self).position() == old(self).position() + elapsed_ns
                    && final(self).running()
            },
            final(self).samples() == old(self).samples(),
            final(self).channel_count() == old(self).channel_count(),
            final(self).rate() == old(self).rate(),
            final(self).duration() == old(self).duration(),
    {
        let ended = self.advance(elapsed_ns);
        (self.position_ns, ended)
    }
}

} // verus!
