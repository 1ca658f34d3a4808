//! Silence: stretches in which the short-term loudness of one-second windows
//! stays below a threshold.
//!
//! The analyser fills a window from the frames, has the loudness meter
//! measure each full window, and hands what that comes to on to its
//! [`SilenceTracker`], which keeps the stretches of silence.

use vstd::prelude::*;
use crate::analysers::tracker::{SilenceTracker, TrackerView};
use crate::analysers::underruns::all_of_width;
use crate::analysers::{Analyser, Event};
use crate::json::SilenceReport;
use crate::loudness::Loudness;
use crate::meter::{integrated_now, measure, meter_accepts, meter_new, Measurement};

verus! {

/// Why a [`SilenceAnalyser`] could not be made.
#[derive(Debug, Clone, Copy, PartialEq, Eq)]
pub enum SilenceError {
    /// The loudness meter cannot be set up for the channel count and sample rate.
    MeterUnavailable,
}

/// The state of a [`SilenceAnalyser`] as a mathematical value. The meter has
/// no part in it: it is made to forget before every window.
pub struct AnalyserView {
    /// The window buffer: room for one second of all channels. The samples
    /// before `filled` are those of the window that is being filled; the rest
    /// is left over from the window before.
    pub buffer: Seq<i32>,
    /// The number of samples of the window that is being filled.
    pub filled: usize,
    /// The number of samples in a frame.
    pub channels: usize,
    /// The stretches of silence and what goes with them.
    pub tracker: TrackerView,
    /// One more than the index of the latest frame taken; 0 before the first.
    pub next_frame: usize,
}

/// An event, if there is one, as a list.
pub open spec fn listed(event: Option<Event>) -> Seq<Event> {
    match event {
        Some(event) => seq![event],
        None => Seq::empty(),
    }
}

impl AnalyserView {
    /// Whether this is the state before the first frame of a stream: a buffer
    /// of zeros for one second of all channels, nothing in the window, and a
    /// tracker that has seen no window.
    pub open spec fn is_initial(
        self,
        channels: u16,
        sample_rate: i32,
        num_frames: usize,
        threshold: Loudness,
        percentage: u32,
    ) -> bool {
        &&& self.buffer == Seq::new((sample_rate * channels) as nat, |i: int| 0i32)
        &&& self.filled == 0
        &&& self.channels == channels
        &&& self.next_frame == 0
        &&& self.tracker.is_initial(sample_rate, threshold, percentage, num_frames)
    }

    /// The window holds whole frames and is never left full.
    pub open spec fn wf(self) -> bool {
        &&& self.channels >= 1
        &&& self.buffer.len() % (self.channels as nat) == 0
        &&& self.filled < self.buffer.len()
        &&& self.filled % self.channels == 0
        &&& self.tracker.wf()
        &&& self.tracker.next_frame <= self.next_frame <= self.tracker.num_frames
    }

    /// Frames come in order and within the stream, one sample for each
    /// channel, until the stream has ended.
    pub open spec fn accepts(self, frame: usize, samples: Seq<i32>) -> bool {
        &&& !self.tracker.finished
        &&& self.next_frame <= frame < self.tracker.num_frames
        &&& samples.len() == self.channels
    }

    /// Whether the frame with the samples `samples` fills the window.
    pub open spec fn fills(self, samples: Seq<i32>) -> bool {
        self.filled + samples.len() >= self.buffer.len()
    }

    /// The buffer with `samples` put behind the samples of the window that is
    /// being filled. Nothing else in it changes.
    pub open spec fn written(self, samples: Seq<i32>) -> Seq<i32> {
        Seq::new(
            self.buffer.len(),
            |i: int|
                if self.filled <= i < self.filled + samples.len() {
                    samples[i - self.filled]
                } else {
                    self.buffer[i]
                },
        )
    }

    /// The state after frame `frame` with the samples `samples`, where
    /// `measured` is what the window comes to if the frame fills it.
    ///
    /// The samples go into the buffer. If that fills the window, the window is
    /// measured as the buffer then stands, what it comes to goes to the
    /// tracker, and the next window is begun at the front of the buffer, whose
    /// samples stay until they are written over.
    pub open spec fn step(
        self,
        frame: usize,
        samples: Seq<i32>,
        measured: Measurement,
    ) -> AnalyserView {
        AnalyserView {
            buffer: self.written(samples),
            filled: if self.fills(samples) {
                0
            } else {
                (self.filled + samples.len()) as usize
            },
            tracker: if self.fills(samples) {
                self.tracker.observe(frame, measured)
            } else {
                self.tracker
            },
            next_frame: (frame + 1) as usize,
            ..self
        }
    }

    /// What is reported of frame `frame` with the samples `samples`, where
    /// `measured` is what the window comes to if the frame fills it: nothing
    /// unless it does.
    pub open spec fn events(
        self,
        frame: usize,
        samples: Seq<i32>,
        measured: Measurement,
    ) -> Seq<Event> {
        if self.fills(samples) {
            listed(self.tracker.event(frame, measured))
        } else {
            Seq::empty()
        }
    }

    /// The state after the stream has ended. A window that is not full is dropped.
    pub open spec fn finish(self) -> AnalyserView {
        AnalyserView { tracker: self.tracker.finish(), ..self }
    }

    /// The state after the frames `frames`, taken one after the other without
    /// a gap, where `measurements` holds for each frame what the window comes
    /// to if that frame fills it.
    pub open spec fn fed(
        self,
        frames: Seq<Seq<i32>>,
        measurements: Seq<Measurement>,
    ) -> AnalyserView
        decreases frames.len(),
    {
        if frames.len() == 0 {
            self
        } else {
            let before = self.fed(frames.drop_last(), measurements.drop_last());
            before.step(before.next_frame, frames.last(), measurements.last())
        }
    }
}

/// Whether a frame of `channels` samples that comes after `count` frames
/// completes a window of `size` samples.
pub open spec fn completes_a_window(count: nat, channels: nat, size: nat) -> bool {
    (((count + 1) * channels) as int) % (size as int) == 0
}

/// The sum of a remainder and a summand below the divisor has the remainder
/// of the sum.
proof fn lemma_mod_step(total: int, channels: int, size: int)
    requires
        0 <= total,
        0 < channels < size,
    ensures
        (total + channels) % size == (total % size + channels) % size,
{
    vstd::arithmetic::div_mod::lemma_add_mod_noop(total, channels, size);
    vstd::arithmetic::div_mod::lemma_small_mod(channels as nat, size as nat);
}

/// A window is a whole second. Take any number of frames from the beginning
/// of a window: the samples in the window that is being filled are those of
/// the frames since the last whole second, and the next frame fills the
/// window exactly when it completes a second.
pub proof fn lemma_windows_are_whole_seconds(
    start: AnalyserView,
    frames: Seq<Seq<i32>>,
    measurements: Seq<Measurement>,
    next: Seq<i32>,
)
    requires
        start.channels >= 1,
        start.buffer.len() > 0,
        start.buffer.len() % (start.channels as nat) == 0,
        start.filled == 0,
        start.buffer.len() <= usize::MAX,
        all_of_width(frames, start.channels as nat),
        measurements.len() == frames.len(),
        next.len() == start.channels,
    ensures
        ({
            let after = start.fed(frames, measurements);
            let size = start.buffer.len();
            &&& after.buffer.len() == size
            &&& after.channels == start.channels
            &&& after.filled < size
            &&& after.filled == ((frames.len() * start.channels) as int) % (size as int)
            &&& after.filled % start.channels == 0
            &&& after.fills(next) <==> completes_a_window(
                frames.len(),
                start.channels as nat,
                size,
            )
        }),
    decreases frames.len(),
{
    let size = start.buffer.len() as int;
    let channels = start.channels as int;
    let count = frames.len() as int;
    let after = start.fed(frames, measurements);
    if count == 0 {
        assert(count * channels == 0) by (nonlinear_arith)
            requires
                count == 0,
        ;
        vstd::arithmetic::div_mod::lemma_small_mod(0, size as nat);
        vstd::arithmetic::div_mod::lemma_small_mod(0, channels as nat);
    } else {
        let earlier = frames.drop_last();
        assert forall|i: int| 0 <= i < earlier.len() implies (#[trigger] earlier[i]).len()
            == start.channels by {
            assert(earlier[i] == frames[i]);
        }
        assert(frames.last() == frames[count - 1]);
        lemma_windows_are_whole_seconds(start, earlier, measurements.drop_last(), frames.last());
        let before = start.fed(earlier, measurements.drop_last());
        assert(after == before.step(before.next_frame, frames.last(), measurements.last()));
        lemma_window_room(before.filled as int, channels, size);
        assert((count - 1 + 1) * channels == count * channels) by (nonlinear_arith);
        if before.fills(frames.last()) {
            assert(after.filled == 0);
            vstd::arithmetic::div_mod::lemma_small_mod(0, channels as nat);
        } else {
            assert(after.filled == before.filled + channels);
            assert(count * channels == (count - 1) * channels + channels) by (nonlinear_arith);
            assert(0 <= (count - 1) * channels) by (nonlinear_arith)
                requires
                    count >= 1,
                    channels >= 1,
            ;
            lemma_mod_step((count - 1) * channels, channels, size);
            vstd::arithmetic::div_mod::lemma_small_mod(
                (before.filled + channels) as nat,
                size as nat,
            );
        }
    }
    lemma_window_room(after.filled as int, channels, size);
    assert((count + 1) * channels == count * channels + channels) by (nonlinear_arith);
    assert(0 <= count * channels) by (nonlinear_arith)
        requires
            count >= 0,
            channels >= 1,
    ;
    if channels < size {
        lemma_mod_step(count * channels, channels, size);
        if after.filled + channels < size {
            vstd::arithmetic::div_mod::lemma_small_mod(
                (after.filled + channels) as nat,
                size as nat,
            );
        } else {
            vstd::arithmetic::div_mod::lemma_mod_self_0(size);
        }
    } else {
        vstd::arithmetic::div_mod::lemma_small_mod(after.filled as nat, channels as nat);
        vstd::arithmetic::div_mod::lemma_mod_multiples_basic(count + 1, channels);
    }
}

/// A window that holds whole frames and is not full has room for one more frame.
proof fn lemma_window_room(filled: int, channels: int, size: int)
    requires
        channels > 0,
        0 <= filled < size,
        filled % channels == 0,
        size % channels == 0,
    ensures
        filled + channels <= size,
        (filled + channels) % channels == 0,
{
    vstd::arithmetic::div_mod::lemma_fundamental_div_mod(filled, channels);
    vstd::arithmetic::div_mod::lemma_fundamental_div_mod(size, channels);
    let a = filled / channels;
    let b = size / channels;
    assert(a < b) by (nonlinear_arith)
        requires
            channels > 0,
            channels * a < channels * b,
    ;
    assert(channels * (a + 1) <= channels * b) by (nonlinear_arith)
        requires
            channels > 0,
            a + 1 <= b,
    ;
    assert(channels * (a + 1) == channels * a + channels) by (nonlinear_arith);
    vstd::arithmetic::div_mod::lemma_mod_add_multiples_vanish(filled, channels);
}

/// Finds the stretches of a stream in which the short-term loudness of
/// one-second windows is below a threshold.
pub struct SilenceAnalyser {
    frame_buf: Vec<i32>,
    frame_buf_iter: usize,
    loudness: ebur128::EbuR128,
    window_size: usize,
    channels: usize,
    tracker: SilenceTracker,
    next_frame: usize,
}

impl View for SilenceAnalyser {
    type V = AnalyserView;

    closed spec fn view(&self) -> AnalyserView {
        AnalyserView {
            buffer: self.frame_buf@,
            filled: self.frame_buf_iter,
            channels: self.channels,
            tracker: self.tracker@,
            next_frame: self.next_frame,
        }
    }
}

impl SilenceAnalyser {
    /// An analyser for a stream of `num_frames` frames of `channels` channels
    /// each, at `sample_rate` frames per second. A window is silent below
    /// `lufs`; the stream fails when `percentage` percent of its frames are silent.
    ///
    /// It is made for exactly the channel counts and sample rates that the
    /// loudness meter takes.
    pub fn new(
        channels: u16,
        sample_rate: i32,
        num_frames: usize,
        lufs: Loudness,
        percentage: u32,
    ) -> (made: Result<Self, SilenceError>)
        ensures
            made is Ok <==> sample_rate >= 0 && meter_accepts(channels as u32, sample_rate as u32),
            made matches Ok(analyser) ==> {
                &&& analyser.wf()
                &&& analyser@.is_initial(channels, sample_rate, num_frames, lufs, percentage)
            },
    {
        if sample_rate < 0 {
            return Err(SilenceError::MeterUnavailable);
        }
        let loudness = match meter_new(channels as u32, sample_rate as u32) {
            Ok(meter) => meter,
            Err(_) => {
                return Err(SilenceError::MeterUnavailable);
            },
        };
        assert(sample_rate * channels <= 2822400 * 64) by (nonlinear_arith)
            requires
                0 <= sample_rate <= 2822400,
                0 <= channels <= 64,
        ;
        assert(sample_rate * channels >= 16) by (nonlinear_arith)
            requires
                sample_rate >= 16,
                channels >= 1,
        ;
        let window_size: usize = sample_rate as usize * channels as usize;
        proof {
            vstd::arithmetic::div_mod::lemma_mod_multiples_basic(
                sample_rate as int,
                channels as int,
            );
        }
        let frame_buf: Vec<i32> = vec![0; window_size];
        let tracker = SilenceTracker::new(sample_rate, lufs, percentage, num_frames);
        assert(frame_buf@ =~= Seq::new((sample_rate * channels) as nat, |i: int| 0i32));
        let analyser = SilenceAnalyser {
            frame_buf,
            frame_buf_iter: 0,
            loudness,
            window_size,
            channels: channels as usize,
            tracker,
            next_frame: 0,
        };
        Ok(analyser)
    }

    /// Whether the frame with index `frame_counter` and samples `frame` may be
    /// handed over next.
    pub fn can_take(&self, frame_counter: usize, frame: &[i32]) -> (ok: bool)
        ensures
            ok == self@.accepts(frame_counter, frame@),
    {
        !self.tracker.is_finished() && self.next_frame <= frame_counter && frame_counter
            < self.tracker.num_frames() && frame.len() == self.channels
    }

    /// Whether the stream has not been ended yet.
    pub fn can_finish(&self) -> (ok: bool)
        ensures
            ok == !self@.tracker.finished,
    {
        !self.tracker.is_finished()
    }

    /// The index that the next frame must have at least.
    pub fn next_frame(&self) -> (frame: usize)
        ensures
            frame == self@.next_frame,
    {
        self.next_frame
    }

    /// The number of samples in a frame.
    pub fn channels(&self) -> (channels: usize)
        ensures
            channels == self@.channels,
    {
        self.channels
    }

    /// The stretches of silence and what goes with them.
    pub fn tracker(&self) -> (tracker: &SilenceTracker)
        ensures
            tracker@ == self@.tracker,
    {
        &self.tracker
    }
}

impl Analyser for SilenceAnalyser {
    closed spec fn wf(&self) -> bool {
        &&& self@.wf()
        &&& self.frame_buf@.len() == self.window_size
    }

    open spec fn accepts(&self, frame_counter: usize, frame: Seq<i32>) -> bool {
        self@.accepts(frame_counter, frame)
    }

    open spec fn may_finish(&self) -> bool {
        !self@.tracker.finished
    }

    open spec fn verdict(&self) -> u8 {
        self@.tracker.verdict()
    }

    open spec fn has_findings(&self) -> bool {
        self@.tracker.segments.len() > 0
    }

    /// Puts the frame into the window buffer. When that fills the window, the
    /// meter measures the buffer, whatever the measurement comes to goes to the
    /// tracker, and the next window is begun.
    fn analyse(&mut self, frame_counter: usize, frame: &[i32]) -> (events: Vec<Event>)
        ensures
            final(self)@.wf(),
            exists|measured: Measurement|
                {
                    &&& final(self)@ == #[trigger] old(self)@.step(
                        frame_counter,
                        frame@,
                        measured,
                    )
                    &&& events@ == old(self)@.events(frame_counter, frame@, measured)
                },
    {
        let ghost before = self@;
        proof {
            lemma_window_room(
                before.filled as int,
                self.channels as int,
                self.window_size as int,
            );
        }
        let mut i: usize = 0;
        while i < frame.len()
            invariant
                i <= frame@.len(),
                frame@.len() == self.channels,
                self.frame_buf@.len() == self.window_size,
                self.frame_buf_iter == before.filled + i,
                before.filled + frame@.len() <= self.window_size,
                before.buffer.len() == self.window_size,
                forall|k: int|
                    0 <= k < self.window_size ==> #[trigger] self.frame_buf@[k] == (if before.filled
                        <= k < before.filled + i {
                        frame@[k - before.filled]
                    } else {
                        before.buffer[k]
                    }),
                self.window_size == old(self).window_size,
                self.channels == before.channels,
                self.tracker == old(self).tracker,
                self.next_frame == before.next_frame,
            decreases frame@.len() - i,
        {
            self.frame_buf.set(self.frame_buf_iter, frame[i]);
            self.frame_buf_iter = self.frame_buf_iter + 1;
            i = i + 1;
        }
        assert(self.frame_buf@ =~= before.written(frame@));
        self.next_frame = frame_counter + 1;
        let mut events: Vec<Event> = Vec::new();
        if self.frame_buf_iter >= self.window_size {
            self.frame_buf_iter = 0;
            let measured = measure(&mut self.loudness, self.frame_buf.as_slice());
            let event = self.tracker.observe(frame_counter, measured);
            match event {
                Some(event) => {
                    events.push(event);
                },
                None => {},
            }
            assert(self@ == before.step(frame_counter, frame@, measured));
            assert(events@ =~= before.events(frame_counter, frame@, measured));
        } else {
            assert(self@ == before.step(frame_counter, frame@, Measurement::Failed));
            assert(events@ =~= before.events(frame_counter, frame@, Measurement::Failed));
        }
        events
    }

    /// Ends the stream: a silence that lasts is ended at the end of the
    /// stream. The report of that carries the integrated loudness that the
    /// meter has to give then.
    fn finish(&mut self) -> (outcome: (u8, Vec<Event>))
        ensures
            final(self)@ == old(self)@.finish(),
            exists|integrated: Loudness|
                outcome.1@ == listed(#[trigger] old(self)@.tracker.last_event(integrated)),
    {
        let ghost before = self@;
        let integrated = integrated_now(&self.loudness);
        let (code, event) = self.tracker.finish(integrated);
        let mut events: Vec<Event> = Vec::new();
        match event {
            Some(event) => {
                events.push(event);
            },
            None => {},
        }
        assert(events@ =~= listed(before.tracker.last_event(integrated)));
        (code, events)
    }

    /// The report of the stretches found, under the name `silence`; none when
    /// there is no stretch.
    fn json(&self) -> (fragment: Option<(String, SilenceReport)>)
        ensures
            fragment matches Some(named) ==> {
                &&& named.0@ == "silence"@
                &&& named.1.results@ == self@.tracker.report()
                &&& named.1.threshold == self@.tracker.threshold
                &&& named.1.sample_rate == self@.tracker.sample_rate
            },
    {
        self.tracker.json()
    }
}

} // verus!
