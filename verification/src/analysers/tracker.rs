//! The stretches of silence in a stream, kept from the loudness of its
//! one-second windows.
//!
//! A window is silent when its short-term loudness is below the threshold. A
//! stretch of silence begins with the first silent window after a loud one,
//! and ends with the first loud window after it, or with the stream.

use vstd::prelude::*;
use crate::analysers::Event;
use crate::json::{SilenceReport, SilenceSegment};
use crate::loudness::Loudness;
use crate::meter::Measurement;
use crate::states::SilenceState;
use crate::ERR_CONTAINS_SILENCE;

verus! {

/// A stretch of silence from frame `start` up to, not including, frame `end`;
/// without an end while the silence lasts.
#[derive(Debug, Clone, Copy, PartialEq, Eq)]
pub struct Segment {
    pub start: usize,
    pub end: Option<usize>,
}

/// The number of frames in a stretch that has ended; 0 for one that has not.
pub open spec fn duration(segment: Segment) -> nat {
    match segment.end {
        Some(end) => if end >= segment.start {
            (end - segment.start) as nat
        } else {
            0
        },
        None => 0,
    }
}

/// The number of frames in all the stretches that have ended.
pub open spec fn closed_total(segments: Seq<Segment>) -> nat
    decreases segments.len(),
{
    if segments.len() == 0 {
        0
    } else {
        closed_total(segments.drop_last()) + duration(segments.last())
    }
}

/// The stretches with the latest one ended at `end`.
pub open spec fn close_last(segments: Seq<Segment>, end: usize) -> Seq<Segment> {
    if segments.len() == 0 {
        segments
    } else {
        segments.update(
            segments.len() - 1,
            Segment { start: segments.last().start, end: Some(end) },
        )
    }
}

/// Whether `silent` frames out of `total` are at least `percentage` percent.
/// Of no frames at all, no share is reached.
pub open spec fn ratio_reached(silent: nat, total: nat, percentage: nat) -> bool {
    total > 0 && silent * 100 >= percentage * total
}

/// What is reported of a stretch in a stream of `num_frames` frames: a stretch
/// without an end lasts to the end of the stream.
pub open spec fn segment_report(segment: Segment, num_frames: usize) -> SilenceSegment {
    let end = match segment.end {
        Some(end) => end,
        None => num_frames,
    };
    SilenceSegment {
        start_sample: segment.start,
        end_sample: end,
        duration_samples: (end - segment.start) as usize,
    }
}

/// The state of a [`SilenceTracker`] as a mathematical value.
pub struct TrackerView {
    /// Silent frames counted so far: the frames of the stretches that have ended.
    pub count: usize,
    /// A window is silent when its loudness is below this.
    pub threshold: Loudness,
    /// Number of frames in the whole stream.
    pub num_frames: usize,
    /// The share of silent frames, in percent, from which the stream fails.
    pub percentage: u32,
    /// Frames per second.
    pub sample_rate: i32,
    /// Loudness of the latest window, and where the latest stretch began and ended.
    pub state: SilenceState,
    /// The stretches of silence, oldest first.
    pub segments: Seq<Segment>,
    /// One more than the frame of the latest window; 0 before the first.
    pub next_frame: usize,
    /// Whether the stream has ended.
    pub finished: bool,
}

impl TrackerView {
    /// Whether the latest window was silent.
    pub open spec fn silent(self) -> bool {
        self.state.previous_lufs.below(self.threshold)
    }

    /// Whether the stream counts as loud before its first window: the
    /// threshold is not above zero.
    pub open spec fn starts_loud(self) -> bool {
        self.threshold.rank() <= 0
    }

    /// Whether this is the state before the first window of a stream: nothing
    /// counted, no stretch, and a loudness of zero to compare the first window
    /// with.
    pub open spec fn is_initial(
        self,
        sample_rate: i32,
        threshold: Loudness,
        percentage: u32,
        num_frames: usize,
    ) -> bool {
        &&& self.count == 0
        &&& self.threshold == threshold
        &&& self.num_frames == num_frames
        &&& self.percentage == percentage
        &&& self.sample_rate == sample_rate
        &&& self.state.previous_lufs.bits() == 0
        &&& self.state.silence_start_frame == 0
        &&& self.state.silence_end_frame == 0
        &&& self.segments.len() == 0
        &&& self.next_frame == 0
        &&& !self.finished
    }

    /// Windows come in order and within the stream, until it has ended.
    pub open spec fn accepts(self, frame: usize) -> bool {
        &&& !self.finished
        &&& self.next_frame <= frame < self.num_frames
    }

    /// Silence begins: this window is silent and the one before was not.
    pub open spec fn falling(self, current: Loudness) -> bool {
        current.below(self.threshold) && !self.silent()
    }

    /// Silence ends: this window is not silent and the one before was.
    pub open spec fn rising(self, current: Loudness) -> bool {
        !current.below(self.threshold) && self.silent()
    }

    /// The state after the window that ends at `frame` came to `measured`.
    ///
    /// A window that failed changes nothing but the place in the stream. Where
    /// silence begins, a stretch is opened at `frame`. Where it ends, the
    /// latest stretch is ended at `frame` and its frames are counted. The
    /// loudness is remembered in either case.
    pub open spec fn observe(self, frame: usize, measured: Measurement) -> TrackerView {
        match measured {
            Measurement::Failed => TrackerView { next_frame: (frame + 1) as usize, ..self },
            Measurement::Reading { short_term, integrated } => TrackerView {
                count: if self.rising(short_term) {
                    (self.count + (frame - self.state.silence_start_frame)) as usize
                } else {
                    self.count
                },
                state: SilenceState {
                    previous_lufs: short_term,
                    silence_start_frame: if self.falling(short_term) {
                        frame
                    } else {
                        self.state.silence_start_frame
                    },
                    silence_end_frame: if self.rising(short_term) {
                        frame
                    } else {
                        self.state.silence_end_frame
                    },
                },
                segments: if self.falling(short_term) {
                    self.segments.push(Segment { start: frame, end: None })
                } else if self.rising(short_term) {
                    close_last(self.segments, frame)
                } else {
                    self.segments
                },
                next_frame: (frame + 1) as usize,
                ..self
            },
        }
    }

    /// What is reported of the window that ends at `frame` and came to `measured`.
    pub open spec fn event(self, frame: usize, measured: Measurement) -> Option<Event> {
        match measured {
            Measurement::Failed => Some(Event::MeasurementFailed { frame }),
            Measurement::Reading { short_term, integrated } => if self.falling(short_term) {
                Some(Event::SilenceStart { frame, short_term, integrated })
            } else if self.rising(short_term) {
                Some(
                    Event::SilenceEnd {
                        frame,
                        short_term,
                        integrated,
                        silent_frames: self.observe(frame, measured).count,
                        total_frames: self.num_frames,
                    },
                )
            } else {
                None
            },
        }
    }

    /// The state after the stream has ended: a silence that lasts is ended at
    /// the end of the stream, as a loud window there would have ended it.
    pub open spec fn finish(self) -> TrackerView {
        if self.silent() {
            TrackerView {
                count: (self.count + (self.num_frames - self.state.silence_start_frame)) as usize,
                state: SilenceState { silence_end_frame: self.num_frames, ..self.state },
                segments: close_last(self.segments, self.num_frames),
                finished: true,
                ..self
            }
        } else {
            TrackerView { finished: true, ..self }
        }
    }

    /// What is reported when the stream ends here, `integrated` being the
    /// integrated loudness that goes into the report.
    pub open spec fn last_event(self, integrated: Loudness) -> Option<Event> {
        if self.silent() {
            Some(
                Event::SilenceEnd {
                    frame: self.num_frames,
                    short_term: self.state.previous_lufs,
                    integrated,
                    silent_frames: self.finish().count,
                    total_frames: self.num_frames,
                },
            )
        } else {
            None
        }
    }

    /// The result bits when the stream ends here: the silence bit if the
    /// silent frames, a silence that lasts to the end included, are at least
    /// `percentage` percent of the stream.
    pub open spec fn verdict(self) -> u8 {
        if ratio_reached(
            self.finish().count as nat,
            self.num_frames as nat,
            self.percentage as nat,
        ) {
            ERR_CONTAINS_SILENCE
        } else {
            0
        }
    }

    /// What goes into the report: one entry for each stretch, oldest first.
    pub open spec fn report(self) -> Seq<SilenceSegment> {
        Seq::new(self.segments.len(), |i: int| segment_report(self.segments[i], self.num_frames))
    }

    /// The invariant of the tracker.
    ///
    /// The stretches lie within the stream, each begins where or after the one
    /// before it ended, and all but the latest have ended. The latest one is
    /// open exactly while the silence lasts. No more silent frames are counted
    /// than the stream has; and in a stream that starts loud, the count is the
    /// number of frames in the stretches that have ended.
    pub open spec fn wf(self) -> bool {
        &&& self.next_frame <= self.num_frames
        &&& self.count <= self.num_frames
        &&& !self.finished && self.silent() ==> self.count <= self.state.silence_start_frame
            <= self.next_frame
        &&& !self.finished && !self.silent() ==> self.count <= self.next_frame
        &&& !self.silent() || self.finished ==> self.state.silence_start_frame
            <= self.state.silence_end_frame
        &&& forall|i: int|
            0 <= i < self.segments.len() ==> {
                &&& (#[trigger] self.segments[i]).start <= self.num_frames
                &&& !self.finished ==> self.segments[i].start < self.next_frame
                &&& self.segments[i].end matches Some(end) ==> {
                    &&& self.segments[i].start <= end <= self.num_frames
                    &&& !self.finished ==> end < self.next_frame
                }
            }
        &&& forall|i: int, j: int|
            0 <= i < j < self.segments.len() ==> {
                &&& (#[trigger] self.segments[i]).end matches Some(end)
                &&& end <= (#[trigger] self.segments[j]).start
            }
        &&& self.segments.len() > 0 && (self.finished || !self.silent())
            ==> self.segments.last().end is Some
        &&& self.segments.len() > 0 && !self.finished && self.silent() ==> {
            &&& self.segments.last().end is None
            &&& self.segments.last().start == self.state.silence_start_frame
        }
        &&& self.starts_loud() ==> {
            &&& self.count == closed_total(self.segments)
            &&& !self.finished && self.silent() ==> self.segments.len() > 0
        }
    }
}

/// The state before the first window keeps the invariant, and is loud
/// exactly when the threshold is not above zero.
pub proof fn lemma_initial_state_is_wf(
    start: TrackerView,
    sample_rate: i32,
    threshold: Loudness,
    percentage: u32,
    num_frames: usize,
)
    requires
        start.is_initial(sample_rate, threshold, percentage, num_frames),
    ensures
        start.wf(),
        !start.finished,
        start.starts_loud() <==> !start.silent(),
{
}

/// A stretch that is opened adds nothing to the frames counted.
pub proof fn lemma_total_after_open(segments: Seq<Segment>, start: usize)
    ensures
        closed_total(segments.push(Segment { start, end: None })) == closed_total(segments),
{
    let opened = segments.push(Segment { start, end: None });
    assert(opened.drop_last() =~= segments);
}

/// Ending the latest stretch, which was open, adds its frames to the frames counted.
pub proof fn lemma_total_after_close(segments: Seq<Segment>, end: usize)
    requires
        segments.len() > 0,
        segments.last().end is None,
        segments.last().start <= end,
    ensures
        closed_total(close_last(segments, end)) == closed_total(segments) + (end
            - segments.last().start),
{
    let closed = close_last(segments, end);
    assert(closed.drop_last() =~= segments.drop_last());
}

/// Every window keeps the invariant.
pub proof fn lemma_observe_keeps_wf(before: TrackerView, frame: usize, measured: Measurement)
    requires
        before.wf(),
        before.accepts(frame),
    ensures
        before.observe(frame, measured).wf(),
{
    let after = before.observe(frame, measured);
    match measured {
        Measurement::Failed => {},
        Measurement::Reading { short_term, integrated } => {
            if before.falling(short_term) {
                lemma_total_after_open(before.segments, frame);
                assert(after.segments.last() == Segment { start: frame, end: None });
                assert forall|i: int, j: int| 0 <= i < j < after.segments.len() implies {
                    &&& (#[trigger] after.segments[i]).end matches Some(end)
                    &&& end <= (#[trigger] after.segments[j]).start
                } by {
                    if j < before.segments.len() {
                        assert(after.segments[i] == before.segments[i]);
                        assert(after.segments[j] == before.segments[j]);
                    } else {
                        assert(after.segments[i] == before.segments[i]);
                        if i < before.segments.len() - 1 {
                            let last = before.segments.len() - 1;
                            assert(before.segments[i].end matches Some(end) && end
                                <= before.segments[last].start);
                        }
                    }
                }
            } else if before.rising(short_term) {
                if before.segments.len() > 0 {
                    lemma_total_after_close(before.segments, frame);
                    let last = before.segments.len() - 1;
                    assert forall|i: int, j: int| 0 <= i < j < after.segments.len() implies {
                        &&& (#[trigger] after.segments[i]).end matches Some(end)
                        &&& end <= (#[trigger] after.segments[j]).start
                    } by {
                        assert(after.segments[i] == before.segments[i]);
                        assert(after.segments[j].start == before.segments[j].start);
                    }
                }
            } else {
            }
        },
    }
}

/// Ending the stream keeps the invariant.
pub proof fn lemma_finish_keeps_wf(before: TrackerView)
    requires
        before.wf(),
        !before.finished,
    ensures
        before.finish().wf(),
        before.finish().finished,
{
    let after = before.finish();
    if before.silent() {
        if before.segments.len() > 0 {
            lemma_total_after_close(before.segments, before.num_frames);
            assert forall|i: int, j: int| 0 <= i < j < after.segments.len() implies {
                &&& (#[trigger] after.segments[i]).end matches Some(end)
                &&& end <= (#[trigger] after.segments[j]).start
            } by {
                assert(after.segments[i] == before.segments[i]);
                assert(after.segments[j].start == before.segments[j].start);
            }
        }
    }
}

/// The state after the windows that end at the frames `frames` came to
/// `readings`, one after the other.
pub open spec fn observed(
    start: TrackerView,
    frames: Seq<usize>,
    readings: Seq<Measurement>,
) -> TrackerView
    decreases frames.len(),
{
    if frames.len() == 0 {
        start
    } else {
        observed(start, frames.drop_last(), readings.drop_last()).observe(
            frames.last(),
            readings.last(),
        )
    }
}

/// Whether windows that end at the frames `frames` can follow on `start`:
/// the frames rise, none lies before the place that `start` has reached, and
/// all lie within the stream.
pub open spec fn in_order(start: TrackerView, frames: Seq<usize>) -> bool {
    &&& forall|i: int|
        0 <= i < frames.len() ==> start.next_frame <= #[trigger] frames[i] < start.num_frames
    &&& forall|i: int, j: int| 0 <= i < j < frames.len() ==> frames[i] < frames[j]
}

/// Any number of windows, taken in order, keep the invariant; the stream is
/// the same afterwards, and not ended.
pub proof fn lemma_windows_keep_wf(
    start: TrackerView,
    frames: Seq<usize>,
    readings: Seq<Measurement>,
)
    requires
        start.wf(),
        !start.finished,
        in_order(start, frames),
        readings.len() == frames.len(),
    ensures
        observed(start, frames, readings).wf(),
        !observed(start, frames, readings).finished,
        observed(start, frames, readings).num_frames == start.num_frames,
        observed(start, frames, readings).threshold == start.threshold,
        observed(start, frames, readings).percentage == start.percentage,
        observed(start, frames, readings).next_frame == (if frames.len() == 0 {
            start.next_frame
        } else {
            (frames.last() + 1) as usize
        }),
    decreases frames.len(),
{
    if frames.len() > 0 {
        let earlier = frames.drop_last();
        assert forall|i: int| 0 <= i < earlier.len() implies start.next_frame
            <= #[trigger] earlier[i] < start.num_frames by {
            assert(earlier[i] == frames[i]);
        }
        lemma_windows_keep_wf(start, earlier, readings.drop_last());
        let before = observed(start, earlier, readings.drop_last());
        if earlier.len() > 0 {
            assert(earlier.last() == frames[frames.len() - 2]);
        }
        lemma_observe_keeps_wf(before, frames.last(), readings.last());
    }
}

/// Whether the stretches have all ended, lie within a stream of `num_frames`
/// frames, and follow one another: each begins where or after the one before
/// it has ended.
pub open spec fn chronological(segments: Seq<Segment>, num_frames: int) -> bool {
    &&& forall|i: int|
        0 <= i < segments.len() ==> {
            &&& (#[trigger] segments[i]).end matches Some(end)
            &&& segments[i].start <= end <= num_frames
        }
    &&& forall|i: int, j: int|
        0 <= i < j < segments.len() ==> (#[trigger] segments[i]).end->0 <= (
        #[trigger] segments[j]).start
}

/// The number of frames of a stream of `num_frames` frames that lie in none
/// of the stretches: those after the latest stretch, and those before it that
/// lie in none of the earlier ones.
pub open spec fn loud_total(segments: Seq<Segment>, num_frames: int) -> int
    decreases segments.len(),
{
    if segments.len() == 0 {
        num_frames
    } else {
        let after = match segments.last().end {
            Some(end) => num_frames - end,
            None => 0,
        };
        loud_total(segments.drop_last(), segments.last().start as int) + after
    }
}

/// Stretches that follow one another divide the stream: every frame lies in
/// exactly one stretch or in none, so the frames in the stretches and the
/// frames in none of them are, together, the frames of the stream.
pub proof fn lemma_stretches_divide_the_stream(segments: Seq<Segment>, num_frames: int)
    requires
        0 <= num_frames,
        chronological(segments, num_frames),
    ensures
        closed_total(segments) + loud_total(segments, num_frames) == num_frames,
        0 <= loud_total(segments, num_frames),
        closed_total(segments) <= num_frames,
    decreases segments.len(),
{
    if segments.len() > 0 {
        let latest = segments.len() - 1;
        let earlier = segments.drop_last();
        let start = segments.last().start as int;
        assert forall|i: int| 0 <= i < earlier.len() implies {
            &&& (#[trigger] earlier[i]).end matches Some(end)
            &&& earlier[i].start <= end <= start
        } by {
            assert(earlier[i] == segments[i]);
            assert(segments[i].end->0 <= segments[latest].start);
        }
        assert forall|i: int, j: int| 0 <= i < j < earlier.len() implies (
        #[trigger] earlier[i]).end->0 <= (#[trigger] earlier[j]).start by {
            assert(earlier[i] == segments[i]);
            assert(earlier[j] == segments[j]);
        }
        lemma_stretches_divide_the_stream(earlier, start);
        assert(segments[latest].end is Some);
    }
}

/// Every silent frame is counted exactly once.
///
/// Take a stream that starts loud, any windows in order, and end the stream.
/// Then every stretch of silence has an end and lies within the stream, each
/// stretch begins where or after the one before it has ended, so that no two
/// share a frame, and the number of silent frames counted is the number of
/// frames in the stretches: those that a loud window ended and the one that
/// the end of the stream ended. With the frames that lie in no stretch they
/// are the frames of the stream.
pub proof fn lemma_silence_is_counted_once(
    start: TrackerView,
    frames: Seq<usize>,
    readings: Seq<Measurement>,
)
    requires
        start.wf(),
        !start.finished,
        start.starts_loud(),
        in_order(start, frames),
        readings.len() == frames.len(),
    ensures
        ({
            let ended = observed(start, frames, readings).finish();
            &&& ended.finished
            &&& chronological(ended.segments, ended.num_frames as int)
            &&& ended.count == closed_total(ended.segments)
            &&& ended.count + loud_total(ended.segments, ended.num_frames as int)
                == ended.num_frames
            &&& ended.count <= ended.num_frames
        }),
{
    lemma_windows_keep_wf(start, frames, readings);
    let last = observed(start, frames, readings);
    lemma_finish_keeps_wf(last);
    let ended = last.finish();
    assert forall|i: int| 0 <= i < ended.segments.len() implies {
        &&& (#[trigger] ended.segments[i]).end matches Some(end)
        &&& ended.segments[i].start <= end <= ended.num_frames
    } by {
        let latest = ended.segments.len() - 1;
        if i < latest {
            assert(ended.segments[i].end is Some && ended.segments[i].end->0
                <= ended.segments[latest].start);
        }
    }
    lemma_stretches_divide_the_stream(ended.segments, ended.num_frames as int);
}

/// A window whose loudness is the threshold itself is not silent: the
/// comparison with the threshold is strict.
pub proof fn lemma_threshold_itself_is_loud(
    before: TrackerView,
    frame: usize,
    integrated: Loudness,
)
    ensures
        !before.observe(
            frame,
            Measurement::Reading { short_term: before.threshold, integrated },
        ).silent(),
        !before.falling(before.threshold),
{
}

/// Keeps the stretches of silence of one stream, from the loudness of its windows.
pub struct SilenceTracker {
    count: usize,
    lufs: Loudness,
    num_frames: usize,
    percentage: u32,
    sample_rate: i32,
    state: SilenceState,
    segments: Vec<Segment>,
    next_frame: usize,
    finished: bool,
}

impl View for SilenceTracker {
    type V = TrackerView;

    closed spec fn view(&self) -> TrackerView {
        TrackerView {
            count: self.count,
            threshold: self.lufs,
            num_frames: self.num_frames,
            percentage: self.percentage,
            sample_rate: self.sample_rate,
            state: self.state,
            segments: self.segments@,
            next_frame: self.next_frame,
            finished: self.finished,
        }
    }
}

impl SilenceTracker {
    /// The invariant of the tracker; see `TrackerView::wf`.
    pub open spec fn wf(&self) -> bool {
        self@.wf()
    }

    /// A tracker for a stream of `num_frames` frames at `sample_rate` frames per
    /// second. A window is silent below `lufs`; the stream fails when
    /// `percentage` percent of its frames are silent.
    pub fn new(sample_rate: i32, lufs: Loudness, percentage: u32, num_frames: usize) -> (made:
        Self)
        ensures
            made.wf(),
            made@.is_initial(sample_rate, lufs, percentage, num_frames),
    {
        SilenceTracker {
            count: 0,
            lufs,
            num_frames,
            percentage,
            sample_rate,
            state: SilenceState::new(),
            segments: Vec::new(),
            next_frame: 0,
            finished: false,
        }
    }

    /// Takes the result of the window that ends at frame `frame_counter`, and
    /// returns what is to be reported of it.
    pub fn observe(&mut self, frame_counter: usize, measured: Measurement) -> (event: Option<
        Event,
    >)
        requires
            old(self).wf(),
            old(self)@.accepts(frame_counter),
        ensures
            final(self).wf(),
            final(self)@ == old(self)@.observe(frame_counter, measured),
            event == old(self)@.event(frame_counter, measured),
    {
        let ghost before = self@;
        proof {
            lemma_observe_keeps_wf(before, frame_counter, measured);
        }
        self.next_frame = frame_counter + 1;
        match measured {
            Measurement::Failed => Some(Event::MeasurementFailed { frame: frame_counter }),
            Measurement::Reading { short_term, integrated } => {
                let now_silent: bool = short_term.is_below(&self.lufs);
                let was_silent: bool = self.state.previous_lufs.is_below(&self.lufs);
                let mut event: Option<Event> = None;
                if now_silent && !was_silent {
                    self.state.silence_start_frame = frame_counter;
                    self.segments.push(Segment { start: frame_counter, end: None });
                    event = Some(
                        Event::SilenceStart { frame: frame_counter, short_term, integrated },
                    );
                }
                if !now_silent && was_silent {
                    self.state.silence_end_frame = frame_counter;
                    self.count = self.count + (frame_counter - self.state.silence_start_frame);
                    let len: usize = self.segments.len();
                    if len > 0 {
                        let latest: Segment = self.segments[len - 1];
                        self.segments.set(
                            len - 1,
                            Segment { start: latest.start, end: Some(frame_counter) },
                        );
                    }
                    event = Some(
                        Event::SilenceEnd {
                            frame: frame_counter,
                            short_term,
                            integrated,
                            silent_frames: self.count,
                            total_frames: self.num_frames,
                        },
                    );
                }
                self.state.previous_lufs = short_term;
                assert(self@.segments =~= before.observe(frame_counter, measured).segments);
                event
            },
        }
    }

    /// Ends the stream. Returns the result bits, and what is to be reported if
    /// the stream ended in silence; `integrated` is the integrated loudness
    /// that goes into that report.
    pub fn finish(&mut self, integrated: Loudness) -> (outcome: (u8, Option<Event>))
        requires
            old(self).wf(),
            !old(self)@.finished,
        ensures
            final(self).wf(),
            final(self)@ == old(self)@.finish(),
            outcome.0 == old(self)@.verdict(),
            outcome.1 == old(self)@.last_event(integrated),
    {
        let ghost before = self@;
        proof {
            lemma_finish_keeps_wf(before);
        }
        let mut event: Option<Event> = None;
        if self.state.previous_lufs.is_below(&self.lufs) {
            self.count = self.count + (self.num_frames - self.state.silence_start_frame);
            self.state.silence_end_frame = self.num_frames;
            let len: usize = self.segments.len();
            if len > 0 {
                let latest: Segment = self.segments[len - 1];
                self.segments.set(
                    len - 1,
                    Segment { start: latest.start, end: Some(self.num_frames) },
                );
            }
            event = Some(
                Event::SilenceEnd {
                    frame: self.num_frames,
                    short_term: self.state.previous_lufs,
                    integrated,
                    silent_frames: self.count,
                    total_frames: self.num_frames,
                },
            );
        }
        self.finished = true;
        assert(self@.segments =~= before.finish().segments);
        let reached: bool = share_reached(self.count, self.num_frames, self.percentage);
        let code: u8 = if reached {
            ERR_CONTAINS_SILENCE
        } else {
            0
        };
        (code, event)
    }

    /// The report of the stretches found, under the name `silence`; none when
    /// there is no stretch.
    pub fn json(&self) -> (fragment: Option<(String, SilenceReport)>)
        requires
            self.wf(),
        ensures
            fragment is None <==> self@.segments.len() == 0,
            fragment matches Some(named) ==> {
                &&& named.0@ == "silence"@
                &&& named.1.results@ == self@.report()
                &&& named.1.threshold == self@.threshold
                &&& named.1.sample_rate == self@.sample_rate
            },
    {
        if self.segments.len() == 0 {
            return None;
        }
        let mut results: Vec<SilenceSegment> = Vec::new();
        let len: usize = self.segments.len();
        let mut i: usize = 0;
        while i < len
            invariant
                i <= len,
                len == self.segments@.len(),
                self.wf(),
                results@ =~= Seq::new(
                    i as nat,
                    |k: int| segment_report(self.segments@[k], self.num_frames),
                ),
            decreases len - i,
        {
            let segment: Segment = self.segments[i];
            assert(segment == self@.segments[i as int]);
            let end: usize = match segment.end {
                Some(end) => end,
                None => self.num_frames,
            };
            results.push(
                SilenceSegment {
                    start_sample: segment.start,
                    end_sample: end,
                    duration_samples: end - segment.start,
                },
            );
            i = i + 1;
        }
        let report = SilenceReport {
            results,
            threshold: self.lufs,
            sample_rate: self.sample_rate,
        };
        Some(("silence".to_owned(), report))
    }

    /// Whether a window that ends at frame `frame_counter` may be handed over next.
    pub fn can_observe(&self, frame_counter: usize) -> (ok: bool)
        ensures
            ok == self@.accepts(frame_counter),
    {
        !self.finished && self.next_frame <= frame_counter && frame_counter < self.num_frames
    }

    /// Silent frames counted so far.
    pub fn silent_frames(&self) -> (count: usize)
        ensures
            count == self@.count,
    {
        self.count
    }

    /// One more than the frame of the latest window; 0 before the first.
    pub fn next_frame(&self) -> (frame: usize)
        ensures
            frame == self@.next_frame,
    {
        self.next_frame
    }

    /// Number of frames in the whole stream.
    pub fn num_frames(&self) -> (frames: usize)
        ensures
            frames == self@.num_frames,
    {
        self.num_frames
    }

    /// Whether the stream has ended.
    pub fn is_finished(&self) -> (finished: bool)
        ensures
            finished == self@.finished,
    {
        self.finished
    }

    /// The stretches of silence found so far, oldest first.
    pub fn segments(&self) -> (segments: &Vec<Segment>)
        ensures
            segments@ == self@.segments,
    {
        &self.segments
    }

    /// Loudness of the latest window, and where the latest stretch began and ended.
    pub fn state(&self) -> (state: SilenceState)
        ensures
            state == self@.state,
    {
        self.state
    }
}

/// Whether `silent` frames out of `total` are at least `percentage` percent.
pub fn share_reached(silent: usize, total: usize, percentage: u32) -> (reached: bool)
    ensures
        reached == ratio_reached(silent as nat, total as nat, percentage as nat),
{
    if total == 0 {
        return false;
    }
    assert(percentage * total <= 0xffff_ffff * 0xffff_ffff_ffff_ffff) by (nonlinear_arith)
        requires
            0 <= percentage <= 0xffff_ffff,
            0 <= total <= 0xffff_ffff_ffff_ffff,
    ;
    let scaled: u128 = (silent as u128) * 100;
    let needed: u128 = (percentage as u128) * (total as u128);
    scaled >= needed
}

} // verus!
