//! Underruns: runs of samples that are exactly zero, channel by channel.

use vstd::prelude::*;
use crate::analysers::{Analyser, Event};
use crate::json::SilenceReport;
use crate::states::DetectorState;
use crate::ERR_CONTAINS_UNDERRUN;

verus! {

/// The state of an [`UnderrunAnalyser`] as a mathematical value.
pub struct UnderrunView {
    /// Whether a run of at least `samples` zeros has ended so far.
    pub contains_underrun: bool,
    /// Number of frames in the whole stream.
    pub num_frames: usize,
    /// The open run of each channel.
    pub states: Seq<DetectorState>,
    /// Frames per second.
    pub sample_rate: i32,
    /// The least length of a run that is reported.
    pub samples: usize,
    /// One more than the index of the latest frame taken; 0 before the first.
    pub next_frame: usize,
}

/// The run of a channel after the sample `sample` of frame `frame`: a zero
/// extends the run if the frame before held a zero too and begins a new one
/// otherwise; any other sample ends the run.
pub open spec fn channel_step(state: DetectorState, frame: usize, sample: i32) -> DetectorState {
    if sample == 0 {
        DetectorState {
            underrun_count: if frame - state.underrun_prev_index > 1 {
                1usize
            } else {
                (state.underrun_count + 1) as usize
            },
            underrun_prev_index: frame,
        }
    } else {
        DetectorState { underrun_count: 0, underrun_prev_index: state.underrun_prev_index }
    }
}

/// The report of a run of `length` zeros on `channel` that ended before frame `end`.
pub open spec fn underrun_event(channel: int, length: usize, end: usize) -> Event {
    Event::Underrun { channel: channel as usize, start: (end - length) as usize, end }
}

/// The reports that frame `frame` gives rise to on the channels before
/// `upto`, in channel order: one for each channel whose sample is not zero and
/// ends a run of at least `threshold` zeros.
pub open spec fn frame_events(
    states: Seq<DetectorState>,
    threshold: usize,
    frame: usize,
    samples: Seq<i32>,
    upto: nat,
) -> Seq<Event>
    decreases upto,
{
    if upto == 0 {
        Seq::empty()
    } else {
        let channel = upto - 1;
        let earlier = frame_events(states, threshold, frame, samples, channel as nat);
        if samples[channel] != 0 && states[channel].underrun_count >= threshold {
            earlier.push(underrun_event(channel, states[channel].underrun_count, frame))
        } else {
            earlier
        }
    }
}

/// The reports at the end of a stream of `num_frames` frames for the channels
/// before `upto`, in channel order: one for each channel whose open run has at
/// least `threshold` zeros.
pub open spec fn closing_events(
    states: Seq<DetectorState>,
    threshold: usize,
    num_frames: usize,
    upto: nat,
) -> Seq<Event>
    decreases upto,
{
    if upto == 0 {
        Seq::empty()
    } else {
        let channel = upto - 1;
        let earlier = closing_events(states, threshold, num_frames, channel as nat);
        if states[channel].underrun_count >= threshold {
            earlier.push(underrun_event(channel, states[channel].underrun_count, num_frames))
        } else {
            earlier
        }
    }
}

impl UnderrunView {
    /// No run is longer than the stream taken so far, and a run that is open
    /// ends at the latest frame.
    pub open spec fn wf(self) -> bool {
        &&& self.next_frame <= self.num_frames
        &&& forall|c: int|
            0 <= c < self.states.len() ==> {
                &&& (#[trigger] self.states[c]).underrun_count <= self.next_frame
                &&& self.states[c].underrun_prev_index <= self.next_frame
                &&& self.states[c].underrun_count > 0 ==> self.states[c].underrun_prev_index + 1
                    == self.next_frame
            }
    }

    /// Frames come in order and within the stream, one sample for each channel.
    pub open spec fn accepts(self, frame: usize, samples: Seq<i32>) -> bool {
        &&& self.next_frame <= frame < self.num_frames
        &&& samples.len() == self.states.len()
    }

    /// What frame `frame` with the samples `samples` is reported to hold.
    pub open spec fn events(self, frame: usize, samples: Seq<i32>) -> Seq<Event> {
        frame_events(self.states, self.samples, frame, samples, self.states.len())
    }

    /// The state after frame `frame` with the samples `samples`.
    pub open spec fn step(self, frame: usize, samples: Seq<i32>) -> UnderrunView {
        UnderrunView {
            contains_underrun: self.contains_underrun || self.events(frame, samples).len() > 0,
            states: Seq::new(
                self.states.len(),
                |c: int| channel_step(self.states[c], frame, samples[c]),
            ),
            next_frame: (frame + 1) as usize,
            ..self
        }
    }

    /// What is reported when the stream ends here.
    pub open spec fn last_events(self) -> Seq<Event> {
        closing_events(self.states, self.samples, self.num_frames, self.states.len())
    }

    /// The result bits when the stream ends here: the underrun bit if a run of
    /// at least `samples` zeros has ended before or is open now.
    pub open spec fn verdict(self) -> u8 {
        if self.contains_underrun || self.last_events().len() > 0 {
            ERR_CONTAINS_UNDERRUN
        } else {
            0
        }
    }
}

/// The number of frames at the end of `frames` that hold a zero on channel
/// `channel`, one after the other.
pub open spec fn trailing_zeros(frames: Seq<Seq<i32>>, channel: int) -> nat
    decreases frames.len(),
{
    if frames.len() == 0 || frames.last()[channel] != 0 {
        0
    } else {
        1 + trailing_zeros(frames.drop_last(), channel)
    }
}

/// Whether every frame of `frames` has `channels` samples.
pub open spec fn all_of_width(frames: Seq<Seq<i32>>, channels: nat) -> bool {
    forall|i: int| 0 <= i < frames.len() ==> (#[trigger] frames[i]).len() == channels
}

impl UnderrunView {
    /// The state after the frames `frames`, taken one after the other without
    /// a gap.
    pub open spec fn fed(self, frames: Seq<Seq<i32>>) -> UnderrunView
        decreases frames.len(),
    {
        if frames.len() == 0 {
            self
        } else {
            let before = self.fed(frames.drop_last());
            before.step(before.next_frame, frames.last())
        }
    }

    /// Whether no frame has been taken yet.
    pub open spec fn fresh(self) -> bool {
        &&& self.next_frame == 0
        &&& !self.contains_underrun
    }
}

/// The state before the first frame keeps the invariant, and no frame has
/// been taken in it.
pub proof fn lemma_initial_state_is_wf(
    channels: u16,
    sample_rate: i32,
    num_frames: usize,
    samples: usize,
)
    ensures
        UnderrunAnalyser::initial(channels, sample_rate, num_frames, samples).wf(),
        UnderrunAnalyser::initial(channels, sample_rate, num_frames, samples).fresh(),
        UnderrunAnalyser::initial(channels, sample_rate, num_frames, samples).states.len()
            == channels,
{
}

/// Every frame keeps the invariant.
pub proof fn lemma_step_keeps_wf(before: UnderrunView, frame: usize, samples: Seq<i32>)
    requires
        before.wf(),
        before.accepts(frame, samples),
    ensures
        before.step(frame, samples).wf(),
{
    let after = before.step(frame, samples);
    assert forall|c: int| 0 <= c < after.states.len() implies {
        &&& (#[trigger] after.states[c]).underrun_count <= after.next_frame
        &&& after.states[c].underrun_prev_index <= after.next_frame
        &&& after.states[c].underrun_count > 0 ==> after.states[c].underrun_prev_index + 1
            == after.next_frame
    } by {
        assert(after.states[c] == channel_step(before.states[c], frame, samples[c]));
    }
}

/// The zeros that `trailing_zeros` counts are a whole run: they are the last
/// frames, all of them hold a zero on the channel, and the frame before them,
/// if there is one, does not.
pub proof fn lemma_trailing_zeros_are_a_run(frames: Seq<Seq<i32>>, channel: int)
    ensures
        trailing_zeros(frames, channel) <= frames.len(),
        forall|i: int|
            frames.len() - trailing_zeros(frames, channel) <= i < frames.len() ==> (
            #[trigger] frames[i])[channel] == 0,
        trailing_zeros(frames, channel) < frames.len() ==> frames[frames.len()
            - trailing_zeros(frames, channel) - 1][channel] != 0,
    decreases frames.len(),
{
    if frames.len() > 0 && frames.last()[channel] == 0 {
        let earlier = frames.drop_last();
        lemma_trailing_zeros_are_a_run(earlier, channel);
        assert forall|i: int|
            frames.len() - trailing_zeros(frames, channel) <= i < frames.len() implies (
        #[trigger] frames[i])[channel] == 0 by {
            if i < earlier.len() {
                assert(earlier[i] == frames[i]);
            }
        }
        if trailing_zeros(frames, channel) < frames.len() {
            assert(earlier[earlier.len() - trailing_zeros(earlier, channel) - 1] == frames[
                frames.len() - trailing_zeros(frames, channel) - 1
            ]);
        }
    }
}

/// The run that the analyser keeps for a channel is the run of zeros at the
/// end of the frames taken: after the frames `frames` of a stream, taken from
/// its beginning, the length kept is the number of zeros that end them.
pub proof fn lemma_count_is_trailing_zeros(start: UnderrunView, frames: Seq<Seq<i32>>)
    requires
        start.wf(),
        start.fresh(),
        frames.len() <= start.num_frames,
        all_of_width(frames, start.states.len()),
    ensures
        start.fed(frames).wf(),
        start.fed(frames).next_frame == frames.len(),
        start.fed(frames).num_frames == start.num_frames,
        start.fed(frames).samples == start.samples,
        start.fed(frames).states.len() == start.states.len(),
        forall|c: int|
            0 <= c < start.states.len() ==> (#[trigger] start.fed(frames).states[c]).underrun_count
                == trailing_zeros(frames, c),
    decreases frames.len(),
{
    if frames.len() == 0 {
        assert forall|c: int| 0 <= c < start.states.len() implies (
        #[trigger] start.fed(frames).states[c]).underrun_count == trailing_zeros(frames, c) by {
            assert(start.states[c].underrun_count <= start.next_frame);
        }
    } else {
        let earlier = frames.drop_last();
        assert forall|i: int| 0 <= i < earlier.len() implies (#[trigger] earlier[i]).len()
            == start.states.len() by {
            assert(earlier[i] == frames[i]);
        }
        lemma_count_is_trailing_zeros(start, earlier);
        let before = start.fed(earlier);
        assert(frames.last() == frames[frames.len() - 1]);
        lemma_step_keeps_wf(before, before.next_frame, frames.last());
        let after = start.fed(frames);
        assert forall|c: int| 0 <= c < start.states.len() implies (
        #[trigger] after.states[c]).underrun_count == trailing_zeros(frames, c) by {
            assert(after.states[c] == channel_step(
                before.states[c],
                before.next_frame,
                frames.last()[c],
            ));
            assert(before.states[c].underrun_count == trailing_zeros(earlier, c));
        }
    }
}

/// What a list of reports says of one channel: the reports are underruns, on
/// channels that rise along the list, so that no channel has two.
pub open spec fn one_per_channel(events: Seq<Event>, channels: nat) -> bool {
    &&& forall|k: int|
        0 <= k < events.len() ==> (#[trigger] events[k]) is Underrun && events[k]->channel
            < channels
    &&& forall|k: int, l: int|
        0 <= k < l < events.len() ==> (#[trigger] events[k])->channel < (
        #[trigger] events[l])->channel
}

/// At the end of the stream there is one report for each channel whose open
/// run is long enough, and none for any other: the list holds exactly the
/// reports of those runs, each from where its run began to the end of the
/// stream, and no channel twice.
pub proof fn lemma_closing_events(
    states: Seq<DetectorState>,
    threshold: usize,
    num_frames: usize,
    upto: nat,
)
    requires
        upto <= states.len(),
        upto <= usize::MAX,
    ensures
        one_per_channel(closing_events(states, threshold, num_frames, upto), upto),
        forall|k: int|
            0 <= k < closing_events(states, threshold, num_frames, upto).len() ==> {
                let event = #[trigger] closing_events(states, threshold, num_frames, upto)[k];
                &&& states[event->channel as int].underrun_count >= threshold
                &&& event == underrun_event(
                    event->channel as int,
                    states[event->channel as int].underrun_count,
                    num_frames,
                )
            },
        forall|c: int|
            0 <= c < upto && (#[trigger] states[c]).underrun_count >= threshold ==> closing_events(
                states,
                threshold,
                num_frames,
                upto,
            ).contains(underrun_event(c, states[c].underrun_count, num_frames)),
    decreases upto,
{
    if upto > 0 {
        let channel = (upto - 1) as nat;
        let earlier = closing_events(states, threshold, num_frames, channel);
        let all = closing_events(states, threshold, num_frames, upto);
        lemma_closing_events(states, threshold, num_frames, channel);
        if states[channel as int].underrun_count >= threshold {
            let added = underrun_event(
                channel as int,
                states[channel as int].underrun_count,
                num_frames,
            );
            assert(all == earlier.push(added));
            assert(all[all.len() - 1] == added);
            assert forall|c: int|
                0 <= c < upto && (#[trigger] states[c]).underrun_count
                    >= threshold implies all.contains(
                underrun_event(c, states[c].underrun_count, num_frames),
            ) by {
                if c < channel {
                    let wanted = underrun_event(c, states[c].underrun_count, num_frames);
                    assert(earlier.contains(wanted));
                    let k = choose|k: int| 0 <= k < earlier.len() && earlier[k] == wanted;
                    assert(all[k] == wanted);
                }
            }
            assert forall|k: int, l: int| 0 <= k < l < all.len() implies (
            #[trigger] all[k])->channel < (#[trigger] all[l])->channel by {
                assert(all[k] == earlier[k]);
                if l < earlier.len() {
                    assert(all[l] == earlier[l]);
                }
            }
        }
    }
}

/// A frame is reported for each channel on which it ends a run that is long
/// enough, and for no other: the list holds exactly the reports of those runs,
/// each from where its run began to this frame, and no channel twice.
pub proof fn lemma_frame_events(
    states: Seq<DetectorState>,
    threshold: usize,
    frame: usize,
    samples: Seq<i32>,
    upto: nat,
)
    requires
        upto <= states.len(),
        upto <= usize::MAX,
        samples.len() == states.len(),
    ensures
        one_per_channel(frame_events(states, threshold, frame, samples, upto), upto),
        forall|k: int|
            0 <= k < frame_events(states, threshold, frame, samples, upto).len() ==> {
                let event = #[trigger] frame_events(states, threshold, frame, samples, upto)[k];
                &&& samples[event->channel as int] != 0
                &&& states[event->channel as int].underrun_count >= threshold
                &&& event == underrun_event(
                    event->channel as int,
                    states[event->channel as int].underrun_count,
                    frame,
                )
            },
        forall|c: int|
            0 <= c < upto && samples[c] != 0 && (#[trigger] states[c]).underrun_count
                >= threshold ==> frame_events(states, threshold, frame, samples, upto).contains(
                underrun_event(c, states[c].underrun_count, frame),
            ),
    decreases upto,
{
    if upto > 0 {
        let channel = (upto - 1) as nat;
        let earlier = frame_events(states, threshold, frame, samples, channel);
        let all = frame_events(states, threshold, frame, samples, upto);
        lemma_frame_events(states, threshold, frame, samples, channel);
        if samples[channel as int] != 0 && states[channel as int].underrun_count >= threshold {
            let added = underrun_event(
                channel as int,
                states[channel as int].underrun_count,
                frame,
            );
            assert(all == earlier.push(added));
            assert(all[all.len() - 1] == added);
            assert forall|c: int|
                0 <= c < upto && samples[c] != 0 && (#[trigger] states[c]).underrun_count
                    >= threshold implies all.contains(
                underrun_event(c, states[c].underrun_count, frame),
            ) by {
                if c < channel {
                    let wanted = underrun_event(c, states[c].underrun_count, frame);
                    assert(earlier.contains(wanted));
                    let k = choose|k: int| 0 <= k < earlier.len() && earlier[k] == wanted;
                    assert(all[k] == wanted);
                }
            }
            assert forall|k: int, l: int| 0 <= k < l < all.len() implies (
            #[trigger] all[k])->channel < (#[trigger] all[l])->channel by {
                assert(all[k] == earlier[k]);
                if l < earlier.len() {
                    assert(all[l] == earlier[l]);
                }
            }
        }
    }
}

/// Every underrun that is reported within a stream is a whole run of zeros.
///
/// Take the frames `frames` of a stream from its beginning, and `next` as the
/// frame that follows them. What is reported of `next` are underruns that end
/// at `next`, on channels where `next` holds no zero; each begins where the
/// zeros that end `frames` begin on its channel, and these are at least
/// `samples` many. So a report covers a run of zeros from its first to its
/// last, and no zero is reported twice.
pub proof fn lemma_reported_underrun_is_a_whole_run(
    start: UnderrunView,
    frames: Seq<Seq<i32>>,
    next: Seq<i32>,
)
    requires
        start.wf(),
        start.fresh(),
        frames.len() < start.num_frames,
        start.states.len() <= usize::MAX,
        all_of_width(frames, start.states.len()),
        next.len() == start.states.len(),
    ensures
        start.fed(frames).accepts(frames.len() as usize, next),
        one_per_channel(
            start.fed(frames).events(frames.len() as usize, next),
            start.states.len(),
        ),
        forall|k: int|
            0 <= k < start.fed(frames).events(frames.len() as usize, next).len() ==> {
                let event = #[trigger] start.fed(frames).events(frames.len() as usize, next)[k];
                let run = trailing_zeros(frames, event->channel as int);
                &&& next[event->channel as int] != 0
                &&& run >= start.samples
                &&& run <= frames.len()
                &&& event->start == frames.len() - run
                &&& event->end == frames.len()
            },
{
    lemma_count_is_trailing_zeros(start, frames);
    let before = start.fed(frames);
    let frame = frames.len() as usize;
    lemma_frame_events(before.states, before.samples, frame, next, before.states.len());
    assert forall|k: int| 0 <= k < before.events(frame, next).len() implies {
        let event = #[trigger] before.events(frame, next)[k];
        let run = trailing_zeros(frames, event->channel as int);
        &&& next[event->channel as int] != 0
        &&& run >= start.samples
        &&& run <= frames.len()
        &&& event->start == frames.len() - run
        &&& event->end == frames.len()
    } by {
        let event = before.events(frame, next)[k];
        let channel = event->channel as int;
        lemma_trailing_zeros_are_a_run(frames, channel);
        assert(before.states[channel].underrun_count == trailing_zeros(frames, channel));
    }
}

/// A run of zeros that lasts to the end of the stream is reported once, at
/// the end, if it is long enough, and not at all if it is not.
///
/// Take all the frames `frames` of a stream. For a channel on which they end
/// in at least `samples` zeros, the reports at the end hold the underrun from
/// the first of these zeros to the end of the stream, and hold nothing else
/// for that channel. For a channel on which they end in fewer zeros, the
/// reports at the end hold nothing.
pub proof fn lemma_open_run_is_reported_at_the_end(
    start: UnderrunView,
    frames: Seq<Seq<i32>>,
    channel: int,
)
    requires
        start.wf(),
        start.fresh(),
        frames.len() == start.num_frames,
        start.states.len() <= usize::MAX,
        all_of_width(frames, start.states.len()),
        0 <= channel < start.states.len(),
    ensures
        one_per_channel(start.fed(frames).last_events(), start.states.len()),
        trailing_zeros(frames, channel) <= frames.len(),
        trailing_zeros(frames, channel) >= start.samples ==> start.fed(
            frames,
        ).last_events().contains(
            Event::Underrun {
                channel: channel as usize,
                start: (frames.len() - trailing_zeros(frames, channel)) as usize,
                end: frames.len() as usize,
            },
        ),
        trailing_zeros(frames, channel) < start.samples ==> forall|k: int|
            0 <= k < start.fed(frames).last_events().len() ==> (#[trigger] start.fed(
                frames,
            ).last_events()[k])->channel != channel,
{
    lemma_count_is_trailing_zeros(start, frames);
    lemma_trailing_zeros_are_a_run(frames, channel);
    let last = start.fed(frames);
    lemma_closing_events(last.states, last.samples, last.num_frames, last.states.len());
    assert(last.states[channel].underrun_count == trailing_zeros(frames, channel));
}

/// The underrun bit says whether an underrun was reported: at the end of a
/// stream it is set if a run that is long enough has ended within the stream
/// or is open at its end, and is not set otherwise.
pub proof fn lemma_underrun_bit(last: UnderrunView)
    requires
        last.states.len() <= usize::MAX,
    ensures
        last.verdict() == ERR_CONTAINS_UNDERRUN <==> last.contains_underrun || exists|c: int|
            0 <= c < last.states.len() && (#[trigger] last.states[c]).underrun_count
                >= last.samples,
        last.verdict() == 0 || last.verdict() == ERR_CONTAINS_UNDERRUN,
{
    lemma_closing_events(last.states, last.samples, last.num_frames, last.states.len());
    let events = last.last_events();
    if events.len() > 0 {
        let c = events[0]->channel as int;
        assert(last.states[c].underrun_count >= last.samples);
    }
    if exists|c: int|
        0 <= c < last.states.len() && (#[trigger] last.states[c]).underrun_count >= last.samples {
        let c = choose|c: int|
            0 <= c < last.states.len() && (#[trigger] last.states[c]).underrun_count
                >= last.samples;
        assert(events.contains(underrun_event(c, last.states[c].underrun_count, last.num_frames)));
    }
}

/// Finds, on every channel, the runs of at least `samples` consecutive zero
/// samples.
pub struct UnderrunAnalyser {
    contains_underrun: bool,
    num_frames: usize,
    states: Vec<DetectorState>,
    sample_rate: i32,
    samples: usize,
    next_frame: usize,
}

impl View for UnderrunAnalyser {
    type V = UnderrunView;

    closed spec fn view(&self) -> UnderrunView {
        UnderrunView {
            contains_underrun: self.contains_underrun,
            num_frames: self.num_frames,
            states: self.states@,
            sample_rate: self.sample_rate,
            samples: self.samples,
            next_frame: self.next_frame,
        }
    }
}

impl UnderrunAnalyser {
    /// The state before the first frame: no run on any channel.
    pub open spec fn initial(
        channels: u16,
        sample_rate: i32,
        num_frames: usize,
        samples: usize,
    ) -> UnderrunView {
        UnderrunView {
            contains_underrun: false,
            num_frames,
            states: Seq::new(
                channels as nat,
                |c: int| DetectorState { underrun_count: 0, underrun_prev_index: 0 },
            ),
            sample_rate,
            samples,
            next_frame: 0,
        }
    }

    /// An analyser for a stream of `num_frames` frames of `channels` channels
    /// each, at `sample_rate` frames per second, that reports runs of at least
    /// `samples` zeros.
    pub fn new(channels: u16, sample_rate: i32, num_frames: usize, samples: usize) -> (made: Self)
        ensures
            made.wf(),
            made@ == Self::initial(channels, sample_rate, num_frames, samples),
    {
        let mut states: Vec<DetectorState> = Vec::new();
        let mut made: u16 = 0;
        while made < channels
            invariant
                made <= channels,
                states@ =~= Seq::new(
                    made as nat,
                    |c: int| DetectorState { underrun_count: 0, underrun_prev_index: 0 },
                ),
            decreases channels - made,
        {
            states.push(DetectorState { underrun_count: 0, underrun_prev_index: 0 });
            made = made + 1;
        }
        UnderrunAnalyser {
            contains_underrun: false,
            num_frames,
            states,
            sample_rate,
            samples,
            next_frame: 0,
        }
    }

    /// Whether the frame with index `frame_counter` and samples `frame` may be
    /// handed over next.
    pub fn can_take(&self, frame_counter: usize, frame: &[i32]) -> (ok: bool)
        ensures
            ok == self@.accepts(frame_counter, frame@),
    {
        self.next_frame <= frame_counter && frame_counter < self.num_frames && frame.len()
            == self.states.len()
    }

    /// The index that the next frame must have at least.
    pub fn next_frame(&self) -> (frame: usize)
        ensures
            frame == self@.next_frame,
    {
        self.next_frame
    }

    /// Number of frames in the whole stream.
    pub fn num_frames(&self) -> (frames: usize)
        ensures
            frames == self@.num_frames,
    {
        self.num_frames
    }

    /// Frames per second.
    pub fn sample_rate(&self) -> (rate: i32)
        ensures
            rate == self@.sample_rate,
    {
        self.sample_rate
    }

    /// The open run of each channel.
    pub fn states(&self) -> (states: &Vec<DetectorState>)
        ensures
            states@ == self@.states,
    {
        &self.states
    }
}

impl Analyser for UnderrunAnalyser {
    open spec fn wf(&self) -> bool {
        self@.wf()
    }

    open spec fn accepts(&self, frame_counter: usize, frame: Seq<i32>) -> bool {
        self@.accepts(frame_counter, frame)
    }

    open spec fn may_finish(&self) -> bool {
        true
    }

    open spec fn verdict(&self) -> u8 {
        self@.verdict()
    }

    open spec fn has_findings(&self) -> bool {
        false
    }

    fn analyse(&mut self, frame_counter: usize, frame: &[i32]) -> (events: Vec<Event>)
        ensures
            final(self)@ == old(self)@.step(frame_counter, frame@),
            events@ == old(self)@.events(frame_counter, frame@),
    {
        let ghost before = self@;
        let mut events: Vec<Event> = Vec::new();
        let channels: usize = self.states.len();
        let mut channel: usize = 0;
        while channel < channels
            invariant
                channel <= channels,
                channels == before.states.len(),
                frame@.len() == channels,
                before.wf(),
                before.next_frame <= frame_counter < before.num_frames,
                self.num_frames == before.num_frames,
                self.sample_rate == before.sample_rate,
                self.samples == before.samples,
                self.next_frame == before.next_frame,
                self.states@.len() == channels,
                forall|c: int|
                    0 <= c < channel ==> self.states@[c] == channel_step(
                        before.states[c],
                        frame_counter,
                        frame@[c],
                    ),
                forall|c: int| channel <= c < channels ==> self.states@[c] == before.states[c],
                events@ == frame_events(
                    before.states,
                    before.samples,
                    frame_counter,
                    frame@,
                    channel as nat,
                ),
                self.contains_underrun == (before.contains_underrun || events@.len() > 0),
            decreases channels - channel,
        {
            let state: DetectorState = self.states[channel];
            assert(state == before.states[channel as int]);
            if frame[channel] == 0 {
                let count: usize = if frame_counter - state.underrun_prev_index > 1 {
                    1
                } else {
                    state.underrun_count + 1
                };
                self.states.set(
                    channel,
                    DetectorState { underrun_count: count, underrun_prev_index: frame_counter },
                );
            } else {
                if state.underrun_count >= self.samples {
                    self.contains_underrun = true;
                    events.push(
                        Event::Underrun {
                            channel,
                            start: frame_counter - state.underrun_count,
                            end: frame_counter,
                        },
                    );
                }
                self.states.set(
                    channel,
                    DetectorState {
                        underrun_count: 0,
                        underrun_prev_index: state.underrun_prev_index,
                    },
                );
            }
            channel = channel + 1;
        }
        self.next_frame = frame_counter + 1;
        assert(self@.states =~= before.step(frame_counter, frame@).states);
        events
    }

    fn finish(&mut self) -> (outcome: (u8, Vec<Event>))
        ensures
            final(self)@ == old(self)@,
            outcome.1@ == old(self)@.last_events(),
    {
        let mut events: Vec<Event> = Vec::new();
        let channels: usize = self.states.len();
        let mut channel: usize = 0;
        while channel < channels
            invariant
                channel <= channels,
                channels == self.states@.len(),
                self@.wf(),
                self@ == old(self)@,
                events@ == closing_events(
                    self.states@,
                    self.samples,
                    self.num_frames,
                    channel as nat,
                ),
            decreases channels - channel,
        {
            let state: DetectorState = self.states[channel];
            assert(state == self@.states[channel as int]);
            if state.underrun_count >= self.samples {
                events.push(
                    Event::Underrun {
                        channel,
                        start: self.num_frames - state.underrun_count,
                        end: self.num_frames,
                    },
                );
            }
            channel = channel + 1;
        }
        let code: u8 = if self.contains_underrun || events.len() > 0 {
            ERR_CONTAINS_UNDERRUN
        } else {
            0
        };
        (code, events)
    }

    /// Underruns are reported as events only: they have no part in the report.
    fn json(&self) -> (fragment: Option<(String, SilenceReport)>) {
        None
    }
}

} // verus!
