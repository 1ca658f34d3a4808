//! The pass over a stream: every frame goes to every analyser that is
//! switched on, in order, and their results are put together at the end.

use vstd::prelude::*;
use crate::analysers::silence::{listed, AnalyserView, SilenceAnalyser};
use crate::analysers::underruns::{
    all_of_width, lemma_count_is_trailing_zeros, UnderrunAnalyser, UnderrunView,
};
use crate::analysers::{Analyser, Event};
use crate::json::SilenceReport;
use crate::loudness::Loudness;
use crate::meter::{meter_accepts, Measurement};
use crate::{ERR_CONTAINS_SILENCE, ERR_CONTAINS_UNDERRUN};

verus! {

/// What is to be looked for, and how strictly.
#[derive(Debug, Clone, Copy, PartialEq, Eq)]
pub struct Config {
    /// Whether silence is looked for.
    pub silence: bool,
    /// A window is silent when its loudness is below this.
    pub lufs: Loudness,
    /// The share of silent frames, in percent, from which the stream fails.
    pub silence_percentage: u32,
    /// Whether underruns are looked for.
    pub underrun: bool,
    /// The least number of consecutive zero samples that make an underrun.
    pub samples: usize,
}

/// Why no pass can be made.
#[derive(Debug, Clone, Copy, PartialEq, Eq)]
pub enum PipelineError {
    /// Neither silence nor underruns are looked for.
    NothingEnabled,
    /// The loudness meter cannot be set up for the channel count and sample rate.
    MeterUnavailable,
}

/// The state of a [`Pipeline`] as a mathematical value: the state of each
/// analyser that is switched on.
pub struct PipelineView {
    pub silence: Option<AnalyserView>,
    pub underrun: Option<UnderrunView>,
}

impl PipelineView {
    /// Whether every analyser takes the frame.
    pub open spec fn accepts(self, frame: usize, samples: Seq<i32>) -> bool {
        &&& self.silence matches Some(silence) ==> silence.accepts(frame, samples)
        &&& self.underrun matches Some(underrun) ==> underrun.accepts(frame, samples)
    }

    /// The state after frame `frame` with the samples `samples`, where
    /// `measured` is what the window of the silence analyser comes to if the
    /// frame fills it.
    pub open spec fn step(
        self,
        frame: usize,
        samples: Seq<i32>,
        measured: Measurement,
    ) -> PipelineView {
        PipelineView {
            silence: match self.silence {
                Some(silence) => Some(silence.step(frame, samples, measured)),
                None => None,
            },
            underrun: match self.underrun {
                Some(underrun) => Some(underrun.step(frame, samples)),
                None => None,
            },
        }
    }

    /// What is reported of the frame: what the silence analyser reports, then
    /// what the underrun analyser reports.
    pub open spec fn events(
        self,
        frame: usize,
        samples: Seq<i32>,
        measured: Measurement,
    ) -> Seq<Event> {
        let silence = match self.silence {
            Some(silence) => silence.events(frame, samples, measured),
            None => Seq::empty(),
        };
        let underrun = match self.underrun {
            Some(underrun) => underrun.events(frame, samples),
            None => Seq::empty(),
        };
        silence + underrun
    }

    /// Whether the stream has not been ended yet.
    pub open spec fn may_finish(self) -> bool {
        self.silence matches Some(silence) ==> !silence.tracker.finished
    }

    /// The state after the stream has ended.
    pub open spec fn finish(self) -> PipelineView {
        PipelineView {
            silence: match self.silence {
                Some(silence) => Some(silence.finish()),
                None => None,
            },
            underrun: self.underrun,
        }
    }

    /// The result bits of the silence analyser when the stream ends here; 0
    /// when it is switched off.
    pub open spec fn silence_verdict(self) -> u8 {
        match self.silence {
            Some(silence) => silence.tracker.verdict(),
            None => 0,
        }
    }

    /// The result bits of the underrun analyser when the stream ends here; 0
    /// when it is switched off.
    pub open spec fn underrun_verdict(self) -> u8 {
        match self.underrun {
            Some(underrun) => underrun.verdict(),
            None => 0,
        }
    }

    /// The result bits when the stream ends here: the bits of all analysers.
    pub open spec fn verdict(self) -> u8 {
        self.silence_verdict() | self.underrun_verdict()
    }

    /// What is reported when the stream ends here, `integrated` being the
    /// integrated loudness that goes into the report: what the silence
    /// analyser reports, then what the underrun analyser reports.
    pub open spec fn last_events(self, integrated: Loudness) -> Seq<Event> {
        let silence = match self.silence {
            Some(silence) => listed(silence.tracker.last_event(integrated)),
            None => Seq::empty(),
        };
        let underrun = match self.underrun {
            Some(underrun) => underrun.last_events(),
            None => Seq::empty(),
        };
        silence + underrun
    }

    /// Whether the frames `frames` can be taken as a stream from its
    /// beginning: no analyser has taken a frame yet, the stream has room for
    /// them, and each has one sample for each channel.
    pub open spec fn takes(self, frames: Seq<Seq<i32>>) -> bool {
        &&& self.silence matches Some(silence) ==> {
            &&& silence.next_frame == 0
            &&& !silence.tracker.finished
            &&& frames.len() <= silence.tracker.num_frames
            &&& all_of_width(frames, silence.channels as nat)
        }
        &&& self.underrun matches Some(underrun) ==> {
            &&& underrun.next_frame == 0
            &&& frames.len() <= underrun.num_frames
            &&& all_of_width(frames, underrun.states.len())
        }
    }

    /// The state after the frames `frames` of a stream, taken from its
    /// beginning, where `measurements` holds for each frame what the window
    /// comes to if that frame fills it.
    pub open spec fn fed(
        self,
        frames: Seq<Seq<i32>>,
        measurements: Seq<Measurement>,
    ) -> PipelineView
        decreases frames.len(),
    {
        if frames.len() == 0 {
            self
        } else {
            self.fed(frames.drop_last(), measurements.drop_last()).step(
                (frames.len() - 1) as usize,
                frames.last(),
                measurements.last(),
            )
        }
    }

    /// What is reported while the frames `frames` of a stream are taken from
    /// its beginning, in the order in which it is reported.
    pub open spec fn found(
        self,
        frames: Seq<Seq<i32>>,
        measurements: Seq<Measurement>,
    ) -> Seq<Event>
        decreases frames.len(),
    {
        if frames.len() == 0 {
            Seq::empty()
        } else {
            self.found(frames.drop_last(), measurements.drop_last()) + self.fed(
                frames.drop_last(),
                measurements.drop_last(),
            ).events((frames.len() - 1) as usize, frames.last(), measurements.last())
        }
    }

    /// What a whole pass comes to: the state at the end, the result bits, and
    /// all that is reported, first what the frames gave rise to, then what the
    /// end of the stream gave rise to.
    pub open spec fn outcome(
        self,
        frames: Seq<Seq<i32>>,
        measurements: Seq<Measurement>,
        integrated: Loudness,
    ) -> (PipelineView, u8, Seq<Event>) {
        let last = self.fed(frames, measurements);
        (
            last.finish(),
            last.verdict(),
            self.found(frames, measurements) + last.last_events(integrated),
        )
    }

    /// Whether the silence analyser is switched on and has found silence.
    pub open spec fn has_silence(self) -> bool {
        self.silence matches Some(silence) && silence.tracker.segments.len() > 0
    }
}

/// The frames as sequences of samples.
pub open spec fn samples_of(frames: Seq<Vec<i32>>) -> Seq<Seq<i32>> {
    Seq::new(frames.len(), |i: int| frames[i]@)
}

/// Whether every frame of `frames` has `width` samples.
fn all_have_width(frames: &Vec<Vec<i32>>, width: usize) -> (ok: bool)
    ensures
        ok == all_of_width(samples_of(frames@), width as nat),
{
    let mut i: usize = 0;
    while i < frames.len()
        invariant
            i <= frames@.len(),
            forall|k: int| 0 <= k < i ==> (#[trigger] samples_of(frames@)[k]).len() == width,
        decreases frames@.len() - i,
    {
        if frames[i].len() != width {
            assert(samples_of(frames@)[i as int].len() != width);
            return false;
        }
        i = i + 1;
    }
    true
}

/// The analysers that are switched on for one stream.
pub struct Pipeline {
    silence: Option<SilenceAnalyser>,
    underrun: Option<UnderrunAnalyser>,
}

impl View for Pipeline {
    type V = PipelineView;

    closed spec fn view(&self) -> PipelineView {
        PipelineView {
            silence: match self.silence {
                Some(silence) => Some(silence@),
                None => None,
            },
            underrun: match self.underrun {
                Some(underrun) => Some(underrun@),
                None => None,
            },
        }
    }
}

impl Pipeline {
    /// The invariant: that of each analyser.
    pub closed spec fn wf(&self) -> bool {
        &&& self.silence matches Some(silence) ==> silence.wf()
        &&& self.underrun matches Some(underrun) ==> underrun.wf()
    }

    /// The analysers that `config` switches on, for a stream of `num_frames`
    /// frames of `channels` channels each at `sample_rate` frames per second.
    ///
    /// There is none to make when nothing is switched on, or when silence is
    /// looked for and the loudness meter does not take the channel count and
    /// the sample rate.
    pub fn new(config: &Config, channels: u16, sample_rate: i32, num_frames: usize) -> (made:
        Result<Pipeline, PipelineError>)
        ensures
            !config.silence && !config.underrun ==> made == Err::<Pipeline, PipelineError>(
                PipelineError::NothingEnabled,
            ),
            config.silence && !(sample_rate >= 0 && meter_accepts(
                channels as u32,
                sample_rate as u32,
            )) ==> made == Err::<Pipeline, PipelineError>(PipelineError::MeterUnavailable),
            (config.underrun && !config.silence) || (config.silence && sample_rate >= 0
                && meter_accepts(channels as u32, sample_rate as u32)) ==> made is Ok,
            made matches Ok(pipeline) ==> {
                &&& pipeline.wf()
                &&& pipeline@.silence is Some <==> config.silence
                &&& pipeline@.underrun is Some <==> config.underrun
                &&& pipeline@.silence matches Some(silence) ==> silence.is_initial(
                    channels,
                    sample_rate,
                    num_frames,
                    config.lufs,
                    config.silence_percentage,
                )
                &&& pipeline@.underrun matches Some(underrun) ==> underrun
                    == UnderrunAnalyser::initial(channels, sample_rate, num_frames, config.samples)
            },
    {
        if !config.silence && !config.underrun {
            return Err(PipelineError::NothingEnabled);
        }
        let silence = if config.silence {
            match SilenceAnalyser::new(
                channels,
                sample_rate,
                num_frames,
                config.lufs,
                config.silence_percentage,
            ) {
                Ok(analyser) => Some(analyser),
                Err(_) => {
                    return Err(PipelineError::MeterUnavailable);
                },
            }
        } else {
            None
        };
        let underrun = if config.underrun {
            Some(UnderrunAnalyser::new(channels, sample_rate, num_frames, config.samples))
        } else {
            None
        };
        Ok(Pipeline { silence, underrun })
    }

    /// Whether every analyser takes the frame with index `frame_counter` and
    /// samples `frame` next.
    pub fn can_take(&self, frame_counter: usize, frame: &[i32]) -> (ok: bool)
        ensures
            ok == self@.accepts(frame_counter, frame@),
    {
        let silence_ok = match &self.silence {
            Some(silence) => silence.can_take(frame_counter, frame),
            None => true,
        };
        let underrun_ok = match &self.underrun {
            Some(underrun) => underrun.can_take(frame_counter, frame),
            None => true,
        };
        silence_ok && underrun_ok
    }

    /// Whether the frames `frames` can be taken as a whole stream: no frame
    /// has been taken yet, the stream has room for them, and each has one
    /// sample for each channel.
    pub fn can_run(&self, frames: &Vec<Vec<i32>>) -> (ok: bool)
        ensures
            ok == self@.takes(samples_of(frames@)),
    {
        let silence_ok = match &self.silence {
            Some(silence) => silence.next_frame() == 0 && silence.can_finish() && frames.len()
                <= silence.tracker().num_frames() && all_have_width(frames, silence.channels()),
            None => true,
        };
        let underrun_ok = match &self.underrun {
            Some(underrun) => underrun.next_frame() == 0 && frames.len() <= underrun.num_frames()
                && all_have_width(frames, underrun.states().len()),
            None => true,
        };
        silence_ok && underrun_ok
    }

    /// Whether the stream has not been ended yet.
    pub fn can_finish(&self) -> (ok: bool)
        ensures
            ok == self@.may_finish(),
    {
        match &self.silence {
            Some(silence) => silence.can_finish(),
            None => true,
        }
    }

    /// Hands one frame to every analyser and returns what they found in it,
    /// the silence analyser's findings first.
    pub fn analyse(&mut self, frame_counter: usize, frame: &[i32]) -> (events: Vec<Event>)
        requires
            old(self).wf(),
            old(self)@.accepts(frame_counter, frame@),
        ensures
            final(self).wf(),
            exists|measured: Measurement|
                {
                    &&& final(self)@ == #[trigger] old(self)@.step(
                        frame_counter,
                        frame@,
                        measured,
                    )
                    &&& events@ == old(self)@.events(frame_counter, frame@, measured)
                },
    {
        let ghost before = self@;
        let mut events: Vec<Event> = Vec::new();
        let ghost mut witness = Measurement::Failed;
        match &mut self.silence {
            Some(silence) => {
                let ghost silence_before = silence@;
                let mut found = silence.analyse(frame_counter, frame);
                proof {
                    witness = choose|measured: Measurement|
                        {
                            &&& silence@ == #[trigger] silence_before.step(
                                frame_counter,
                                frame@,
                                measured,
                            )
                            &&& found@ == silence_before.events(frame_counter, frame@, measured)
                        };
                }
                events.append(&mut found);
            },
            None => {},
        }
        match &mut self.underrun {
            Some(underrun) => {
                let mut found = underrun.analyse(frame_counter, frame);
                events.append(&mut found);
            },
            None => {},
        }
        assert(self@ == before.step(frame_counter, frame@, witness));
        assert(events@ =~= before.events(frame_counter, frame@, witness));
        events
    }

    /// Ends the stream for every analyser. Returns the result bits of all of
    /// them, and what they found at the end, the silence analyser's findings
    /// first.
    pub fn finish(&mut self) -> (outcome: (u8, Vec<Event>))
        requires
            old(self).wf(),
            old(self)@.may_finish(),
        ensures
            final(self).wf(),
            final(self)@ == old(self)@.finish(),
            outcome.0 == old(self)@.verdict(),
            exists|integrated: Loudness|
                outcome.1@ == #[trigger] old(self)@.last_events(integrated),
    {
        let ghost before = self@;
        let mut silence_code: u8 = 0;
        let mut underrun_code: u8 = 0;
        let mut events: Vec<Event> = Vec::new();
        let ghost mut witness = arbitrary::<Loudness>();
        match &mut self.silence {
            Some(silence) => {
                let ghost silence_before = silence@;
                let (code, mut found) = silence.finish();
                proof {
                    witness = choose|integrated: Loudness|
                        found@ == listed(
                            #[trigger] silence_before.tracker.last_event(integrated),
                        );
                }
                silence_code = code;
                events.append(&mut found);
            },
            None => {},
        }
        match &mut self.underrun {
            Some(underrun) => {
                let (code, mut found) = underrun.finish();
                underrun_code = code;
                events.append(&mut found);
            },
            None => {},
        }
        assert(self@ == before.finish());
        assert(events@ =~= before.last_events(witness));
        (silence_code | underrun_code, events)
    }

    /// Makes the whole pass over a stream that is held in memory: every frame
    /// goes to every analyser, in order, and then the stream is ended. Returns
    /// the result bits, and all that was found in the order in which it was
    /// found.
    ///
    /// The outcome is that of `PipelineView::outcome` for what the meter
    /// measured on the way.
    pub fn run(&mut self, frames: &Vec<Vec<i32>>) -> (outcome: (u8, Vec<Event>))
        requires
            old(self).wf(),
            old(self)@.takes(samples_of(frames@)),
        ensures
            final(self).wf(),
            exists|measurements: Seq<Measurement>, integrated: Loudness|
                {
                    &&& measurements.len() == frames@.len()
                    &&& (final(self)@, outcome.0, outcome.1@) == #[trigger] old(self)@.outcome(
                        samples_of(frames@),
                        measurements,
                        integrated,
                    )
                },
    {
        let ghost start = self@;
        let ghost stream = samples_of(frames@);
        let ghost mut measurements: Seq<Measurement> = Seq::empty();
        let mut events: Vec<Event> = Vec::new();
        let count: usize = frames.len();
        let mut frame_counter: usize = 0;
        assert(stream.take(0) =~= Seq::<Seq<i32>>::empty());
        while frame_counter < count
            invariant
                frame_counter <= count,
                count == frames@.len(),
                stream == samples_of(frames@),
                start.takes(stream),
                self.wf(),
                measurements.len() == frame_counter,
                self@ == start.fed(stream.take(frame_counter as int), measurements),
                events@ == start.found(stream.take(frame_counter as int), measurements),
                self@.silence is Some <==> start.silence is Some,
                self@.underrun is Some <==> start.underrun is Some,
                self@.silence matches Some(silence) ==> {
                    &&& silence.next_frame == frame_counter
                    &&& silence.channels == start.silence->0.channels
                    &&& silence.tracker.num_frames == start.silence->0.tracker.num_frames
                    &&& !silence.tracker.finished
                },
                self@.underrun matches Some(underrun) ==> {
                    &&& underrun.next_frame == frame_counter
                    &&& underrun.states.len() == start.underrun->0.states.len()
                    &&& underrun.num_frames == start.underrun->0.num_frames
                },
            decreases count - frame_counter,
        {
            let ghost before = self@;
            let ghost earlier = stream.take(frame_counter as int);
            let ghost taken = stream.take(frame_counter + 1);
            assert(stream[frame_counter as int] == frames@[frame_counter as int]@);
            let mut found = self.analyse(frame_counter, frames[frame_counter].as_slice());
            proof {
                let measured = choose|measured: Measurement|
                    {
                        &&& self@ == #[trigger] before.step(
                            frame_counter,
                            frames@[frame_counter as int]@,
                            measured,
                        )
                        &&& found@ == before.events(
                            frame_counter,
                            frames@[frame_counter as int]@,
                            measured,
                        )
                    };
                let ghost longer = measurements.push(measured);
                assert(taken.drop_last() =~= earlier);
                assert(longer.drop_last() =~= measurements);
                assert(taken.last() == frames@[frame_counter as int]@);
                assert(longer.last() == measured);
                measurements = longer;
            }
            events.append(&mut found);
            frame_counter = frame_counter + 1;
        }
        assert(stream.take(count as int) =~= stream);
        let ghost last = self@;
        let (return_code, mut found) = self.finish();
        proof {
            let integrated = choose|integrated: Loudness|
                found@ == #[trigger] last.last_events(integrated);
            assert((self@, return_code, events@ + found@) == start.outcome(
                stream,
                measurements,
                integrated,
            ));
        }
        events.append(&mut found);
        (return_code, events)
    }

    /// The parts of the report, each under the name of its analyser. An
    /// analyser that has found nothing has no part in it.
    pub fn json(&self) -> (parts: Vec<(String, SilenceReport)>)
        requires
            self.wf(),
        ensures
            parts@.len() == (if self@.has_silence() {
                1nat
            } else {
                0nat
            }),
            self@.has_silence() ==> {
                &&& parts@[0].0@ == "silence"@
                &&& parts@[0].1.results@ == self@.silence->0.tracker.report()
                &&& parts@[0].1.threshold == self@.silence->0.tracker.threshold
                &&& parts@[0].1.sample_rate == self@.silence->0.tracker.sample_rate
            },
    {
        let mut parts: Vec<(String, SilenceReport)> = Vec::new();
        match &self.silence {
            Some(silence) => {
                match silence.json() {
                    Some(part) => {
                        parts.push(part);
                    },
                    None => {},
                }
            },
            None => {},
        }
        match &self.underrun {
            Some(underrun) => {
                match underrun.json() {
                    Some(part) => {
                        parts.push(part);
                    },
                    None => {},
                }
            },
            None => {},
        }
        parts
    }
}

/// A pass can be repeated: from the same state, the same frames with the
/// same measurements give the same state at the end, the same result bits and
/// the same reports in the same order.
pub proof fn lemma_same_stream_same_outcome(
    first: PipelineView,
    second: PipelineView,
    frames: Seq<Seq<i32>>,
    again: Seq<Seq<i32>>,
    measurements: Seq<Measurement>,
    integrated: Loudness,
)
    requires
        first == second,
        frames =~= again,
    ensures
        first.outcome(frames, measurements, integrated) == second.outcome(
            again,
            measurements,
            integrated,
        ),
{
}

/// Where silence is not looked for, the frames alone decide: whatever is
/// taken for measurements, the state and the reports are the same.
pub proof fn lemma_frames_decide_without_silence(
    start: PipelineView,
    frames: Seq<Seq<i32>>,
    measurements: Seq<Measurement>,
    others: Seq<Measurement>,
)
    requires
        start.silence is None,
    ensures
        start.fed(frames, measurements) == start.fed(frames, others),
        start.fed(frames, measurements).silence is None,
        start.found(frames, measurements) == start.found(frames, others),
    decreases frames.len(),
{
    if frames.len() > 0 {
        lemma_frames_decide_without_silence(
            start,
            frames.drop_last(),
            measurements.drop_last(),
            others.drop_last(),
        );
    }
}

/// Where silence is not looked for, a pass over the same frames always comes
/// to the same: the outcome does not depend on anything that is measured.
pub proof fn lemma_outcome_without_silence(
    start: PipelineView,
    frames: Seq<Seq<i32>>,
    measurements: Seq<Measurement>,
    integrated: Loudness,
    others: Seq<Measurement>,
    other: Loudness,
)
    requires
        start.silence is None,
    ensures
        start.outcome(frames, measurements, integrated) == start.outcome(frames, others, other),
{
    lemma_frames_decide_without_silence(start, frames, measurements, others);
    let last = start.fed(frames, measurements);
    assert(last.last_events(integrated) =~= last.last_events(other));
}

/// The underrun analyser's part in a pass is what it comes to by itself: after
/// the frames of a stream, taken from its beginning, its state in the pass is
/// the state that the frames alone lead it to.
pub proof fn lemma_underrun_part_of_a_pass(
    start: PipelineView,
    frames: Seq<Seq<i32>>,
    measurements: Seq<Measurement>,
)
    requires
        start.underrun matches Some(underrun) && underrun.wf() && underrun.fresh()
            && frames.len() <= underrun.num_frames && all_of_width(
            frames,
            underrun.states.len(),
        ),
    ensures
        start.fed(frames, measurements).underrun == Some(start.underrun->0.fed(frames)),
    decreases frames.len(),
{
    if frames.len() > 0 {
        let underrun = start.underrun->0;
        let earlier = frames.drop_last();
        assert forall|i: int| 0 <= i < earlier.len() implies (#[trigger] earlier[i]).len()
            == underrun.states.len() by {
            assert(earlier[i] == frames[i]);
        }
        lemma_underrun_part_of_a_pass(start, earlier, measurements.drop_last());
        lemma_count_is_trailing_zeros(underrun, earlier);
    }
}

/// The result bits of a pass are those of its analysers and no others: each
/// of the two bits is set exactly when its analyser sets it.
pub proof fn lemma_verdict_bits(last: PipelineView)
    requires
        last.silence_verdict() == 0 || last.silence_verdict() == ERR_CONTAINS_SILENCE,
        last.underrun_verdict() == 0 || last.underrun_verdict() == ERR_CONTAINS_UNDERRUN,
    ensures
        last.verdict() & ERR_CONTAINS_SILENCE == last.silence_verdict(),
        last.verdict() & ERR_CONTAINS_UNDERRUN == last.underrun_verdict(),
        last.verdict() <= 3,
{
    let silence = last.silence_verdict();
    let underrun = last.underrun_verdict();
    assert((silence | underrun) & 2u8 == silence && (silence | underrun) & 1u8 == underrun && (
    silence | underrun) <= 3u8) by (bit_vector)
        requires
            silence == 0u8 || silence == 2u8,
            underrun == 0u8 || underrun == 1u8,
    ;
}

} // verus!
