//! The analysers and what they have in common: each takes the frames of a
//! stream one by one, in order, and is finished once after the last frame.

use vstd::prelude::*;
use crate::json::SilenceReport;
use crate::loudness::Loudness;

pub mod silence;
pub mod tracker;
pub mod underruns;

verus! {

/// Something an analyser found, to be shown to the user.
#[derive(Debug, Clone, Copy, PartialEq, Eq)]
pub enum Event {
    /// The loudness fell below the threshold in the window that ends at `frame`.
    SilenceStart { frame: usize, short_term: Loudness, integrated: Loudness },
    /// The loudness came back to the threshold in the window that ends at
    /// `frame`, or the stream ended in silence at `frame`. `silent_frames` is
    /// the number of silent frames counted up to here.
    SilenceEnd {
        frame: usize,
        short_term: Loudness,
        integrated: Loudness,
        silent_frames: usize,
        total_frames: usize,
    },
    /// The window that ends at `frame` could not be measured and was left out.
    MeasurementFailed { frame: usize },
    /// Channel `channel` held zero samples from frame `start` up to, not
    /// including, frame `end`.
    Underrun { channel: usize, start: usize, end: usize },
}

/// One detector over the frames of a stream.
pub trait Analyser {
    /// The analyser's invariant.
    spec fn wf(&self) -> bool;

    /// Whether the frame with index `frame_counter` and samples `frame` may be
    /// handed over next.
    spec fn accepts(&self, frame_counter: usize, frame: Seq<i32>) -> bool;

    /// Whether the analyser may be finished now.
    spec fn may_finish(&self) -> bool;

    /// The result bits if the stream ends here.
    spec fn verdict(&self) -> u8;

    /// Whether the analyser has found something that goes into the report.
    spec fn has_findings(&self) -> bool;

    /// Takes one frame, one sample per channel, and returns what was found in it.
    fn analyse(&mut self, frame_counter: usize, frame: &[i32]) -> (events: Vec<Event>)
        requires
            old(self).wf(),
            old(self).accepts(frame_counter, frame@),
        ensures
            final(self).wf(),
    ;

    /// Ends the stream: closes what is still open as if the stream went on with
    /// a loud, non-zero frame, and returns the result bits with what was found.
    fn finish(&mut self) -> (outcome: (u8, Vec<Event>))
        requires
            old(self).wf(),
            old(self).may_finish(),
        ensures
            final(self).wf(),
            outcome.0 == old(self).verdict(),
    ;

    /// The analyser's part of the report, under its name; none when it has
    /// found nothing that goes into the report.
    fn json(&self) -> (fragment: Option<(String, SilenceReport)>)
        requires
            self.wf(),
        ensures
            fragment is Some <==> self.has_findings(),
    ;
}

} // verus!
