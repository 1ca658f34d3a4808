//! The records of running state that the analysers keep.

use vstd::prelude::*;
use crate::loudness::Loudness;

verus! {

/// The zero run that is open on one channel.
#[derive(Debug, Clone, Copy, PartialEq, Eq)]
pub struct DetectorState {
    /// Length of the run of zero samples that ends at the latest frame; 0 when
    /// the latest sample was not zero.
    pub underrun_count: usize,
    /// Index of the frame that held the latest zero sample on this channel.
    pub underrun_prev_index: usize,
}

/// What the silence detection remembers from one window to the next.
#[derive(Debug, Clone, Copy, PartialEq, Eq)]
pub struct SilenceState {
    /// Short-term loudness of the latest window that was measured.
    pub previous_lufs: Loudness,
    /// Frame at which the latest silence began.
    pub silence_start_frame: usize,
    /// Frame at which the latest silence that has ended did end.
    pub silence_end_frame: usize,
}

impl SilenceState {
    /// The state before the first window: a loudness of zero, which counts as
    /// loud under every threshold that is not above zero.
    pub fn new() -> (state: SilenceState)
        ensures
            state.previous_lufs.bits() == 0,
            state.silence_start_frame == 0,
            state.silence_end_frame == 0,
    {
        SilenceState { previous_lufs: Loudness::zero(), silence_start_frame: 0, silence_end_frame: 0 }
    }
}

} // verus!
