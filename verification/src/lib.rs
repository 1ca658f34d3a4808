//! Finds two defects in multichannel PCM audio: stretches of silence, judged
//! by the short-term loudness of one-second windows, and underruns, runs of
//! samples that are exactly zero on a channel.
//!
//! The frames of a stream are handed over one by one, in order, to a
//! [`pipeline::Pipeline`] or to a single analyser. Each frame gives back the
//! events that it gave rise to; the end of the stream gives back the last
//! events and the result bits. Decoding the audio, printing and writing the
//! report are left to the caller.

use vstd::prelude::*;

pub mod analysers;
pub mod json;
pub mod loudness;
pub mod meter;
pub mod output;
pub mod pipeline;
pub mod states;

verus! {

/// Result bit set when an underrun was found on any channel.
pub const ERR_CONTAINS_UNDERRUN: u8 = 0b0001;

/// Result bit set when the share of silent frames reached the configured percentage.
pub const ERR_CONTAINS_SILENCE: u8 = 0b0010;

} // verus!
