//! The loudness meter: the `ebur128` crate's `EbuR128`, and what is taken on
//! trust about it.
//!
//! Nothing is claimed about the loudness that the meter reports. Its numbers
//! come out of floating-point filters and a logarithm; the code that uses them
//! is written for every number that may come back.

use vstd::prelude::*;
use crate::loudness::{is_nan_bits, Loudness, NEG_INFINITY_BITS};

verus! {

/// `ebur128::EbuR128`, the meter. Its state is not looked into.
#[verifier::external_type_specification]
#[verifier::external_body]
pub struct ExEbuR128(ebur128::EbuR128);

/// `ebur128::Error`, what the meter's functions fail with.
#[verifier::external_type_specification]
#[verifier::external_body]
pub struct ExMeterError(ebur128::Error);

/// The largest number of channels the meter takes.
pub const MAX_METER_CHANNELS: u32 = 64;

/// The lowest sample rate the meter takes.
pub const MIN_METER_RATE: u32 = 16;

/// The highest sample rate the meter takes.
pub const MAX_METER_RATE: u32 = 2822400;

/// A tenth of a second in frames, rounded to the nearest frame.
pub open spec fn tenth_of_a_second(rate: u32) -> int {
    (rate + 5) / 10
}

/// The number of frames in the meter's buffer: three seconds of frames,
/// rounded up to whole tenths of a second.
pub open spec fn meter_buffer_frames(rate: u32) -> int {
    let tenth = tenth_of_a_second(rate);
    let frames = 3 * rate;
    if tenth > 0 && frames % tenth != 0 {
        frames + tenth - frames % tenth
    } else {
        frames
    }
}

/// The channel counts and sample rates for which a meter can be made: both
/// within the meter's limits, and a buffer whose size the meter can compute
/// in a `usize`, step by step as it does: the rate times 3000, the frames
/// rounded up, and the frames times the channels.
pub open spec fn meter_accepts(channels: u32, rate: u32) -> bool {
    &&& 1 <= channels <= MAX_METER_CHANNELS
    &&& MIN_METER_RATE <= rate <= MAX_METER_RATE
    &&& 3000 * rate <= usize::MAX
    &&& (3 * rate) % tenth_of_a_second(rate) != 0 ==> 3 * rate + tenth_of_a_second(rate)
        <= usize::MAX
    &&& meter_buffer_frames(rate) * channels <= usize::MAX
}

/// `EbuR128::new` in the modes for short-term and integrated loudness. It
/// gives a meter for exactly the channel counts and sample rates that
/// `meter_accepts` describes: it refuses a count or a rate outside its limits,
/// and a buffer size that overflows a `usize`, and nothing else. (Where the
/// buffer cannot be had for want of memory, the process ends; no error comes
/// back.)
#[verifier::external_body]
pub(crate) fn meter_new(channels: u32, rate: u32) -> (made: Result<
    ebur128::EbuR128,
    ebur128::Error,
>)
    ensures
        made is Ok <==> meter_accepts(channels, rate),
{
    ebur128::EbuR128::new(channels, rate, ebur128::Mode::S | ebur128::Mode::I)
}

/// `EbuR128::reset`: the meter forgets what it was fed. Nothing is claimed.
pub assume_specification[ ebur128::EbuR128::reset ](meter: &mut ebur128::EbuR128)
;

/// `EbuR128::add_frames_i32`: feeds interleaved samples to the meter. Nothing
/// is claimed, neither of the meter nor of success.
pub assume_specification[ ebur128::EbuR128::add_frames_i32 ](
    meter: &mut ebur128::EbuR128,
    frames: &[i32],
) -> (fed: Result<(), ebur128::Error>)
;

/// `EbuR128::loudness_shortterm`, the number handed on as its bit pattern.
/// Nothing is claimed of it.
#[verifier::external_body]
pub(crate) fn meter_short_term(meter: &ebur128::EbuR128) -> (read: Result<u64, ebur128::Error>) {
    match meter.loudness_shortterm() {
        Ok(lufs) => Ok(lufs.to_bits()),
        Err(error) => Err(error),
    }
}

/// `EbuR128::loudness_global`, the number handed on as its bit pattern.
/// Nothing is claimed of it.
#[verifier::external_body]
pub(crate) fn meter_integrated(meter: &ebur128::EbuR128) -> (read: Result<u64, ebur128::Error>) {
    match meter.loudness_global() {
        Ok(lufs) => Ok(lufs.to_bits()),
        Err(error) => Err(error),
    }
}

/// What one window came to.
#[derive(Debug, Clone, Copy, PartialEq, Eq)]
pub enum Measurement {
    /// The window could not be measured; it says nothing about the stream.
    Failed,
    /// The window was measured.
    Reading { short_term: Loudness, integrated: Loudness },
}

/// The loudness that a reading stands for: negative infinity when the meter
/// has none to give.
pub open spec fn reading_bits(read: Option<u64>) -> u64 {
    match read {
        Some(bits) => bits,
        None => NEG_INFINITY_BITS,
    }
}

/// Whether a window has failed: the meter did not take it, or the short-term
/// loudness it then gave is a NaN.
pub open spec fn window_failed(fed: bool, short_term: Option<u64>) -> bool {
    !fed || is_nan_bits(reading_bits(short_term))
}

/// The integrated loudness that a reading stands for: negative infinity when
/// the meter has none to give or gives a NaN.
pub open spec fn integrated_bits(read: Option<u64>) -> u64 {
    if is_nan_bits(reading_bits(read)) {
        NEG_INFINITY_BITS
    } else {
        reading_bits(read)
    }
}

/// What a window came to, from what the meter gave back: `fed` says whether
/// the meter took the window, `short_term` and `integrated` are the loudness
/// values it then had to give, as bit patterns.
///
/// The window has failed when the meter did not take it, or when the
/// short-term loudness is a NaN. A loudness that the meter cannot give counts
/// as negative infinity; so does an integrated loudness that is a NaN.
pub fn interpret(fed: bool, short_term: Option<u64>, integrated: Option<u64>) -> (measured:
    Measurement)
    ensures
        measured is Failed <==> window_failed(fed, short_term),
        measured matches Measurement::Reading { short_term: current, integrated: whole } ==> {
            &&& current.bits() == reading_bits(short_term)
            &&& whole.bits() == integrated_bits(integrated)
        },
{
    if !fed {
        return Measurement::Failed;
    }
    let current = match short_term {
        Some(bits) => Loudness::from_bits(bits),
        None => Some(Loudness::neg_infinity()),
    };
    match current {
        None => Measurement::Failed,
        Some(short_term) => Measurement::Reading {
            short_term,
            integrated: integrated_of(integrated),
        },
    }
}

/// The integrated loudness that the meter has to give, negative infinity when
/// it has none or gives a NaN.
pub fn integrated_of(read: Option<u64>) -> (whole: Loudness)
    ensures
        whole.bits() == integrated_bits(read),
{
    match read {
        Some(bits) => match Loudness::from_bits(bits) {
            Some(whole) => whole,
            None => Loudness::neg_infinity(),
        },
        None => Loudness::neg_infinity(),
    }
}

/// Measures one window: the meter forgets what it was fed before, is fed the
/// samples of `window`, and is asked for the loudness. What that comes to is
/// for the meter to say; a window that the meter does not take has failed
/// without being asked about.
pub(crate) fn measure(meter: &mut ebur128::EbuR128, window: &[i32]) -> (measured: Measurement) {
    meter.reset();
    let fed = meter.add_frames_i32(window);
    if fed.is_ok() {
        interpret(true, meter_short_term(meter).ok(), meter_integrated(meter).ok())
    } else {
        Measurement::Failed
    }
}

/// The integrated loudness of what the meter has been fed since it last
/// forgot, negative infinity when it has none to give.
pub(crate) fn integrated_now(meter: &ebur128::EbuR128) -> (whole: Loudness) {
    integrated_of(meter_integrated(meter).ok())
}

} // verus!
