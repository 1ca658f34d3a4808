//! Text forms of frame positions: zero-padded frame labels and wall-clock times.
//!
//! Everything here is exact integer arithmetic. A position in time is the
//! rational `frame / sample_rate` seconds; it is shown rounded to the nearest
//! millisecond, a half rounding up.

use vstd::prelude::*;

verus! {

/// The character of one decimal digit; `'0'` outside `0..=9`.
pub open spec fn digit_char(d: int) -> char {
    if d == 1 {
        '1'
    } else if d == 2 {
        '2'
    } else if d == 3 {
        '3'
    } else if d == 4 {
        '4'
    } else if d == 5 {
        '5'
    } else if d == 6 {
        '6'
    } else if d == 7 {
        '7'
    } else if d == 8 {
        '8'
    } else if d == 9 {
        '9'
    } else {
        '0'
    }
}

/// The decimal numeral of `n`, most significant digit first, without leading zeros.
pub open spec fn decimal(n: nat) -> Seq<char>
    decreases n,
{
    if n < 10 {
        seq![digit_char(n as int)]
    } else {
        decimal(n / 10).push(digit_char((n % 10) as int))
    }
}

/// `count` copies of `'0'`.
pub open spec fn zeros(count: nat) -> Seq<char> {
    Seq::new(count, |i: int| '0')
}

/// The decimal numeral of `n`, filled on the left with `'0'` up to `width`
/// characters. A numeral that is already `width` long or longer is not cut.
pub open spec fn zero_padded(n: nat, width: nat) -> Seq<char> {
    let numeral = decimal(n);
    if numeral.len() >= width {
        numeral
    } else {
        zeros((width - numeral.len()) as nat) + numeral
    }
}

/// `frame / sample_rate` seconds in whole milliseconds, rounded to the nearest
/// millisecond; an exact half rounds up.
pub open spec fn rounded_millis(frame: nat, sample_rate: nat) -> nat
    recommends
        sample_rate > 0,
{
    (2000 * frame + sample_rate) / (2 * sample_rate)
}

/// A duration of `millis` milliseconds as `HH:MM:SS.mmm`. Hours grow past two
/// digits when they need to.
pub open spec fn clock_text(millis: nat) -> Seq<char> {
    let seconds = millis / 1000;
    zero_padded(seconds / 3600, 2) + seq![':'] + zero_padded((seconds % 3600) / 60, 2) + seq![':']
        + zero_padded(seconds % 60, 2) + seq!['.'] + zero_padded(millis % 1000, 3)
}

/// A duration of `millis` milliseconds as `SS.mmm`, seconds not wrapped at a minute.
pub open spec fn seconds_text(millis: nat) -> Seq<char> {
    zero_padded(millis / 1000, 2) + seq!['.'] + zero_padded(millis % 1000, 3)
}

/// The digits of a numeral that were produced least significant first, read
/// back most significant first.
spec fn reversed_digits(digits: Seq<u8>) -> Seq<char> {
    Seq::new(digits.len(), |i: int| digit_char(digits[digits.len() - 1 - i] as int))
}

fn digit_str(d: u8) -> (s: &'static str)
    requires
        d < 10,
    ensures
        s@ =~= seq![digit_char(d as int)],
{
    proof {
        reveal_strlit("0");
        reveal_strlit("1");
        reveal_strlit("2");
        reveal_strlit("3");
        reveal_strlit("4");
        reveal_strlit("5");
        reveal_strlit("6");
        reveal_strlit("7");
        reveal_strlit("8");
        reveal_strlit("9");
    }
    if d == 0 {
        "0"
    } else if d == 1 {
        "1"
    } else if d == 2 {
        "2"
    } else if d == 3 {
        "3"
    } else if d == 4 {
        "4"
    } else if d == 5 {
        "5"
    } else if d == 6 {
        "6"
    } else if d == 7 {
        "7"
    } else if d == 8 {
        "8"
    } else {
        "9"
    }
}

/// The digits of `n`, least significant first.
fn digits_of(n: u128) -> (digits: Vec<u8>)
    ensures
        digits@.len() >= 1,
        forall|i: int| 0 <= i < digits@.len() ==> digits@[i] < 10,
        reversed_digits(digits@) =~= decimal(n as nat),
{
    let mut digits: Vec<u8> = Vec::new();
    let mut rest: u128 = n;
    while rest >= 10
        invariant
            forall|i: int| 0 <= i < digits@.len() ==> digits@[i] < 10,
            decimal(n as nat) =~= decimal(rest as nat) + reversed_digits(digits@),
        decreases rest,
    {
        let ghost before = digits@;
        let low: u8 = (rest % 10) as u8;
        digits.push(low);
        assert(reversed_digits(digits@) =~= seq![digit_char(low as int)] + reversed_digits(
            before,
        ));
        rest = rest / 10;
    }
    let ghost before = digits@;
    let low: u8 = rest as u8;
    digits.push(low);
    assert(reversed_digits(digits@) =~= seq![digit_char(low as int)] + reversed_digits(before));
    digits
}

/// Appends `n` to `out` as a decimal numeral of at least `width` characters.
fn push_padded(out: &mut String, n: u128, width: usize)
    ensures
        final(out)@ == old(out)@ + zero_padded(n as nat, width as nat),
{
    let digits = digits_of(n);
    let len: usize = digits.len();
    let ghost start = out@;
    let mut filled: usize = len;
    while filled < width
        invariant
            len <= filled,
            filled <= width || filled == len,
            out@ =~= start + zeros((filled - len) as nat),
        decreases width - filled,
    {
        proof {
            reveal_strlit("0");
        }
        out.append("0");
        filled = filled + 1;
    }
    let ghost padded = out@;
    let mut left: usize = len;
    while left > 0
        invariant
            left <= len,
            len == digits@.len(),
            forall|i: int| 0 <= i < digits@.len() ==> digits@[i] < 10,
            out@ =~= padded + reversed_digits(digits@).subrange(0, len - left),
        decreases left,
    {
        left = left - 1;
        out.append(digit_str(digits[left]));
    }
    assert(reversed_digits(digits@).subrange(0, len as int) =~= reversed_digits(digits@));
}

/// Appends the text `piece` to `out`.
fn push_text(out: &mut String, piece: &str)
    ensures
        final(out)@ == old(out)@ + piece@,
{
    out.append(piece);
}

/// The frame number `frame` as a decimal label of at least `digits` characters,
/// filled on the left with zeros.
pub fn fmt_frame(frame: usize, digits: usize) -> (label: String)
    ensures
        label@ == zero_padded(frame as nat, digits as nat),
{
    let mut label = String::new();
    push_padded(&mut label, frame as u128, digits);
    assert(Seq::<char>::empty() + zero_padded(frame as nat, digits as nat) =~= zero_padded(
        frame as nat,
        digits as nat,
    ));
    label
}

/// The number of whole milliseconds nearest to `frame / sample_rate` seconds.
fn frame_millis(frame: usize, sample_rate: i32) -> (millis: u128)
    requires
        sample_rate > 0,
    ensures
        millis == rounded_millis(frame as nat, sample_rate as nat),
{
    let rate: u128 = sample_rate as u128;
    (2000 * (frame as u128) + rate) / (2 * rate)
}

/// Appends `millis` milliseconds to `out` as `HH:MM:SS.mmm`.
fn push_clock(out: &mut String, millis: u128)
    ensures
        final(out)@ == old(out)@ + clock_text(millis as nat),
{
    let ghost start = out@;
    let seconds: u128 = millis / 1000;
    proof {
        reveal_strlit(":");
        reveal_strlit(".");
    }
    push_padded(out, seconds / 3600, 2);
    push_text(out, ":");
    push_padded(out, (seconds % 3600) / 60, 2);
    push_text(out, ":");
    push_padded(out, seconds % 60, 2);
    push_text(out, ".");
    push_padded(out, millis % 1000, 3);
    assert(out@ =~= start + clock_text(millis as nat));
}

/// Appends `millis` milliseconds to `out` as `SS.mmm`.
fn push_seconds(out: &mut String, millis: u128)
    ensures
        final(out)@ == old(out)@ + seconds_text(millis as nat),
{
    let ghost start = out@;
    proof {
        reveal_strlit(".");
    }
    push_padded(out, millis / 1000, 2);
    push_text(out, ".");
    push_padded(out, millis % 1000, 3);
    assert(out@ =~= start + seconds_text(millis as nat));
}

/// The time at which frame `frame` starts in a stream of `sample_rate` frames
/// per second, as `HH:MM:SS.mmm`.
pub fn frame_to_time(frame: usize, sample_rate: i32) -> (time: String)
    requires
        sample_rate > 0,
    ensures
        time@ == clock_text(rounded_millis(frame as nat, sample_rate as nat)),
{
    let mut time = String::new();
    push_clock(&mut time, frame_millis(frame, sample_rate));
    assert(Seq::<char>::empty() + clock_text(rounded_millis(frame as nat, sample_rate as nat))
        =~= clock_text(rounded_millis(frame as nat, sample_rate as nat)));
    time
}

/// The number of characters in the decimal numeral of `num_frames`: the
/// width at which the labels of all frames of the stream line up.
pub fn label_width(num_frames: usize) -> (width: usize)
    ensures
        width == decimal(num_frames as nat).len(),
{
    let digits = digits_of(num_frames as u128);
    assert(reversed_digits(digits@).len() == digits@.len());
    digits.len()
}

/// The line that reports an underrun: under the label `label`, on channel
/// `channel`, from frame `start` up to, not including, frame `end`, in a stream
/// of `sample_rate` frames per second. It gives the number of samples, their
/// duration in seconds, and the times at which the run began and ended.
pub open spec fn underrun_text(
    label: Seq<char>,
    channel: nat,
    start: nat,
    end: nat,
    sample_rate: nat,
) -> Seq<char> {
    "["@ + label + "] UNDERRUN     : CH:"@ + decimal(channel) + " - "@ + decimal(
        (end - start) as nat,
    ) + " samples ("@ + seconds_text(rounded_millis((end - start) as nat, sample_rate)) + "s) "@
        + clock_text(rounded_millis(start, sample_rate)) + " -> "@ + clock_text(
        rounded_millis(end, sample_rate),
    )
}

/// The line that reports an underrun; see `underrun_text`.
pub fn underrun_message(
    label: &str,
    channel: usize,
    start: usize,
    end: usize,
    sample_rate: i32,
) -> (line: String)
    requires
        sample_rate > 0,
        start <= end,
    ensures
        line@ == underrun_text(
            label@,
            channel as nat,
            start as nat,
            end as nat,
            sample_rate as nat,
        ),
{
    let mut line = String::new();
    push_text(&mut line, "[");
    push_text(&mut line, label);
    push_text(&mut line, "] UNDERRUN     : CH:");
    push_padded(&mut line, channel as u128, 0);
    push_text(&mut line, " - ");
    push_padded(&mut line, (end - start) as u128, 0);
    push_text(&mut line, " samples (");
    push_seconds(&mut line, frame_millis(end - start, sample_rate));
    push_text(&mut line, "s) ");
    push_clock(&mut line, frame_millis(start, sample_rate));
    push_text(&mut line, " -> ");
    push_clock(&mut line, frame_millis(end, sample_rate));
    assert(line@ =~= underrun_text(
        label@,
        channel as nat,
        start as nat,
        end as nat,
        sample_rate as nat,
    ));
    line
}

} // verus!
