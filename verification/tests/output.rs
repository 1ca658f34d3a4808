use audioscan::output::{fmt_frame, frame_to_time, label_width, underrun_message};

#[test]
fn frame_label_is_padded_with_zeros() {
    assert_eq!(fmt_frame(7, 3), "007");
    assert_eq!(fmt_frame(0, 1), "0");
    assert_eq!(fmt_frame(0, 0), "0");
    assert_eq!(fmt_frame(123, 6), "000123");
}

#[test]
fn frame_label_is_never_cut() {
    assert_eq!(fmt_frame(12345, 3), "12345");
    assert_eq!(fmt_frame(usize::MAX, 0), usize::MAX.to_string());
}

#[test]
fn frame_label_agrees_with_std_formatting() {
    let frames: [usize; 9] = [0, 1, 9, 10, 99, 100, 4095, 1_000_000, 987_654_321];
    for frame in frames {
        for digits in 0..12usize {
            assert_eq!(fmt_frame(frame, digits), format!("{:0width$}", frame, width = digits));
        }
    }
}

#[test]
fn label_width_is_the_number_of_digits() {
    assert_eq!(label_width(0), 1);
    assert_eq!(label_width(9), 1);
    assert_eq!(label_width(10), 2);
    assert_eq!(label_width(48000), 5);
    assert_eq!(label_width(usize::MAX), usize::MAX.to_string().len());
}

#[test]
fn time_of_whole_and_half_seconds() {
    assert_eq!(frame_to_time(0, 44100), "00:00:00.000");
    assert_eq!(frame_to_time(44100, 44100), "00:00:01.000");
    assert_eq!(frame_to_time(22050, 44100), "00:00:00.500");
    assert_eq!(frame_to_time(48000 * 3661, 48000), "01:01:01.000");
    assert_eq!(frame_to_time(48000 * 59 + 24000, 48000), "00:00:59.500");
}

#[test]
fn time_rounds_to_the_nearest_millisecond() {
    assert_eq!(frame_to_time(1, 44100), "00:00:00.000");
    assert_eq!(frame_to_time(1, 2000), "00:00:00.001");
    assert_eq!(frame_to_time(1, 2001), "00:00:00.000");
    assert_eq!(frame_to_time(1999, 2000), "00:00:01.000");
    assert_eq!(frame_to_time(59_999_600, 1_000_000), "00:01:00.000");
    assert_eq!(frame_to_time(59_999_499, 1_000_000), "00:00:59.999");
}

#[test]
fn hours_grow_past_two_digits() {
    assert_eq!(frame_to_time(360_000, 1), "100:00:00.000");
    assert_eq!(frame_to_time(usize::MAX, i32::MAX).len() >= 12, true);
}

#[test]
fn underrun_line_gives_channel_length_duration_and_span() {
    assert_eq!(
        underrun_message("0048000", 1, 24000, 48000, 48000),
        "[0048000] UNDERRUN     : CH:1 - 24000 samples (00.500s) 00:00:00.500 -> 00:00:01.000"
    );
    assert_eq!(
        underrun_message("16", 0, 0, 16, 44100),
        "[16] UNDERRUN     : CH:0 - 16 samples (00.000s) 00:00:00.000 -> 00:00:00.000"
    );
    assert_eq!(
        underrun_message("", 12, 0, 480000, 4000),
        "[] UNDERRUN     : CH:12 - 480000 samples (120.000s) 00:00:00.000 -> 00:02:00.000"
    );
}
