use audioscan::analysers::underruns::UnderrunAnalyser;
use audioscan::analysers::{Analyser, Event};
use audioscan::states::DetectorState;
use audioscan::ERR_CONTAINS_UNDERRUN;

/// Feeds one channel, sample by sample, and returns what was found on the way.
fn feed_mono(analyser: &mut UnderrunAnalyser, samples: &[i32]) -> Vec<Event> {
    let mut found = Vec::new();
    for (frame, sample) in samples.iter().enumerate() {
        assert!(analyser.can_take(frame, &[*sample]));
        found.extend(analyser.analyse(frame, &[*sample]));
    }
    found
}

#[test]
fn a_new_analyser_has_no_run_on_any_channel() {
    let analyser = UnderrunAnalyser::new(3, 48000, 100, 16);
    assert_eq!(analyser.states().len(), 3);
    for state in analyser.states() {
        assert_eq!(*state, DetectorState { underrun_count: 0, underrun_prev_index: 0 });
    }
    assert_eq!(analyser.next_frame(), 0);
    assert_eq!(analyser.num_frames(), 100);
}

#[test]
fn a_run_restarts_after_a_sample_that_is_not_zero() {
    let mut samples = vec![5; 10];
    samples.extend([0, 7, 0, 9]);
    let mut analyser = UnderrunAnalyser::new(1, 48000, samples.len(), 2);
    let found = feed_mono(&mut analyser, &samples);
    assert_eq!(found, vec![]);
    assert_eq!(analyser.finish(), (0, vec![]));
}

#[test]
fn a_run_restarts_after_a_sample_that_is_not_zero_state_by_state() {
    let mut analyser = UnderrunAnalyser::new(1, 48000, 20, 2);
    for frame in 0..10 {
        analyser.analyse(frame, &[1]);
    }
    analyser.analyse(10, &[0]);
    assert_eq!(analyser.states()[0], DetectorState { underrun_count: 1, underrun_prev_index: 10 });
    analyser.analyse(11, &[3]);
    assert_eq!(analyser.states()[0], DetectorState { underrun_count: 0, underrun_prev_index: 10 });
    assert_eq!(analyser.analyse(12, &[0]), vec![]);
    assert_eq!(analyser.states()[0], DetectorState { underrun_count: 1, underrun_prev_index: 12 });
}

#[test]
fn a_run_restarts_after_a_gap_in_the_frames() {
    let mut analyser = UnderrunAnalyser::new(1, 48000, 20, 2);
    analyser.analyse(3, &[0]);
    assert_eq!(analyser.states()[0].underrun_count, 1);
    analyser.analyse(5, &[0]);
    assert_eq!(analyser.states()[0], DetectorState { underrun_count: 1, underrun_prev_index: 5 });
    analyser.analyse(6, &[0]);
    assert_eq!(analyser.states()[0], DetectorState { underrun_count: 2, underrun_prev_index: 6 });
}

#[test]
fn a_run_of_the_least_length_is_reported_when_it_ends() {
    let samples = [1, 0, 0, 0, 1, 0, 0, 1];
    let mut analyser = UnderrunAnalyser::new(1, 48000, samples.len(), 3);
    let found = feed_mono(&mut analyser, &samples);
    assert_eq!(found, vec![Event::Underrun { channel: 0, start: 1, end: 4 }]);
    assert_eq!(analyser.finish(), (ERR_CONTAINS_UNDERRUN, vec![]));
}

#[test]
fn a_run_that_is_too_short_is_not_reported() {
    let samples = [1, 0, 0, 1, 0, 0, 1];
    let mut analyser = UnderrunAnalyser::new(1, 48000, samples.len(), 3);
    assert_eq!(feed_mono(&mut analyser, &samples), vec![]);
    assert_eq!(analyser.finish(), (0, vec![]));
}

#[test]
fn a_run_from_the_first_frame_is_reported() {
    let samples = [0, 0, 0, 0, 8];
    let mut analyser = UnderrunAnalyser::new(1, 48000, samples.len(), 4);
    assert_eq!(
        feed_mono(&mut analyser, &samples),
        vec![Event::Underrun { channel: 0, start: 0, end: 4 }]
    );
}

#[test]
fn a_run_that_lasts_to_the_end_is_reported_once_at_the_end() {
    let samples = [1, 2, 3, 4, 5, 6, 0, 0, 0, 0];
    let mut analyser = UnderrunAnalyser::new(1, 48000, samples.len(), 4);
    assert_eq!(feed_mono(&mut analyser, &samples), vec![]);
    assert_eq!(
        analyser.finish(),
        (ERR_CONTAINS_UNDERRUN, vec![Event::Underrun { channel: 0, start: 6, end: 10 }])
    );
}

#[test]
fn a_run_one_short_of_the_least_length_at_the_end_is_dropped() {
    let samples = [1, 2, 3, 4, 5, 6, 7, 0, 0, 0];
    let mut analyser = UnderrunAnalyser::new(1, 48000, samples.len(), 4);
    assert_eq!(feed_mono(&mut analyser, &samples), vec![]);
    assert_eq!(analyser.finish(), (0, vec![]));
}

#[test]
fn finishing_changes_nothing_and_can_be_asked_again() {
    let samples = [1, 0, 0];
    let mut analyser = UnderrunAnalyser::new(1, 48000, samples.len(), 2);
    feed_mono(&mut analyser, &samples);
    let first = analyser.finish();
    let second = analyser.finish();
    assert_eq!(first, second);
    assert_eq!(first, (ERR_CONTAINS_UNDERRUN, vec![Event::Underrun { channel: 0, start: 1, end: 3 }]));
}

#[test]
fn channels_are_told_apart_and_reported_in_order() {
    let frames: [[i32; 3]; 6] =
        [[0, 1, 0], [0, 1, 0], [0, 0, 0], [1, 0, 0], [1, 1, 1], [0, 1, 0]];
    let mut analyser = UnderrunAnalyser::new(3, 48000, frames.len(), 2);
    let mut found = Vec::new();
    for (frame, samples) in frames.iter().enumerate() {
        found.push(analyser.analyse(frame, samples));
    }
    assert_eq!(found[0], vec![]);
    assert_eq!(found[1], vec![]);
    assert_eq!(found[2], vec![]);
    assert_eq!(found[3], vec![Event::Underrun { channel: 0, start: 0, end: 3 }]);
    assert_eq!(
        found[4],
        vec![
            Event::Underrun { channel: 1, start: 2, end: 4 },
            Event::Underrun { channel: 2, start: 0, end: 4 },
        ]
    );
    assert_eq!(found[5], vec![]);
    assert_eq!(analyser.finish(), (ERR_CONTAINS_UNDERRUN, vec![]));
}

#[test]
fn runs_on_several_channels_are_closed_at_the_end_in_channel_order() {
    let frames: [[i32; 3]; 3] = [[1, 0, 0], [0, 1, 0], [0, 1, 0]];
    let mut analyser = UnderrunAnalyser::new(3, 48000, frames.len(), 2);
    for (frame, samples) in frames.iter().enumerate() {
        assert_eq!(analyser.analyse(frame, samples), vec![]);
    }
    assert_eq!(
        analyser.finish(),
        (
            ERR_CONTAINS_UNDERRUN,
            vec![
                Event::Underrun { channel: 0, start: 1, end: 3 },
                Event::Underrun { channel: 2, start: 0, end: 3 },
            ]
        )
    );
}

#[test]
fn an_underrun_within_the_stream_sets_the_bit_at_the_end() {
    let samples = [0, 0, 5, 5, 5];
    let mut analyser = UnderrunAnalyser::new(1, 48000, samples.len(), 2);
    assert_eq!(feed_mono(&mut analyser, &samples).len(), 1);
    assert_eq!(analyser.finish(), (ERR_CONTAINS_UNDERRUN, vec![]));
}

#[test]
fn a_stream_without_frames_is_clean() {
    let mut analyser = UnderrunAnalyser::new(2, 48000, 0, 1);
    assert_eq!(analyser.finish(), (0, vec![]));
}

#[test]
fn a_frame_is_taken_only_in_order_within_the_stream_and_of_the_right_width() {
    let mut analyser = UnderrunAnalyser::new(2, 48000, 4, 1);
    assert!(analyser.can_take(0, &[1, 1]));
    assert!(analyser.can_take(3, &[1, 1]));
    assert!(!analyser.can_take(4, &[1, 1]));
    assert!(!analyser.can_take(0, &[1]));
    assert!(!analyser.can_take(0, &[1, 1, 1]));
    analyser.analyse(1, &[1, 1]);
    assert!(!analyser.can_take(0, &[1, 1]));
    assert!(!analyser.can_take(1, &[1, 1]));
    assert!(analyser.can_take(2, &[1, 1]));
}

#[test]
fn the_underrun_analyser_has_no_part_in_the_report() {
    let mut analyser = UnderrunAnalyser::new(1, 48000, 3, 1);
    feed_mono(&mut analyser, &[0, 0, 1]);
    assert!(analyser.json().is_none());
}

#[test]
fn the_same_frames_give_the_same_reports() {
    let samples = [0, 0, 0, 1, 0, 1, 0, 0, 0, 0, 1, 0, 0];
    let mut first = UnderrunAnalyser::new(1, 8000, samples.len(), 2);
    let mut second = UnderrunAnalyser::new(1, 8000, samples.len(), 2);
    assert_eq!(feed_mono(&mut first, &samples), feed_mono(&mut second, &samples));
    assert_eq!(first.finish(), second.finish());
}

#[test]
fn reports_are_whole_runs_and_share_no_frame() {
    let samples = [0, 0, 0, 4, 0, 0, 5, 0, 6, 0, 0, 0, 0, 7, 0, 0];
    let mut analyser = UnderrunAnalyser::new(1, 8000, samples.len(), 2);
    let mut found = feed_mono(&mut analyser, &samples);
    let (code, last) = analyser.finish();
    found.extend(last);
    assert_eq!(code, ERR_CONTAINS_UNDERRUN);
    assert_eq!(
        found,
        vec![
            Event::Underrun { channel: 0, start: 0, end: 3 },
            Event::Underrun { channel: 0, start: 4, end: 6 },
            Event::Underrun { channel: 0, start: 9, end: 13 },
            Event::Underrun { channel: 0, start: 14, end: 16 },
        ]
    );
    let mut reached = 0;
    for event in &found {
        match event {
            Event::Underrun { start, end, .. } => {
                assert!(reached <= *start);
                assert!(samples[*start..*end].iter().all(|sample| *sample == 0));
                assert!(*start == 0 || samples[*start - 1] != 0);
                assert!(*end == samples.len() || samples[*end] != 0);
                reached = *end;
            }
            _ => unreachable!(),
        }
    }
}

#[test]
fn a_least_length_of_zero_is_met_by_every_run() {
    let mut analyser = UnderrunAnalyser::new(1, 8000, 3, 0);
    assert_eq!(analyser.analyse(0, &[5]), vec![Event::Underrun { channel: 0, start: 0, end: 0 }]);
    assert_eq!(analyser.analyse(1, &[0]), vec![]);
    assert_eq!(analyser.analyse(2, &[5]), vec![Event::Underrun { channel: 0, start: 1, end: 2 }]);
    assert_eq!(
        analyser.finish(),
        (ERR_CONTAINS_UNDERRUN, vec![Event::Underrun { channel: 0, start: 3, end: 3 }])
    );
}
