use audioscan::analysers::silence::{SilenceAnalyser, SilenceError};
use audioscan::analysers::tracker::{Segment, SilenceTracker};
use audioscan::analysers::{Analyser, Event};
use audioscan::json::SilenceSegment;
use audioscan::loudness::Loudness;
use audioscan::meter::Measurement;
use audioscan::states::SilenceState;
use audioscan::ERR_CONTAINS_SILENCE;

fn lufs(value: f64) -> Loudness {
    Loudness::from_bits(value.to_bits()).unwrap()
}

fn reading(short_term: f64) -> Measurement {
    Measurement::Reading { short_term: lufs(short_term), integrated: lufs(-23.0) }
}

/// A tracker with the threshold -70 LUFS and 99 percent, as the defaults are.
fn tracker(num_frames: usize) -> SilenceTracker {
    SilenceTracker::new(48000, lufs(-70.0), 99, num_frames)
}

#[test]
fn a_new_state_is_loud() {
    let state = SilenceState::new();
    assert_eq!(state.previous_lufs.to_bits(), 0.0f64.to_bits());
    assert_eq!(state.silence_start_frame, 0);
    assert_eq!(state.silence_end_frame, 0);
}

#[test]
fn a_new_tracker_has_found_nothing() {
    let tracker = tracker(1000);
    assert_eq!(tracker.silent_frames(), 0);
    assert_eq!(tracker.next_frame(), 0);
    assert_eq!(tracker.num_frames(), 1000);
    assert!(!tracker.is_finished());
    assert!(tracker.segments().is_empty());
    assert_eq!(tracker.state(), SilenceState::new());
    assert!(tracker.json().is_none());
}

#[test]
fn a_window_at_the_threshold_is_not_silent() {
    let mut tracker = tracker(1000);
    assert_eq!(
        tracker.observe(99, reading(-71.0)),
        Some(Event::SilenceStart { frame: 99, short_term: lufs(-71.0), integrated: lufs(-23.0) })
    );
    assert_eq!(
        tracker.observe(199, reading(-70.0)),
        Some(Event::SilenceEnd {
            frame: 199,
            short_term: lufs(-70.0),
            integrated: lufs(-23.0),
            silent_frames: 100,
            total_frames: 1000
        })
    );
    assert_eq!(tracker.observe(299, reading(-69.0)), None);
    assert_eq!(tracker.segments().clone(), vec![Segment { start: 99, end: Some(199) }]);
    assert_eq!(tracker.silent_frames(), 100);
}

#[test]
fn a_first_window_at_the_threshold_opens_nothing() {
    let mut tracker = tracker(1000);
    assert_eq!(tracker.observe(99, reading(-70.0)), None);
    assert!(tracker.segments().is_empty());
    assert_eq!(tracker.finish(lufs(-23.0)), (0, None));
}

#[test]
fn silence_that_goes_on_opens_no_second_stretch() {
    let mut tracker = tracker(1000);
    assert!(tracker.observe(99, reading(-80.0)).is_some());
    assert_eq!(tracker.observe(199, reading(-90.0)), None);
    assert_eq!(tracker.observe(299, reading(f64::NEG_INFINITY)), None);
    assert_eq!(tracker.segments().clone(), vec![Segment { start: 99, end: None }]);
    assert_eq!(tracker.silent_frames(), 0);
    assert_eq!(
        tracker.state(),
        SilenceState {
            previous_lufs: lufs(f64::NEG_INFINITY),
            silence_start_frame: 99,
            silence_end_frame: 0
        }
    );
}

#[test]
fn stretches_are_kept_in_order_and_their_frames_are_added_up() {
    let mut tracker = tracker(1000);
    tracker.observe(99, reading(-80.0));
    tracker.observe(199, reading(-20.0));
    tracker.observe(299, reading(-20.0));
    tracker.observe(399, reading(-75.0));
    tracker.observe(499, reading(-75.0));
    let ended = tracker.observe(599, reading(-10.0));
    assert_eq!(
        ended,
        Some(Event::SilenceEnd {
            frame: 599,
            short_term: lufs(-10.0),
            integrated: lufs(-23.0),
            silent_frames: 300,
            total_frames: 1000
        })
    );
    assert_eq!(
        tracker.segments().clone(),
        vec![Segment { start: 99, end: Some(199) }, Segment { start: 399, end: Some(599) }]
    );
    assert_eq!(tracker.silent_frames(), 300);
    assert_eq!(tracker.state().silence_start_frame, 399);
    assert_eq!(tracker.state().silence_end_frame, 599);
    assert_eq!(tracker.finish(lufs(-23.0)), (0, None));
    assert_eq!(tracker.silent_frames(), 300);
}

#[test]
fn a_window_that_failed_tells_nothing() {
    let mut tracker = tracker(1000);
    tracker.observe(99, reading(-80.0));
    let state = tracker.state();
    assert_eq!(
        tracker.observe(199, Measurement::Failed),
        Some(Event::MeasurementFailed { frame: 199 })
    );
    assert_eq!(tracker.state(), state);
    assert_eq!(tracker.segments().clone(), vec![Segment { start: 99, end: None }]);
    assert_eq!(tracker.next_frame(), 200);
    assert!(tracker.observe(299, reading(-20.0)).is_some());
    assert_eq!(tracker.segments().clone(), vec![Segment { start: 99, end: Some(299) }]);
}

#[test]
fn silence_that_lasts_is_ended_at_the_end_of_the_stream() {
    let mut tracker = tracker(1000);
    tracker.observe(99, reading(-20.0));
    tracker.observe(199, reading(-80.0));
    let (code, event) = tracker.finish(lufs(-30.0));
    assert_eq!(code, 0);
    assert_eq!(
        event,
        Some(Event::SilenceEnd {
            frame: 1000,
            short_term: lufs(-80.0),
            integrated: lufs(-30.0),
            silent_frames: 801,
            total_frames: 1000
        })
    );
    assert_eq!(tracker.segments().clone(), vec![Segment { start: 199, end: Some(1000) }]);
    assert_eq!(tracker.silent_frames(), 801);
    assert_eq!(tracker.state().silence_end_frame, 1000);
    assert!(tracker.is_finished());
}

#[test]
fn the_end_of_the_stream_counts_as_a_loud_window_would() {
    let mut ended_by_stream = tracker(1000);
    ended_by_stream.observe(99, reading(-80.0));
    ended_by_stream.observe(599, reading(-20.0));
    ended_by_stream.observe(899, reading(-80.0));
    ended_by_stream.finish(lufs(-23.0));

    let mut ended_by_window = tracker(1001);
    ended_by_window.observe(99, reading(-80.0));
    ended_by_window.observe(599, reading(-20.0));
    ended_by_window.observe(899, reading(-80.0));
    ended_by_window.observe(1000, reading(-20.0));

    assert_eq!(ended_by_stream.silent_frames(), ended_by_window.silent_frames());
    assert_eq!(ended_by_stream.segments(), ended_by_window.segments());
    assert_eq!(ended_by_stream.silent_frames(), 601);
}

#[test]
fn a_stream_that_is_all_silent_fails() {
    let mut tracker = tracker(100);
    tracker.observe(0, reading(-80.0));
    tracker.observe(50, reading(-80.0));
    let (code, event) = tracker.finish(lufs(-80.0));
    assert_eq!(code, ERR_CONTAINS_SILENCE);
    assert!(event.is_some());
    assert_eq!(tracker.silent_frames(), 100);
}

#[test]
fn a_stream_that_is_half_silent_passes() {
    let mut tracker = tracker(100);
    tracker.observe(0, reading(-20.0));
    tracker.observe(50, reading(-80.0));
    let (code, event) = tracker.finish(lufs(-40.0));
    assert_eq!(code, 0);
    assert!(event.is_some());
    assert_eq!(tracker.silent_frames(), 50);
}

#[test]
fn the_share_is_met_exactly_at_the_percentage() {
    let mut over = SilenceTracker::new(48000, lufs(-70.0), 99, 1000);
    over.observe(9, reading(-80.0));
    assert_eq!(over.finish(lufs(-80.0)).0, ERR_CONTAINS_SILENCE);
    assert_eq!(over.silent_frames(), 991);

    let mut at = SilenceTracker::new(48000, lufs(-70.0), 99, 1000);
    at.observe(10, reading(-80.0));
    assert_eq!(at.finish(lufs(-80.0)).0, ERR_CONTAINS_SILENCE);
    assert_eq!(at.silent_frames(), 990);

    let mut under = SilenceTracker::new(48000, lufs(-70.0), 99, 1000);
    under.observe(11, reading(-80.0));
    assert_eq!(under.finish(lufs(-80.0)).0, 0);
    assert_eq!(under.silent_frames(), 989);
}

#[test]
fn the_share_counts_also_when_the_stream_ends_loud() {
    let mut tracker = SilenceTracker::new(48000, lufs(-70.0), 50, 1000);
    tracker.observe(99, reading(-80.0));
    tracker.observe(799, reading(-20.0));
    assert_eq!(tracker.finish(lufs(-30.0)), (ERR_CONTAINS_SILENCE, None));
}

#[test]
fn a_stream_without_frames_passes() {
    let mut tracker = SilenceTracker::new(48000, lufs(-70.0), 0, 0);
    assert_eq!(tracker.finish(lufs(-80.0)), (0, None));
}

#[test]
fn a_threshold_above_zero_makes_the_stream_silent_from_the_start() {
    let mut tracker = SilenceTracker::new(48000, lufs(1.0), 99, 100);
    assert_eq!(tracker.observe(9, reading(-10.0)), None);
    assert!(tracker.segments().is_empty());
    let (code, event) = tracker.finish(lufs(-10.0));
    assert_eq!(code, ERR_CONTAINS_SILENCE);
    assert!(event.is_some());
    assert_eq!(tracker.silent_frames(), 100);
    assert!(tracker.segments().is_empty());
    assert!(tracker.json().is_none());
}

#[test]
fn no_stretch_no_part_in_the_report() {
    let mut tracker = tracker(1000);
    tracker.observe(99, reading(-20.0));
    tracker.observe(199, reading(-30.0));
    tracker.finish(lufs(-25.0));
    assert!(tracker.json().is_none());
}

#[test]
fn the_report_lists_every_stretch() {
    let mut tracker = SilenceTracker::new(44100, lufs(-60.0), 99, 1000);
    tracker.observe(99, reading(-80.0));
    tracker.observe(199, reading(-20.0));
    tracker.observe(399, reading(-75.0));
    let (name, report) = tracker.json().unwrap();
    assert_eq!(name, "silence");
    assert_eq!(report.threshold, lufs(-60.0));
    assert_eq!(report.sample_rate, 44100);
    assert_eq!(
        report.results,
        vec![
            SilenceSegment { start_sample: 99, end_sample: 199, duration_samples: 100 },
            SilenceSegment { start_sample: 399, end_sample: 1000, duration_samples: 601 },
        ]
    );
    tracker.finish(lufs(-30.0));
    let (_, after) = tracker.json().unwrap();
    assert_eq!(after.results, report.results);
}

#[test]
fn windows_are_taken_in_order_until_the_stream_has_ended() {
    let mut tracker = tracker(1000);
    assert!(tracker.can_observe(0));
    assert!(tracker.can_observe(999));
    assert!(!tracker.can_observe(1000));
    tracker.observe(500, reading(-20.0));
    assert!(!tracker.can_observe(500));
    assert!(tracker.can_observe(501));
    tracker.finish(lufs(-20.0));
    assert!(!tracker.can_observe(501));
}

#[test]
fn the_same_windows_give_the_same_reports() {
    let windows = [(99, -80.0), (199, -20.0), (299, -70.0), (399, -70.5), (499, -90.0)];
    let mut first = tracker(1000);
    let mut second = tracker(1000);
    for (frame, value) in windows {
        assert_eq!(first.observe(frame, reading(value)), second.observe(frame, reading(value)));
    }
    assert_eq!(first.finish(lufs(-40.0)), second.finish(lufs(-40.0)));
    assert_eq!(first.segments(), second.segments());
}

#[test]
fn an_analyser_is_made_for_what_the_meter_takes() {
    assert!(SilenceAnalyser::new(2, 48000, 100, lufs(-70.0), 99).is_ok());
    assert!(SilenceAnalyser::new(1, 16, 100, lufs(-70.0), 99).is_ok());
    assert!(SilenceAnalyser::new(64, 16, 100, lufs(-70.0), 99).is_ok());
    assert!(SilenceAnalyser::new(1, 2822400, 100, lufs(-70.0), 99).is_ok());
}

#[test]
fn an_analyser_is_not_made_for_what_the_meter_refuses() {
    let refused = |channels: u16, rate: i32| {
        matches!(
            SilenceAnalyser::new(channels, rate, 100, lufs(-70.0), 99),
            Err(SilenceError::MeterUnavailable)
        )
    };
    assert!(refused(0, 48000));
    assert!(refused(65, 48000));
    assert!(refused(u16::MAX, 48000));
    assert!(refused(2, 15));
    assert!(refused(2, 0));
    assert!(refused(2, 2822401));
    assert!(refused(2, i32::MAX));
    assert!(refused(2, -1));
    assert!(refused(2, -48000));
    assert!(refused(2, i32::MIN));
}

#[test]
fn a_new_analyser_waits_for_its_first_frame() {
    let analyser = SilenceAnalyser::new(2, 48000, 100, lufs(-70.0), 99).ok().unwrap();
    assert_eq!(analyser.next_frame(), 0);
    assert_eq!(analyser.channels(), 2);
    assert_eq!(analyser.tracker().num_frames(), 100);
    assert!(analyser.tracker().segments().is_empty());
    assert!(analyser.can_take(0, &[0, 0]));
    assert!(!analyser.can_take(0, &[0]));
    assert!(!analyser.can_take(100, &[0, 0]));
    assert!(analyser.can_finish());
}

/// A square wave at full scale, loud by any measure.
fn loud(frame: usize) -> i32 {
    if (frame / 20) % 2 == 0 {
        i32::MAX / 2
    } else {
        -(i32::MAX / 2)
    }
}

#[test]
fn digital_silence_is_found_window_by_window() {
    let rate: usize = 8000;
    let total = 4 * rate;
    let mut analyser = SilenceAnalyser::new(2, 8000, total, lufs(-70.0), 99).ok().unwrap();
    let mut found = Vec::new();
    for frame in 0..total {
        let sample = if frame < rate || frame >= 3 * rate { loud(frame) } else { 0 };
        assert!(analyser.can_take(frame, &[sample, sample]));
        for event in analyser.analyse(frame, &[sample, sample]) {
            found.push(event);
        }
    }
    assert_eq!(found.len(), 2);
    assert!(matches!(found[0], Event::SilenceStart { frame: 15999, .. }));
    match found[0] {
        Event::SilenceStart { short_term, .. } => assert_eq!(short_term, Loudness::neg_infinity()),
        _ => unreachable!(),
    }
    assert!(matches!(
        found[1],
        Event::SilenceEnd { frame: 31999, silent_frames: 16000, total_frames: 32000, .. }
    ));
    match found[1] {
        Event::SilenceEnd { short_term, integrated, .. } => {
            assert!(lufs(-70.0).is_below(&short_term));
            assert!(short_term.is_below(&lufs(10.0)));
            assert!(integrated.is_below(&lufs(10.0)));
        }
        _ => unreachable!(),
    }
    assert_eq!(
        analyser.tracker().segments().clone(),
        vec![Segment { start: 15999, end: Some(31999) }]
    );
    let (code, events) = analyser.finish();
    assert_eq!(code, 0);
    assert_eq!(events, vec![]);
    assert!(!analyser.can_finish());
    let (name, report) = analyser.json().unwrap();
    assert_eq!(name, "silence");
    assert_eq!(
        report.results,
        vec![SilenceSegment { start_sample: 15999, end_sample: 31999, duration_samples: 16000 }]
    );
}

#[test]
fn a_window_that_is_not_full_at_the_end_is_dropped() {
    let rate: usize = 8000;
    let total = 2 * rate + 7999;
    let mut analyser = SilenceAnalyser::new(1, 8000, total, lufs(-70.0), 99).ok().unwrap();
    let mut found = Vec::new();
    for frame in 0..total {
        let sample = if frame < 2 * rate { loud(frame) } else { 0 };
        found.extend(analyser.analyse(frame, &[sample]));
    }
    assert_eq!(found, vec![]);
    assert_eq!(analyser.finish(), (0, vec![]));
    assert!(analyser.json().is_none());
}

#[test]
fn a_window_that_the_meter_cannot_put_a_number_to_is_left_out() {
    let rate: usize = 1000;
    let total = 2 * rate;
    let mut analyser = SilenceAnalyser::new(1, 1000, total, lufs(-70.0), 99).ok().unwrap();
    let mut found = Vec::new();
    for frame in 0..total {
        let sample = if frame < rate { 0 } else { loud(frame) };
        found.extend(analyser.analyse(frame, &[sample]));
    }
    assert_eq!(found.len(), 2);
    assert!(matches!(found[0], Event::SilenceStart { frame: 999, .. }));
    assert_eq!(found[1], Event::MeasurementFailed { frame: 1999 });
    assert_eq!(analyser.tracker().segments().clone(), vec![Segment { start: 999, end: None }]);
}

#[test]
fn a_silent_stream_fails_when_it_is_long_enough() {
    let rate: usize = 16;
    let total = 100 * rate;
    let mut analyser = SilenceAnalyser::new(1, 16, total, lufs(-70.0), 99).ok().unwrap();
    let mut found = Vec::new();
    for frame in 0..total {
        found.extend(analyser.analyse(frame, &[0]));
    }
    assert_eq!(found.len(), 1);
    assert!(matches!(found[0], Event::SilenceStart { frame: 15, .. }));
    let (code, events) = analyser.finish();
    assert_eq!(code, ERR_CONTAINS_SILENCE);
    assert_eq!(events.len(), 1);
    assert!(matches!(
        events[0],
        Event::SilenceEnd { frame: 1600, silent_frames: 1585, total_frames: 1600, .. }
    ));
}

#[test]
fn every_silent_frame_is_counted_once() {
    let total = 5000;
    let windows = [
        (99, -80.0), (199, -90.0), (299, -20.0), (399, -70.0), (499, -70.5), (599, -71.0),
        (699, -10.0), (799, -100.0), (899, -3.0), (999, -75.0), (1099, -75.0),
    ];
    let mut tracker = tracker(total);
    for (frame, value) in windows {
        tracker.observe(frame, reading(value));
    }
    tracker.finish(lufs(-30.0));
    let segments = tracker.segments().clone();
    assert_eq!(
        segments,
        vec![
            Segment { start: 99, end: Some(299) },
            Segment { start: 499, end: Some(699) },
            Segment { start: 799, end: Some(899) },
            Segment { start: 999, end: Some(5000) },
        ]
    );
    let mut silent = 0;
    let mut loud = 0;
    let mut reached = 0;
    for segment in &segments {
        let end = segment.end.unwrap();
        assert!(reached <= segment.start);
        assert!(segment.start <= end);
        loud += segment.start - reached;
        silent += end - segment.start;
        reached = end;
    }
    loud += total - reached;
    assert_eq!(silent, tracker.silent_frames());
    assert_eq!(silent, 4501);
    assert_eq!(silent + loud, total);
}
