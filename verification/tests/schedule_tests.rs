//! The prequential cadence: refused configurations, sampling beats, and
//! the snapshot points of a bounded run.
use rivu::schedule::{ConfigError, PrequentialSchedule};

#[test]
fn ctor_guards() {
    let err = PrequentialSchedule::new(0, 5).unwrap_err();
    assert_eq!(err, ConfigError::ZeroSampleFrequency);

    let err = PrequentialSchedule::new(5, 0).unwrap_err();
    assert_eq!(err, ConfigError::ZeroMemCheckFrequency);

    assert!(PrequentialSchedule::new(5, 3).is_ok());
}

#[test]
fn snapshot_frequency_math() {
    // twelve instances sampled every five: snapshots after the fifth and
    // tenth, and the final one that closes the run
    let s = PrequentialSchedule::new(5, 1).unwrap();
    let points = s.snapshot_points(12);
    assert_eq!(points, vec![5, 10, 12]);
    assert_eq!(points.len(), 3);
    assert_eq!(*points.last().unwrap(), 12);
}

#[test]
fn periodic_and_final_snapshots() {
    // one hundred instances sampled every ten: ten periodic snapshots and
    // the closing one
    let s = PrequentialSchedule::new(10, 7).unwrap();
    let points = s.snapshot_points(100);
    assert_eq!(points.len(), 11);
    assert_eq!(*points.last().unwrap(), 100);
    for (i, p) in points.iter().take(10).enumerate() {
        assert_eq!(*p, 10 * (i as u64 + 1));
    }
}

#[test]
fn stops_at_max_instances() {
    let s = PrequentialSchedule::new(5, 3).unwrap();
    assert!(!s.should_stop(24, Some(25)));
    assert!(s.should_stop(25, Some(25)));
    assert!(!s.should_stop(1_000_000, None));
    let points = s.snapshot_points(25);
    assert_eq!(points.len(), 6);
    assert_eq!(*points.last().unwrap(), 25);
}

#[test]
fn sampling_beats_follow_the_periods() {
    let s = PrequentialSchedule::new(10, 4).unwrap();
    assert!(s.snapshot_due(10));
    assert!(!s.snapshot_due(11));
    assert!(s.mem_check_due(8));
    assert!(!s.mem_check_due(9));
}

#[test]
fn a_run_of_nothing_still_closes_with_one_snapshot() {
    let s = PrequentialSchedule::new(10, 10).unwrap();
    let points = s.snapshot_points(0);
    assert_eq!(points, vec![0]);
}
