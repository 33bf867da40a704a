use pipeflow::sync::{RealTimeSynchronizer, TimestampSynchronizer};
use pipeflow::version::DataVersion;

fn v(ts: u128) -> DataVersion {
    DataVersion::new(ts)
}

#[test]
fn exact_match_members_never_disagree() {
    let sync = TimestampSynchronizer::new(0, true);
    // Whatever the buffers hold, every present member of an emitted set
    // carries the same version.
    let cases: Vec<Vec<Vec<u128>>> = vec![
        vec![vec![5], vec![5]],
        vec![vec![3, 5, 7], vec![5, 7], vec![5]],
        vec![vec![1, 2, 3], vec![3], vec![2, 3]],
    ];
    for case in cases {
        let slots: Vec<Vec<DataVersion>> =
            case.iter().map(|s| s.iter().map(|&t| v(t)).collect()).collect();
        if let Some(picks) = sync.synchronize(&slots) {
            let versions: Vec<u128> =
                picks.iter().flatten().map(|p| p.timestamp_ns).collect();
            assert!(!versions.is_empty());
            assert!(versions.iter().all(|&t| t == versions[0]));
        }
    }
}

#[test]
fn exact_match_waits_for_lagging_channel() {
    let sync = TimestampSynchronizer::new(0, true);
    // Frame 5 has arrived on the first channel only.
    let slots = vec![vec![v(5)], vec![]];
    assert!(sync.synchronize(&slots).is_none());
    // It arrives on the second channel: exactly one combined set for 5.
    let slots = vec![vec![v(5)], vec![v(5)]];
    let picks = sync.synchronize(&slots).unwrap();
    assert_eq!(picks.len(), 2);
    assert_eq!(picks[0].unwrap().timestamp_ns, 5);
    assert_eq!(picks[1].unwrap().timestamp_ns, 5);
}

#[test]
fn exact_match_reference_is_min_of_newest() {
    let sync = TimestampSynchronizer::new(0, true);
    // Newest versions are 7 and 7; the stale 5 on the first channel does
    // not hold matching back.
    let slots = vec![vec![v(5), v(7)], vec![v(7)]];
    let picks = sync.synchronize(&slots).unwrap();
    assert_eq!(picks[0].unwrap().timestamp_ns, 7);
    assert_eq!(picks[1].unwrap().timestamp_ns, 7);
}

#[test]
fn best_effort_exact_match_marks_missing() {
    let sync = TimestampSynchronizer::new(0, false);
    let slots = vec![vec![v(9)], vec![v(4)]];
    // Reference is min of newest = 4; only the second slot matches.
    let picks = sync.synchronize(&slots).unwrap();
    assert!(picks[0].is_none());
    assert_eq!(picks[1].unwrap().timestamp_ns, 4);
}

#[test]
fn realtime_starved_slot_resolves_missing_within_one_tick() {
    // Window of 1000ns, no waiting for all slots.
    let sync = RealTimeSynchronizer::new(1000, false, false);
    // The second slot's only packet is far outside the window.
    let slots = vec![vec![v(10_000)], vec![v(500)]];
    let picks = sync.synchronize(&slots, 10_200, false).unwrap();
    assert_eq!(picks[0].unwrap().timestamp_ns, 10_000);
    assert!(picks[1].is_none());
}

#[test]
fn realtime_wait_for_all_holds_tick_until_max_wait() {
    let sync = RealTimeSynchronizer::new(1000, true, false);
    let slots = vec![vec![v(10_000)], vec![v(500)]];
    // Holding for the starved slot: nothing is emitted yet.
    assert!(sync.synchronize(&slots, 10_200, false).is_none());
    // Once the maximum wait has elapsed, emit the degraded set.
    let picks = sync.synchronize(&slots, 10_200, true).unwrap();
    assert_eq!(picks[0].unwrap().timestamp_ns, 10_000);
    assert!(picks[1].is_none());
}

#[test]
fn realtime_picks_closest_in_window() {
    let sync = RealTimeSynchronizer::new(1000, false, false);
    let slots = vec![vec![v(900), v(1100), v(1600)]];
    let picks = sync.synchronize(&slots, 1000, false).unwrap();
    // 900 and 1100 are equally close; without prefer_newest the older wins.
    assert_eq!(picks[0].unwrap().timestamp_ns, 900);

    let newest = RealTimeSynchronizer::new(1000, false, true);
    let picks = newest.synchronize(&slots, 1000, false).unwrap();
    assert_eq!(picks[0].unwrap().timestamp_ns, 1100);
}

#[test]
fn realtime_empty_slots_emit_nothing() {
    let sync = RealTimeSynchronizer::new(1000, false, false);
    let slots: Vec<Vec<DataVersion>> = vec![vec![], vec![]];
    assert!(sync.synchronize(&slots, 1000, false).is_none());
}

#[test]
fn realtime_window_boundary_is_inclusive() {
    let sync = RealTimeSynchronizer::new(1000, false, false);
    // Exactly at the window edge: still eligible.
    let slots = vec![vec![v(2000)]];
    let picks = sync.synchronize(&slots, 3000, false).unwrap();
    assert_eq!(picks[0].unwrap().timestamp_ns, 2000);
    // One nanosecond beyond: starved.
    let slots = vec![vec![v(1999)]];
    assert!(sync.synchronize(&slots, 3000, false).is_none());
}

#[test]
fn exact_match_with_tolerance_accepts_close_versions() {
    // A nearest-match window of 5ns around the reference.
    let sync = TimestampSynchronizer::new(5, true);
    let slots = vec![vec![v(100)], vec![v(103)]];
    let picks = sync.synchronize(&slots).unwrap();
    // Reference is 100 (minimum of newest); the second slot contributes
    // its packet at distance 3.
    assert_eq!(picks[0].unwrap().timestamp_ns, 100);
    assert_eq!(picks[1].unwrap().timestamp_ns, 103);
}
