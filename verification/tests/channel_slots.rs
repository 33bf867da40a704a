use pipeflow::channel::{ChannelSlot, OverflowPolicy, WriteOutcome};
use pipeflow::error::PipeError;
use pipeflow::packet::Packet;
use pipeflow::version::DataVersion;

fn pkt(data: u64, ts: u128) -> Packet<u64> {
    Packet::new(data, DataVersion::new(ts))
}

#[test]
fn slot_never_exceeds_capacity() {
    let mut slot: ChannelSlot<u64> = ChannelSlot::new(3, OverflowPolicy::DropOldest);
    for i in 0..10u64 {
        let r = slot.enqueue(pkt(i, i as u128));
        assert!(r.is_ok());
        assert!(slot.len() <= 3);
    }
    assert_eq!(slot.len(), 3);
}

#[test]
fn drop_oldest_retains_most_recent_by_version() {
    let mut slot: ChannelSlot<u64> = ChannelSlot::new(3, OverflowPolicy::DropOldest);
    // Arrive out of order; the slot reorders by version.
    assert_eq!(slot.enqueue(pkt(30, 30)).unwrap(), WriteOutcome::Delivered);
    assert_eq!(slot.enqueue(pkt(10, 10)).unwrap(), WriteOutcome::Delivered);
    assert_eq!(slot.enqueue(pkt(20, 20)).unwrap(), WriteOutcome::Delivered);
    // Full: a newer packet pushes out the oldest (10).
    assert_eq!(slot.enqueue(pkt(40, 40)).unwrap(), WriteOutcome::DroppedOldest);
    let vs: Vec<u128> = slot.versions().iter().map(|v| v.timestamp_ns).collect();
    assert_eq!(vs, vec![20, 30, 40]);
    // Full: a packet older than everything buffered is itself the oldest
    // of the union and is discarded.
    assert_eq!(slot.enqueue(pkt(5, 5)).unwrap(), WriteOutcome::DroppedOldest);
    let vs: Vec<u128> = slot.versions().iter().map(|v| v.timestamp_ns).collect();
    assert_eq!(vs, vec![20, 30, 40]);
    assert_eq!(slot.dropped_count(), 2);
}

#[test]
fn drop_newest_retains_oldest_packets() {
    let mut slot: ChannelSlot<u64> = ChannelSlot::new(2, OverflowPolicy::DropNewest);
    slot.enqueue(pkt(1, 100)).unwrap();
    slot.enqueue(pkt(2, 200)).unwrap();
    assert_eq!(slot.enqueue(pkt(3, 300)).unwrap(), WriteOutcome::DroppedNewest);
    let vs: Vec<u128> = slot.versions().iter().map(|v| v.timestamp_ns).collect();
    assert_eq!(vs, vec![100, 200]);
    // An incoming packet older than the buffered newest displaces it.
    assert_eq!(slot.enqueue(pkt(4, 150)).unwrap(), WriteOutcome::DroppedNewest);
    let vs: Vec<u128> = slot.versions().iter().map(|v| v.timestamp_ns).collect();
    assert_eq!(vs, vec![100, 150]);
}

#[test]
fn block_policy_reports_full_and_keeps_contents() {
    let mut slot: ChannelSlot<u64> = ChannelSlot::new(2, OverflowPolicy::Block);
    slot.enqueue(pkt(1, 1)).unwrap();
    slot.enqueue(pkt(2, 2)).unwrap();
    assert_eq!(slot.enqueue(pkt(3, 3)).unwrap(), WriteOutcome::Full);
    assert_eq!(slot.len(), 2);
    assert_eq!(slot.dropped_count(), 0);
}

#[test]
fn write_to_closed_slot_fails_with_channel_closed() {
    let mut slot: ChannelSlot<u64> = ChannelSlot::new(2, OverflowPolicy::Block);
    slot.enqueue(pkt(1, 1)).unwrap();
    slot.close();
    let r = slot.enqueue(pkt(2, 2));
    assert_eq!(r.unwrap_err(), PipeError::ChannelClosed);
    assert_eq!(slot.len(), 1);
}

#[test]
fn consume_version_discards_stale_prefix() {
    let mut slot: ChannelSlot<u64> = ChannelSlot::new(5, OverflowPolicy::Block);
    for ts in [10u128, 20, 30, 40] {
        slot.enqueue(pkt(ts as u64, ts)).unwrap();
    }
    let got = slot.consume_version(&DataVersion::new(30)).unwrap();
    assert_eq!(got.version.timestamp_ns, 30);
    // Packets older than the consumed version are gone; newer ones stay.
    let vs: Vec<u128> = slot.versions().iter().map(|v| v.timestamp_ns).collect();
    assert_eq!(vs, vec![40]);
}

#[test]
fn consume_version_without_match_keeps_untouched_suffix() {
    let mut slot: ChannelSlot<u64> = ChannelSlot::new(5, OverflowPolicy::Block);
    slot.enqueue(pkt(1, 100)).unwrap();
    let got = slot.consume_version(&DataVersion::new(250));
    assert!(got.is_none());
    assert_eq!(slot.len(), 0); // 100 was stale against 250 and was dropped
    slot.enqueue(pkt(2, 300)).unwrap();
    let got = slot.consume_version(&DataVersion::new(250));
    assert!(got.is_none());
    assert_eq!(slot.len(), 1); // 300 is newer and stays buffered
}

#[test]
fn versions_are_ordered_regardless_of_arrival() {
    let mut slot: ChannelSlot<u64> = ChannelSlot::new(10, OverflowPolicy::Block);
    for ts in [50u128, 10, 40, 20, 30] {
        slot.enqueue(pkt(ts as u64, ts)).unwrap();
    }
    let vs: Vec<u128> = slot.versions().iter().map(|v| v.timestamp_ns).collect();
    assert_eq!(vs, vec![10, 20, 30, 40, 50]);
}

#[test]
fn version_ties_break_by_sequence_id() {
    let a = DataVersion::with_sequence(100, 1);
    let b = DataVersion::with_sequence(100, 2);
    assert!(a.lt(&b));
    assert!(!b.lt(&a));
    assert!(a.le(&b));
    let c = DataVersion::new(100);
    assert!(c.le(&a)); // an absent sequence id orders first
    assert_eq!(a.distance_ns(&DataVersion::new(40)), 60);
}
