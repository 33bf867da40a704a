use pipeflow::channel::OverflowPolicy;
use pipeflow::graph::{Graph, Metrics, NodeConfig, NodeRole, StepAction, SyncPolicy};
use pipeflow::node::{regular_step, Consumer, Processor, Producer, SourceProcessor};
use pipeflow::packet::{Packet, PacketSet2};
use pipeflow::sync::{RealTimeSynchronizer, TimestampSynchronizer};
use pipeflow::utils::FpsLimiter;
use pipeflow::version::DataVersion;

const TEXT: u64 = 1;

const MILLI: u128 = 1_000_000;

fn source(name: &str) -> NodeConfig {
    NodeConfig {
        name: name.to_string(),
        role: NodeRole::Source,
        input_tags: vec![],
        output_tags: vec![TEXT],
        capacity: 1000,
        policy: OverflowPolicy::Block,
        sync: SyncPolicy::Timestamp(TimestampSynchronizer::new(0, true)),
        failure_threshold: 3,
    }
}

fn terminal(name: &str, inputs: usize, sync: SyncPolicy) -> NodeConfig {
    NodeConfig {
        name: name.to_string(),
        role: NodeRole::Terminal,
        input_tags: vec![TEXT; inputs],
        output_tags: vec![],
        capacity: 1000,
        policy: OverflowPolicy::Block,
        sync,
        failure_threshold: 3,
    }
}

fn pkt(ts: u128) -> Packet<String> {
    Packet::new(format!("at {ts}"), DataVersion::new(ts))
}

/// Two sources emit at 10ms and 100ms periods into a windowed terminal
/// with a 1ms tolerance and no waiting: over one second the fast field is
/// always present and the slow one in one of every ten sets.
#[test]
fn fast_and_slow_producers_with_windowed_sync() {
    let window = SyncPolicy::RealTime(RealTimeSynchronizer::new(1 * MILLI, false, false));
    let mut g: Graph<String> = Graph::new(Metrics::no_metrics());
    let fast = g.register(source("fast"));
    let slow = g.register(source("slow"));
    let sink = g.register(terminal("consumer", 2, window));
    g.link(fast, 0, sink, 0).unwrap();
    g.link(slow, 0, sink, 1).unwrap();
    g.start_source_node(fast);
    g.start_source_node(slow);
    g.start_terminal_node(sink);

    let mut sets = 0u32;
    let mut fast_present = 0u32;
    let mut slow_present = 0u32;
    for tick in 0..100u128 {
        let now = tick * 10 * MILLI;
        g.write_from(fast, 0, &pkt(now)).unwrap();
        if tick % 10 == 0 {
            g.write_from(slow, 0, &pkt(now)).unwrap();
        }
        if let Some(set) = g.try_read(sink, now, false) {
            sets += 1;
            if set[0].is_some() {
                fast_present += 1;
            }
            if set[1].is_some() {
                slow_present += 1;
            }
        }
    }
    assert!(sets >= 90, "expected at least 90 combined sets, got {sets}");
    assert_eq!(fast_present, sets);
    assert_eq!(slow_present, 10);
}

/// Exact-match synchronization fed one frame on two channels, one of them
/// arriving 3ms late, emits exactly one combined set for that frame.
#[test]
fn late_arrival_yields_exactly_one_combined_set() {
    let exact = SyncPolicy::Timestamp(TimestampSynchronizer::new(0, true));
    let mut g: Graph<String> = Graph::new(Metrics::no_metrics());
    let cam1 = g.register(source("cam1"));
    let cam2 = g.register(source("cam2"));
    let sink = g.register(terminal("matcher", 2, exact));
    g.link(cam1, 0, sink, 0).unwrap();
    g.link(cam2, 0, sink, 1).unwrap();
    g.start_source_node(cam1);
    g.start_source_node(cam2);
    g.start_terminal_node(sink);

    let frame5 = 5 * MILLI;
    g.write_from(cam1, 0, &pkt(frame5)).unwrap();
    // The second channel lags: nothing is ready yet.
    assert!(g.try_read(sink, frame5, false).is_none());
    // 3ms later the frame arrives on the other channel.
    g.write_from(cam2, 0, &pkt(frame5)).unwrap();
    let set = g.try_read(sink, frame5 + 3 * MILLI, false).unwrap();
    let v1 = set[0].as_ref().unwrap().version.timestamp_ns;
    let v2 = set[1].as_ref().unwrap().version.timestamp_ns;
    assert_eq!(v1, frame5);
    assert_eq!(v2, frame5);
    // No duplicate: the frame was consumed.
    assert!(g.try_read(sink, frame5 + 4 * MILLI, false).is_none());
    assert_eq!(g.sets_emitted(sink), 1);
}

struct Doubler;

impl Processor for Doubler {
    type In1 = u64;
    type In2 = u64;
    type Out = u64;

    fn handle(
        &mut self,
        mut input: PacketSet2<u64, u64>,
    ) -> Result<Packet<u64>, pipeflow::error::PipeError> {
        let p = input.c1_owned().expect("member present");
        Ok(Packet::new(p.data * 2, p.version))
    }
}

/// A three-stage pipeline: a source feeds a regular transformer whose
/// product reaches the terminal's slot.
#[test]
fn regular_node_transforms_and_forwards() {
    let exact = SyncPolicy::Timestamp(TimestampSynchronizer::new(0, true));
    let mut g: Graph<u64> = Graph::new(Metrics::no_metrics());
    let src = g.register(NodeConfig {
        name: "numbers".to_string(),
        role: NodeRole::Source,
        input_tags: vec![],
        output_tags: vec![TEXT],
        capacity: 10,
        policy: OverflowPolicy::Block,
        sync: exact,
        failure_threshold: 3,
    });
    let doubler = g.register(NodeConfig {
        name: "doubler".to_string(),
        role: NodeRole::Regular,
        input_tags: vec![TEXT],
        output_tags: vec![TEXT],
        capacity: 10,
        policy: OverflowPolicy::Block,
        sync: exact,
        failure_threshold: 3,
    });
    let sink = g.register(NodeConfig {
        name: "sink".to_string(),
        role: NodeRole::Terminal,
        input_tags: vec![TEXT],
        output_tags: vec![],
        capacity: 10,
        policy: OverflowPolicy::Block,
        sync: exact,
        failure_threshold: 3,
    });
    g.link(src, 0, doubler, 0).unwrap();
    g.link(doubler, 0, sink, 0).unwrap();
    g.start_source_node(src);
    g.start_node(doubler);
    g.start_terminal_node(sink);

    g.write_from(src, 0, &Packet::new(21u64, DataVersion::new(5))).unwrap();
    let mut unit = Doubler;
    assert_eq!(regular_step(&mut g, doubler, 0, &mut unit, 5, false), StepAction::Continue);
    let set = g.try_read(sink, 5, false).expect("terminal input ready");
    let out = set[0].as_ref().expect("member present");
    assert_eq!(out.data, 42);
    assert_eq!(out.version.timestamp_ns, 5);
}

#[test]
fn producer_emits_greeting_at_given_time() {
    let mut p = Producer::new(10);
    let packet = p.produce(42 * MILLI);
    assert_eq!(packet.data, "I have data!");
    assert_eq!(packet.version.timestamp_ns, 42 * MILLI);
    // Through the processing-unit interface the same packet comes out.
    let generated = p.generate(43 * MILLI).unwrap();
    assert_eq!(generated.version.timestamp_ns, 43 * MILLI);
    // A 10fps producer paces to 100ms per frame.
    assert_eq!(p.pace_ns(40_000_000), 60_000_000);
    assert_eq!(p.pace_ns(200_000_000), 0);
}

#[test]
fn consumer_counts_full_and_degraded_bundles() {
    let mut c = Consumer::default();
    let full = PacketSet2::new(Some(pkt(1)), Some(pkt(1)));
    assert!(c.consume(full).is_ok());
    let degraded = PacketSet2::new(Some(pkt(2)), None);
    assert!(c.consume(degraded).is_ok());
    assert_eq!(c.received, 1);
    assert_eq!(c.unsynced, 1);
}

#[test]
fn fps_limiter_computes_remaining_wait() {
    let l = FpsLimiter::new(100);
    assert_eq!(l.interval_ns(), 10_000_000);
    assert_eq!(l.remaining_wait_ns(4_000_000), 6_000_000);
    assert_eq!(l.remaining_wait_ns(10_000_000), 0);
    assert_eq!(l.remaining_wait_ns(25_000_000), 0);
}
