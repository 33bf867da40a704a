use pipeflow::channel::OverflowPolicy;
use pipeflow::error::PipeError;
use pipeflow::graph::{
    Graph, Metrics, NodeConfig, NodeRole, ProcessOutcome, StepAction, SyncPolicy, WorkerState,
};
use pipeflow::node::classify_result;
use pipeflow::packet::Packet;
use pipeflow::sync::TimestampSynchronizer;
use pipeflow::version::DataVersion;

const TEXT: u64 = 7;

fn exact_sync() -> SyncPolicy {
    SyncPolicy::Timestamp(TimestampSynchronizer::new(0, true))
}

fn source(name: &str) -> NodeConfig {
    NodeConfig {
        name: name.to_string(),
        role: NodeRole::Source,
        input_tags: vec![],
        output_tags: vec![TEXT],
        capacity: 8,
        policy: OverflowPolicy::Block,
        sync: exact_sync(),
        failure_threshold: 3,
    }
}

fn terminal(name: &str, inputs: usize) -> NodeConfig {
    NodeConfig {
        name: name.to_string(),
        role: NodeRole::Terminal,
        input_tags: vec![TEXT; inputs],
        output_tags: vec![],
        capacity: 8,
        policy: OverflowPolicy::Block,
        sync: exact_sync(),
        failure_threshold: 3,
    }
}

fn pkt(ts: u128) -> Packet<u64> {
    Packet::new(ts as u64, DataVersion::new(ts))
}

#[test]
fn relinking_a_bound_slot_fails_and_leaves_graph_unmodified() {
    let mut g: Graph<u64> = Graph::new(Metrics::no_metrics());
    let s1 = g.register(source("one"));
    let s2 = g.register(source("two"));
    let t = g.register(terminal("sink", 1));
    assert!(g.link(s1, 0, t, 0).is_ok());
    let edges_before = g.edge_count();
    let r = g.link(s2, 0, t, 0);
    assert_eq!(r.unwrap_err(), PipeError::SlotAlreadyBound);
    assert_eq!(g.edge_count(), edges_before);
    // Even re-linking the same writer to its own slot is refused.
    let r = g.link(s1, 0, t, 0);
    assert_eq!(r.unwrap_err(), PipeError::SlotAlreadyBound);
    assert_eq!(g.edge_count(), edges_before);
}

#[test]
fn linking_incompatible_payloads_fails_with_type_mismatch() {
    let mut g: Graph<u64> = Graph::new(Metrics::no_metrics());
    let s = g.register(source("src"));
    let mut sink = terminal("sink", 1);
    sink.input_tags = vec![TEXT + 1];
    let t = g.register(sink);
    let r = g.link(s, 0, t, 0);
    assert_eq!(r.unwrap_err(), PipeError::TypeMismatch);
    assert_eq!(g.edge_count(), 0);
}

#[test]
fn stop_exits_every_worker_and_rejects_later_writes() {
    let mut g: Graph<u64> = Graph::new(Metrics::no_metrics());
    let s = g.register(source("src"));
    let t = g.register(terminal("sink", 1));
    g.link(s, 0, t, 0).unwrap();
    g.start_terminal_node(t);
    g.start_source_node(s);
    assert!(g.write_from(s, 0, &pkt(1)).is_ok());
    assert_eq!(g.input_len(t, 0), 1);

    g.stop(true);
    for id in [s, t] {
        assert_eq!(g.worker_state(id), WorkerState::Stopped);
    }
    // No write occurs after stop has returned.
    let r = g.write_from(s, 0, &pkt(2));
    assert_eq!(r.unwrap_err(), PipeError::ChannelClosed);
    assert_eq!(g.input_len(t, 0), 1);
    // Stop is idempotent.
    g.stop(true);
    assert_eq!(g.worker_state(s), WorkerState::Stopped);
}

#[test]
fn stop_without_drain_discards_in_flight_packets() {
    let mut g: Graph<u64> = Graph::new(Metrics::no_metrics());
    let s = g.register(source("src"));
    let t = g.register(terminal("sink", 1));
    g.link(s, 0, t, 0).unwrap();
    g.start_terminal_node(t);
    g.start_source_node(s);
    g.write_from(s, 0, &pkt(1)).unwrap();
    g.write_from(s, 0, &pkt(2)).unwrap();
    assert_eq!(g.input_len(t, 0), 2);
    g.stop(false);
    assert_eq!(g.input_len(t, 0), 0);
}

#[test]
fn write_fans_out_to_every_linked_slot() {
    let mut g: Graph<u64> = Graph::new(Metrics::no_metrics());
    let s = g.register(source("src"));
    let t1 = g.register(terminal("sink1", 1));
    let t2 = g.register(terminal("sink2", 1));
    g.link(s, 0, t1, 0).unwrap();
    g.link(s, 0, t2, 0).unwrap();
    g.start_source_node(s);
    g.start_terminal_node(t1);
    g.start_terminal_node(t2);
    g.write_from(s, 0, &pkt(10)).unwrap();
    assert_eq!(g.input_len(t1, 0), 1);
    assert_eq!(g.input_len(t2, 0), 1);
}

#[test]
fn write_into_stopped_reader_reports_closed_branch() {
    let mut g: Graph<u64> = Graph::new(Metrics::no_metrics());
    let s = g.register(source("src"));
    let t = g.register(terminal("sink", 1));
    g.link(s, 0, t, 0).unwrap();
    g.start_source_node(s);
    g.start_terminal_node(t);
    g.confirm_exit(t); // the reader exits; its slots close
    let outs = g.write_from(s, 0, &pkt(3)).unwrap();
    let branch = outs.iter().flatten().next().unwrap().clone();
    assert_eq!(branch.unwrap_err(), PipeError::ChannelClosed);
    assert_eq!(g.input_len(t, 0), 0);
}

#[test]
fn consecutive_failures_escalate_at_threshold() {
    let mut g: Graph<u64> = Graph::new(Metrics::no_metrics());
    let t = g.register(terminal("sink", 1));
    g.start_terminal_node(t);
    assert_eq!(g.report_outcome(t, ProcessOutcome::Recoverable), StepAction::Continue);
    assert_eq!(g.report_outcome(t, ProcessOutcome::Recoverable), StepAction::Continue);
    assert_eq!(g.consecutive_failures(t), 2);
    // A success resets the streak.
    assert_eq!(g.report_outcome(t, ProcessOutcome::Success), StepAction::Continue);
    assert_eq!(g.consecutive_failures(t), 0);
    // Three in a row reach the threshold: the node stops, alone.
    g.report_outcome(t, ProcessOutcome::Recoverable);
    g.report_outcome(t, ProcessOutcome::Recoverable);
    assert_eq!(g.report_outcome(t, ProcessOutcome::Recoverable), StepAction::NodeStopped);
    assert_eq!(g.worker_state(t), WorkerState::Stopped);
}

#[test]
fn end_of_stream_drains_the_whole_graph() {
    let mut g: Graph<u64> = Graph::new(Metrics::no_metrics());
    let s = g.register(source("src"));
    let t = g.register(terminal("sink", 1));
    g.link(s, 0, t, 0).unwrap();
    g.start_source_node(s);
    g.start_terminal_node(t);
    assert_eq!(g.report_outcome(s, ProcessOutcome::EndOfStream), StepAction::GraphDraining);
    assert_eq!(g.worker_state(s), WorkerState::Stopped);
    assert_eq!(g.worker_state(t), WorkerState::Draining);
}

#[test]
fn fatal_outcome_stops_only_the_failing_node() {
    let mut g: Graph<u64> = Graph::new(Metrics::no_metrics());
    let s = g.register(source("src"));
    let t = g.register(terminal("sink", 1));
    g.link(s, 0, t, 0).unwrap();
    g.start_source_node(s);
    g.start_terminal_node(t);
    assert_eq!(g.report_outcome(t, ProcessOutcome::Fatal), StepAction::NodeStopped);
    assert_eq!(g.worker_state(t), WorkerState::Stopped);
    assert_eq!(g.worker_state(s), WorkerState::Running);
}

#[test]
fn blocking_write_retries_only_pending_branches() {
    let mut g: Graph<u64> = Graph::new(Metrics::no_metrics());
    let s = g.register(source("src"));
    let mut one = terminal("sink1", 1);
    one.capacity = 1;
    let mut two = terminal("sink2", 1);
    two.capacity = 1;
    let t1 = g.register(one);
    let t2 = g.register(two);
    g.link(s, 0, t1, 0).unwrap();
    g.link(s, 0, t2, 0).unwrap();
    g.start_source_node(s);
    g.start_terminal_node(t1);
    g.start_terminal_node(t2);

    g.write_from(s, 0, &pkt(1)).unwrap();
    // Only the first reader consumes; the second slot stays full.
    assert!(g.try_read(t1, 1, false).is_some());

    let pending = vec![true; g.edge_count()];
    let next = g.write_retry(s, 0, &pkt(2), &pending).unwrap();
    assert_eq!(next, vec![false, true]); // one branch delivered, one blocked
    assert_eq!(g.input_len(t1, 0), 1);
    assert_eq!(g.input_len(t2, 0), 1); // still the old packet, nothing dropped
    assert_eq!(g.input_dropped(t2, 0), 0);

    // The blocked branch unblocks once its reader consumes, and the
    // already-served branch is not written twice.
    assert!(g.try_read(t2, 1, false).is_some());
    let done = g.write_retry(s, 0, &pkt(2), &next).unwrap();
    assert_eq!(done, vec![false, false]);
    assert_eq!(g.input_len(t1, 0), 1);
    assert_eq!(g.input_len(t2, 0), 1);
}

#[test]
fn best_effort_read_discards_stale_backlog_of_missing_member() {
    let mut sink = terminal("sink", 2);
    sink.sync = SyncPolicy::Timestamp(TimestampSynchronizer::new(0, false));
    let mut g: Graph<u64> = Graph::new(Metrics::no_metrics());
    let s1 = g.register(source("one"));
    let s2 = g.register(source("two"));
    let t = g.register(sink);
    g.link(s1, 0, t, 0).unwrap();
    g.link(s2, 0, t, 1).unwrap();
    g.start_source_node(s1);
    g.start_source_node(s2);
    g.start_terminal_node(t);
    g.write_from(s1, 0, &pkt(2)).unwrap();
    g.write_from(s1, 0, &pkt(9)).unwrap();
    g.write_from(s2, 0, &pkt(4)).unwrap();
    // Reference is 4, the minimum of the newest versions. The first input
    // cannot match it and resolves to missing, but its packet older than
    // the reference is discarded; the second contributes its match.
    let set = g.try_read(t, 9, false).expect("best effort emits");
    assert!(set[0].is_none());
    assert_eq!(set[1].as_ref().unwrap().version.timestamp_ns, 4);
    assert_eq!(g.input_len(t, 0), 1); // 2 discarded, 9 kept
    assert_eq!(g.input_len(t, 1), 0);
}

#[test]
fn worker_loop_classifies_each_error() {
    let ok: Result<u64, PipeError> = Ok(1);
    assert_eq!(classify_result(&ok), ProcessOutcome::Success);
    let cases = [
        (PipeError::EndOfStream, ProcessOutcome::EndOfStream),
        (PipeError::ProcessorError, ProcessOutcome::Recoverable),
        (PipeError::SynchronizationTimeout, ProcessOutcome::Recoverable),
        (PipeError::ChannelClosed, ProcessOutcome::Fatal),
        (PipeError::SlotAlreadyBound, ProcessOutcome::Fatal),
        (PipeError::TypeMismatch, ProcessOutcome::Fatal),
    ];
    for (err, outcome) in cases {
        let r: Result<u64, PipeError> = Err(err);
        assert_eq!(classify_result(&r), outcome);
    }
}

#[test]
fn unstarted_worker_neither_reads_nor_writes() {
    let mut g: Graph<u64> = Graph::new(Metrics::no_metrics());
    let s = g.register(source("src"));
    let t = g.register(terminal("sink", 1));
    g.link(s, 0, t, 0).unwrap();
    assert_eq!(g.worker_state(s), WorkerState::Idle);
    // An idle writer may not write yet...
    assert_eq!(g.write_from(s, 0, &pkt(1)).unwrap_err(), PipeError::ChannelClosed);
    // ...but a running one buffers into a reader that has not started.
    g.start_source_node(s);
    g.write_from(s, 0, &pkt(1)).unwrap();
    assert_eq!(g.input_len(t, 0), 1);
    assert!(g.try_read(t, 1, false).is_none()); // reader not started
}

#[test]
fn error_labels_are_stable() {
    assert_eq!(PipeError::ChannelClosed.describe(), "channel closed");
    assert_eq!(PipeError::SlotAlreadyBound.describe(), "slot already bound");
    assert_eq!(PipeError::TypeMismatch.describe(), "type mismatch");
    assert_eq!(PipeError::EndOfStream.describe(), "end of stream");
    assert_eq!(PipeError::ProcessorError.describe(), "processor error");
    assert_eq!(PipeError::SynchronizationTimeout.describe(), "synchronization timeout");
}
