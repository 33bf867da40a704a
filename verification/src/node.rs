//! Processing units and the body of a node's scheduling loop.
//!
//! A processing unit is exclusively owned and mutated by its single
//! worker; implementations need no internal locking. The step functions
//! here are the per-iteration decisions of a worker loop: obtain an input,
//! invoke the unit, classify the result, and apply the loop policy through
//! the graph.

use vstd::prelude::*;

use crate::error::PipeError;
use crate::graph::Graph;
use crate::graph::ProcessOutcome;
use crate::graph::StepAction;
use crate::graph::WorkerState;
use crate::packet::Packet;
use crate::packet::PacketSet2;
use crate::utils::FpsLimiter;
use crate::version::DataVersion;

verus! {

/// A unit that produces packets with no input; it may self-rate-limit.
pub trait SourceProcessor {
    type Out;

    /// One generation step at the given wall-clock time, or
    /// `EndOfStream` when the source is exhausted.
    fn generate(&mut self, now_ns: u128) -> Result<Packet<Self::Out>, PipeError>;
}

/// A unit that turns one combined input into one output packet; a pure
/// function of its inputs plus its own mutable state.
pub trait Processor {
    type In1;

    type In2;

    type Out;

    fn handle(&mut self, input: PacketSet2<Self::In1, Self::In2>) -> Result<
        Packet<Self::Out>,
        PipeError,
    >;
}

/// A unit whose effects stay outside the graph: it consumes combined
/// inputs and produces nothing downstream.
pub trait TerminalProcessor {
    type In1;

    type In2;

    fn handle(&mut self, input: PacketSet2<Self::In1, Self::In2>) -> Result<(), PipeError>;
}

/// How a worker loop classifies what a source's generation step returned:
/// exhaustion drains the graph, a processor error is recoverable, and a
/// build- or channel-level error is fatal for the node.
pub fn classify_result<U>(r: &Result<U, PipeError>) -> (o: ProcessOutcome)
    ensures
        r is Ok ==> o == ProcessOutcome::Success,
        r == Err::<U, PipeError>(PipeError::EndOfStream) ==> o == ProcessOutcome::EndOfStream,
        r == Err::<U, PipeError>(PipeError::ProcessorError) ==> o == ProcessOutcome::Recoverable,
        r == Err::<U, PipeError>(PipeError::SynchronizationTimeout) ==> o
            == ProcessOutcome::Recoverable,
        r == Err::<U, PipeError>(PipeError::ChannelClosed) ==> o == ProcessOutcome::Fatal,
        r == Err::<U, PipeError>(PipeError::SlotAlreadyBound) ==> o == ProcessOutcome::Fatal,
        r == Err::<U, PipeError>(PipeError::TypeMismatch) ==> o == ProcessOutcome::Fatal,
    {
    match r {
        Ok(_) => ProcessOutcome::Success,
        Err(PipeError::EndOfStream) => ProcessOutcome::EndOfStream,
        Err(PipeError::ProcessorError) => ProcessOutcome::Recoverable,
        Err(PipeError::SynchronizationTimeout) => ProcessOutcome::Recoverable,
        Err(PipeError::ChannelClosed) => ProcessOutcome::Fatal,
        Err(PipeError::SlotAlreadyBound) => ProcessOutcome::Fatal,
        Err(PipeError::TypeMismatch) => ProcessOutcome::Fatal,
    }
}

/// One iteration of a source node's worker: invoke the unit, fan its
/// packet out on the given port, and apply the loop policy to the
/// classified result. A worker that is not running — draining sources
/// stop producing — does nothing. The graph invariant survives every
/// iteration.
pub fn source_step<T, P: SourceProcessor<Out = T>>(
    graph: &mut Graph<T>,
    id: usize,
    port: usize,
    unit: &mut P,
    now_ns: u128,
) -> (r: StepAction) where T: Clone
    requires
        old(graph).wf(),
        id < old(graph).spec_nodes().len(),
        port < old(graph).spec_nodes()[id as int].output_tags@.len(),
    ensures
        final(graph).wf(),
        final(graph).spec_nodes().len() == old(graph).spec_nodes().len(),
        final(graph).spec_edges() == old(graph).spec_edges(),
        crate::graph::spec_same_identity(
            old(graph).spec_nodes()[id as int],
            final(graph).spec_nodes()[id as int],
        ),
        !(old(graph).spec_nodes()[id as int].worker is Running) ==> r == StepAction::Continue
            && *final(graph) == *old(graph),
{
    let w = graph.worker_state(id);
    if w != WorkerState::Running {
        return StepAction::Continue;
    }
    let produced = unit.generate(now_ns);
    let outcome = classify_result(&produced);
    if let Ok(packet) = produced {
        let _ = graph.write_from(id, port, &packet);
    }
    graph.report_outcome(id, outcome)
}

/// One iteration of a regular node's worker: obtain a combined input,
/// transform it, fan the product out on the given port, and apply the
/// loop policy to the classified result.
pub fn regular_step<T, P: Processor<In1 = T, In2 = T, Out = T>>(
    graph: &mut Graph<T>,
    id: usize,
    port: usize,
    unit: &mut P,
    now_ns: u128,
    max_wait_elapsed: bool,
) -> (r: StepAction) where T: Clone
    requires
        old(graph).wf(),
        id < old(graph).spec_nodes().len(),
        port < old(graph).spec_nodes()[id as int].output_tags@.len(),
    ensures
        final(graph).wf(),
        final(graph).spec_nodes().len() == old(graph).spec_nodes().len(),
        final(graph).spec_edges() == old(graph).spec_edges(),
        !(old(graph).spec_nodes()[id as int].worker is Running || old(
            graph,
        ).spec_nodes()[id as int].worker is Draining) ==> r == StepAction::Continue && *final(graph)
            == *old(graph),
{
    let set = graph.try_read(id, now_ns, max_wait_elapsed);
    match set {
        None => StepAction::Continue,
        Some(mut members) => {
            let first = if members.len() >= 1 {
                members.remove(0)
            } else {
                None
            };
            let second = if members.len() >= 1 {
                members.remove(0)
            } else {
                None
            };
            let produced = unit.handle(PacketSet2::new(first, second));
            let outcome = classify_result(&produced);
            if let Ok(packet) = produced {
                let _ = graph.write_from(id, port, &packet);
            }
            graph.report_outcome(id, outcome)
        },
    }
}

/// One iteration of a terminal node's worker: ask the synchronizer for a
/// combined input over the node's two slots, hand it to the unit, and
/// apply the loop policy to the classified result. `Continue` without a
/// ready input is the non-error "not ready" state.
pub fn terminal_step<T, P: TerminalProcessor<In1 = T, In2 = T>>(
    graph: &mut Graph<T>,
    id: usize,
    unit: &mut P,
    now_ns: u128,
    max_wait_elapsed: bool,
) -> (r: StepAction)
    requires
        old(graph).wf(),
        id < old(graph).spec_nodes().len(),
    ensures
        final(graph).wf(),
        final(graph).spec_nodes().len() == old(graph).spec_nodes().len(),
        final(graph).spec_edges() == old(graph).spec_edges(),
        !(old(graph).spec_nodes()[id as int].worker is Running || old(
            graph,
        ).spec_nodes()[id as int].worker is Draining) ==> r == StepAction::Continue && *final(graph)
            == *old(graph),
{
    let set = graph.try_read(id, now_ns, max_wait_elapsed);
    match set {
        None => StepAction::Continue,
        Some(mut members) => {
            let first = if members.len() >= 1 {
                members.remove(0)
            } else {
                None
            };
            let second = if members.len() >= 1 {
                members.remove(0)
            } else {
                None
            };
            let outcome = classify_result(&unit.handle(PacketSet2::new(first, second)));
            graph.report_outcome(id, outcome)
        },
    }
}

/// The producer of the two-source demonstration pipeline: it emits a
/// greeting string at the current time, paced by its rate limiter.
pub struct Producer {
    fps_limiter: FpsLimiter,
}

impl Producer {
    pub fn new(fps: usize) -> (p: Producer)
        requires
            fps >= 1,
        ensures
            p.spec_limiter().spec_interval_ns() == 1000u64 / (fps as u64) * 1000000,
    {
        let fps_limiter = FpsLimiter::new(fps);
        Producer { fps_limiter }
    }

    pub closed spec fn spec_limiter(self) -> FpsLimiter {
        self.fps_limiter
    }

    /// How long the worker should sleep after a step, given the time the
    /// step took.
    pub fn pace_ns(&self, elapsed_ns: u64) -> (n: u64)
        ensures
            elapsed_ns < self.spec_limiter().spec_interval_ns() ==> n
                == self.spec_limiter().spec_interval_ns() - elapsed_ns,
            elapsed_ns >= self.spec_limiter().spec_interval_ns() ==> n == 0,
    {
        self.fps_limiter.remaining_wait_ns(elapsed_ns)
    }

    /// The packet one generation step emits at time `now_ns`.
    pub fn produce(&mut self, now_ns: u128) -> (p: Packet<String>)
        ensures
            p.version.timestamp_ns == now_ns,
            p.version.sequence is None,
            p.data@ == "I have data!"@,
    {
        Packet::new(greeting(), DataVersion::new(now_ns))
    }
}

/// The payload every producer step emits.
fn greeting() -> (s: String)
    ensures
        s@ == "I have data!"@,
{
    let s = "I have data!";
    s.to_owned()
}

impl SourceProcessor for Producer {
    type Out = String;

    fn generate(&mut self, now_ns: u128) -> Result<Packet<String>, PipeError> {
        Ok(self.produce(now_ns))
    }
}

/// The terminal of the demonstration pipeline: it consumes synchronized
/// string pairs and keeps count of full and degraded bundles.
pub struct Consumer {
    /// Bundles with both members present.
    pub received: u64,
    /// Bundles with a missing member (channels not in sync).
    pub unsynced: u64,
}

impl Default for Consumer {
    fn default() -> (c: Consumer)
        ensures
            c.received == 0,
            c.unsynced == 0,
    {
        Consumer { received: 0, unsynced: 0 }
    }
}

impl Consumer {
    /// Consumes one combined input: a full pair counts as received, a
    /// degraded one as unsynced. Never fails: a mismatch is only worth
    /// reporting, not aborting over.
    pub fn consume(&mut self, input: PacketSet2<String, String>) -> (r: Result<(), PipeError>)
        ensures
            r is Ok,
            (input.spec_c1() is Some && input.spec_c2() is Some) ==> final(self).received
                == crate::channel::spec_saturating_inc(old(self).received) && final(self).unsynced
                == old(self).unsynced,
            !(input.spec_c1() is Some && input.spec_c2() is Some) ==> final(self).unsynced
                == crate::channel::spec_saturating_inc(old(self).unsynced) && final(self).received
                == old(self).received,
    {
        let mut bundle = input;
        let s1 = bundle.c1_owned();
        let s2 = bundle.c2_owned();
        if s1.is_some() && s2.is_some() {
            self.received = crate::channel::saturating_inc(self.received);
        } else {
            self.unsynced = crate::channel::saturating_inc(self.unsynced);
        }
        Ok(())
    }
}

impl TerminalProcessor for Consumer {
    type In1 = String;

    type In2 = String;

    fn handle(&mut self, input: PacketSet2<String, String>) -> Result<(), PipeError> {
        self.consume(input)
    }
}

} // verus!
