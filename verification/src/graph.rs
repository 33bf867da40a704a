//! The graph: nodes, their input slots, links, and the lifecycle.
//!
//! The graph owns every node and every channel slot. Links are made at
//! build time and type-checked by payload tag; each reader slot has exactly
//! one upstream edge, while one writer port may fan out to many slots.
//! Workers are modelled by a per-node state: the runtime drives them
//! through `try_read`, `write_from` and `report_outcome`, and `stop`
//! brings every worker to rest.

use vstd::prelude::*;

use crate::channel::ChannelSlot;
use crate::channel::OverflowPolicy;
use crate::channel::WriteOutcome;
use crate::error::PipeError;
use crate::packet::Packet;
use crate::sync::RealTimeSynchronizer;
use crate::sync::TimestampSynchronizer;
use crate::version::DataVersion;
use vstd::pervasive::VecAdditionalExecFns;

verus! {

/// What a node does: produce with no input, transform, or consume.
#[derive(Clone, Copy, Debug, PartialEq, Eq, Structural)]
pub enum NodeRole {
    Source,
    Regular,
    Terminal,
}

/// The life of a node's dedicated worker. `Draining` is a worker that has
/// seen the stop signal and may finish in-flight work before exiting.
#[derive(Clone, Copy, Debug, PartialEq, Eq, Structural)]
pub enum WorkerState {
    Idle,
    Running,
    Draining,
    Stopped,
}

/// The synchronization policy injected into one node.
#[derive(Clone, Copy, Debug, PartialEq, Eq, Structural)]
pub enum SyncPolicy {
    Timestamp(TimestampSynchronizer),
    RealTime(RealTimeSynchronizer),
}

/// One directed link from a writer port to a reader slot.
#[derive(Clone, Copy, Debug, PartialEq, Eq, Structural)]
pub struct Edge {
    pub from_node: usize,
    pub from_port: usize,
    pub to_node: usize,
    pub to_input: usize,
    /// Index of the reader slot in the graph's flat slot store.
    pub to_slot: usize,
}

/// The optional metrics sink; absent by default.
#[derive(Clone, Copy, Debug, PartialEq, Eq, Structural)]
pub struct Metrics {
    pub enabled: bool,
}

impl Metrics {
    pub fn no_metrics() -> (m: Metrics)
        ensures
            !m.enabled,
    {
        Metrics { enabled: false }
    }

    pub fn with_sink() -> (m: Metrics)
        ensures
            m.enabled,
    {
        Metrics { enabled: true }
    }
}

/// Everything the graph keeps per node.
pub struct NodeInfo {
    pub name: String,
    pub role: NodeRole,
    /// Indices of this node's input slots in the graph's flat slot store.
    pub inputs: Vec<usize>,
    /// Payload tag expected on each input slot.
    pub input_tags: Vec<u64>,
    /// Payload tag produced on each output port.
    pub output_tags: Vec<u64>,
    pub sync: SyncPolicy,
    pub worker: WorkerState,
    pub consecutive_failures: u64,
    pub failure_threshold: u64,
    /// Combined inputs handed out so far (throughput observability).
    pub sets_emitted: u64,
}

impl NodeInfo {
    /// Per-node shape: parallel input arrays and role-fixed arity.
    pub open spec fn wf(self) -> bool {
        &&& self.inputs@.len() == self.input_tags@.len()
        &&& (self.role is Source ==> self.inputs@.len() == 0)
        &&& (self.role is Terminal ==> self.output_tags@.len() == 0)
        &&& self.failure_threshold >= 1
    }

    /// A blank entry swapped into the node store while one node is
    /// being edited in place.
    fn filler() -> NodeInfo {
        NodeInfo {
            name: String::new(),
            role: NodeRole::Source,
            inputs: Vec::new(),
            input_tags: Vec::new(),
            output_tags: Vec::new(),
            sync: SyncPolicy::Timestamp(TimestampSynchronizer::new(0, true)),
            worker: WorkerState::Idle,
            consecutive_failures: 0,
            failure_threshold: 1,
            sets_emitted: 0,
        }
    }
}

/// How one node is built: its identity, arity, slot configuration and
/// injected synchronization policy.
pub struct NodeConfig {
    pub name: String,
    pub role: NodeRole,
    pub input_tags: Vec<u64>,
    pub output_tags: Vec<u64>,
    /// Capacity of each of the node's input slots.
    pub capacity: usize,
    /// Overflow policy of each of the node's input slots.
    pub policy: OverflowPolicy,
    pub sync: SyncPolicy,
    /// Consecutive recoverable failures tolerated before the node is
    /// stopped as fatal.
    pub failure_threshold: u64,
}

impl NodeConfig {
    pub open spec fn wf(self) -> bool {
        &&& (self.role is Source ==> self.input_tags@.len() == 0)
        &&& (self.role is Terminal ==> self.output_tags@.len() == 0)
        &&& self.capacity >= 1
        &&& self.failure_threshold >= 1
    }
}

/// The directed multigraph of nodes and links, with all channel state.
pub struct Graph<T> {
    nodes: Vec<NodeInfo>,
    slots: Vec<ChannelSlot<T>>,
    slot_tags: Vec<u64>,
    edges: Vec<Edge>,
    metrics: Metrics,
}

impl<T> Graph<T> {
    pub closed spec fn spec_nodes(self) -> Seq<NodeInfo> {
        self.nodes@
    }

    pub closed spec fn spec_slots(self) -> Seq<ChannelSlot<T>> {
        self.slots@
    }

    pub closed spec fn spec_slot_tags(self) -> Seq<u64> {
        self.slot_tags@
    }

    pub closed spec fn spec_edges(self) -> Seq<Edge> {
        self.edges@
    }

    pub closed spec fn spec_metrics(self) -> Metrics {
        self.metrics
    }

    /// One edge is shaped right: valid endpoints, the reader slot really
    /// belongs to the reading node, and the payload tags agree.
    pub open spec fn edge_wf(self, e: Edge) -> bool {
        &&& e.from_node < self.spec_nodes().len()
        &&& e.from_port < self.spec_nodes()[e.from_node as int].output_tags@.len()
        &&& e.to_node < self.spec_nodes().len()
        &&& e.to_input < self.spec_nodes()[e.to_node as int].inputs@.len()
        &&& e.to_slot == self.spec_nodes()[e.to_node as int].inputs@[e.to_input as int]
        &&& e.to_slot < self.spec_slots().len()
        &&& self.spec_nodes()[e.from_node as int].output_tags@[e.from_port as int]
            == self.spec_slot_tags()[e.to_slot as int]
    }

    /// The graph invariant.
    pub open spec fn wf(self) -> bool {
        &&& self.spec_slot_tags().len() == self.spec_slots().len()
        &&& forall|s: int|
            0 <= s < self.spec_slots().len() ==> (#[trigger] self.spec_slots()[s]).wf()
        &&& forall|n: int|
            0 <= n < self.spec_nodes().len() ==> (#[trigger] self.spec_nodes()[n]).wf()
        &&& forall|n: int, i: int|
            0 <= n < self.spec_nodes().len() && 0 <= i < self.spec_nodes()[n].inputs@.len()
                ==> #[trigger] self.spec_nodes()[n].inputs@[i] < self.spec_slots().len()
        &&& forall|n: int, i: int|
            0 <= n < self.spec_nodes().len() && 0 <= i < self.spec_nodes()[n].inputs@.len()
                ==> self.spec_slot_tags()[#[trigger] self.spec_nodes()[n].inputs@[i] as int]
                == self.spec_nodes()[n].input_tags@[i]
        &&& forall|n1: int, i1: int, n2: int, i2: int|
            0 <= n1 < self.spec_nodes().len() && 0 <= i1 < self.spec_nodes()[n1].inputs@.len() && 0
                <= n2 < self.spec_nodes().len() && 0 <= i2 < self.spec_nodes()[n2].inputs@.len() && !(
            n1 == n2 && i1 == i2) ==> #[trigger] self.spec_nodes()[n1].inputs@[i1]
                != #[trigger] self.spec_nodes()[n2].inputs@[i2]
        &&& forall|e: int|
            0 <= e < self.spec_edges().len() ==> self.edge_wf(#[trigger] self.spec_edges()[e])
        &&& forall|e1: int, e2: int|
            0 <= e1 < self.spec_edges().len() && 0 <= e2 < self.spec_edges().len() && e1 != e2
                ==> (#[trigger] self.spec_edges()[e1]).to_slot
                != (#[trigger] self.spec_edges()[e2]).to_slot
        &&& forall|n1: int, n2: int|
            0 <= n1 < self.spec_nodes().len() && 0 <= n2 < self.spec_nodes().len() && n1 != n2
                ==> (#[trigger] self.spec_nodes()[n1]).name@
                != (#[trigger] self.spec_nodes()[n2]).name@
    }

    /// A slot of the graph is bound when some edge already feeds it.
    pub open spec fn spec_slot_bound(self, flat_slot: int) -> bool {
        exists|e: int|
            0 <= e < self.spec_edges().len() && (#[trigger] self.spec_edges()[e]).to_slot
                == flat_slot
    }

    pub fn new(metrics: Metrics) -> (g: Graph<T>)
        ensures
            g.wf(),
            g.spec_nodes().len() == 0,
            g.spec_slots().len() == 0,
            g.spec_edges().len() == 0,
            g.spec_metrics() == metrics,
    {
        Graph {
            nodes: Vec::new(),
            slots: Vec::new(),
            slot_tags: Vec::new(),
            edges: Vec::new(),
            metrics,
        }
    }

    pub fn node_count(&self) -> (n: usize)
        ensures
            n == self.spec_nodes().len(),
    {
        self.nodes.len()
    }

    pub fn edge_count(&self) -> (n: usize)
        ensures
            n == self.spec_edges().len(),
    {
        self.edges.len()
    }

    pub fn worker_state(&self, id: usize) -> (w: WorkerState)
        requires
            id < self.spec_nodes().len(),
        ensures
            w == self.spec_nodes()[id as int].worker,
    {
        self.nodes[id].worker
    }

    pub fn node_role(&self, id: usize) -> (r: NodeRole)
        requires
            id < self.spec_nodes().len(),
        ensures
            r == self.spec_nodes()[id as int].role,
    {
        self.nodes[id].role
    }

    pub fn node_name(&self, id: usize) -> (r: &String)
        requires
            id < self.spec_nodes().len(),
        ensures
            r == self.spec_nodes()[id as int].name,
    {
        &self.nodes[id].name
    }

    pub fn sets_emitted(&self, id: usize) -> (n: u64)
        requires
            id < self.spec_nodes().len(),
        ensures
            n == self.spec_nodes()[id as int].sets_emitted,
    {
        self.nodes[id].sets_emitted
    }

    pub fn consecutive_failures(&self, id: usize) -> (n: u64)
        requires
            id < self.spec_nodes().len(),
        ensures
            n == self.spec_nodes()[id as int].consecutive_failures,
    {
        self.nodes[id].consecutive_failures
    }

    /// How many packets the overflow policy has discarded on one input.
    pub fn input_dropped(&self, id: usize, input: usize) -> (n: u64)
        requires
            self.wf(),
            id < self.spec_nodes().len(),
            input < self.spec_nodes()[id as int].inputs@.len(),
        ensures
            n == self.spec_slots()[self.spec_nodes()[id as int].inputs@[input as int] as int].spec_dropped(),
    {
        let flat = self.nodes[id].inputs[input];
        self.slots[flat].dropped_count()
    }

    /// How many packets one input slot is buffering.
    pub fn input_len(&self, id: usize, input: usize) -> (n: usize)
        requires
            self.wf(),
            id < self.spec_nodes().len(),
            input < self.spec_nodes()[id as int].inputs@.len(),
        ensures
            n == self.spec_slots()[self.spec_nodes()[id as int].inputs@[input as int] as int].contents().len(),
    {
        let flat = self.nodes[id].inputs[input];
        self.slots[flat].len()
    }

    /// Whether a node of that name is already registered.
    pub fn has_node(&self, name: &String) -> (b: bool)
        ensures
            b == exists|n: int|
                0 <= n < self.spec_nodes().len() && (#[trigger] self.spec_nodes()[n]).name@
                    == name@,
    {
        let count = self.nodes.len();
        for n in 0..count
            invariant
                count == self.spec_nodes().len(),
                forall|j: int| 0 <= j < n ==> (#[trigger] self.spec_nodes()[j]).name@ != name@,
        {
            if self.nodes[n].name == *name {
                proof {
                    assert((self.spec_nodes()[n as int]).name@ == name@);
                }
                return true;
            }
        }
        false
    }

    /// Adds one node, creating its input slots empty; the node's worker is
    /// idle until started. Returns the node's id.
    pub fn register(&mut self, config: NodeConfig) -> (id: usize)
        requires
            old(self).wf(),
            config.wf(),
            forall|n: int|
                0 <= n < old(self).spec_nodes().len() ==> (#[trigger] old(
                    self,
                ).spec_nodes()[n]).name@ != config.name@,
        ensures
            final(self).wf(),
            id == old(self).spec_nodes().len(),
            final(self).spec_nodes().len() == old(self).spec_nodes().len() + 1,
            final(self).spec_edges() == old(self).spec_edges(),
            final(self).spec_metrics() == old(self).spec_metrics(),
            forall|n: int|
                0 <= n < old(self).spec_nodes().len() ==> #[trigger] final(self).spec_nodes()[n]
                    == old(self).spec_nodes()[n],
            forall|s: int|
                0 <= s < old(self).spec_slots().len() ==> #[trigger] final(self).spec_slots()[s]
                    == old(self).spec_slots()[s],
            ({
                let node = final(self).spec_nodes()[id as int];
                &&& node.name == config.name
                &&& node.role == config.role
                &&& node.input_tags == config.input_tags
                &&& node.output_tags == config.output_tags
                &&& node.sync == config.sync
                &&& node.worker is Idle
                &&& node.consecutive_failures == 0
                &&& node.failure_threshold == config.failure_threshold
                &&& node.sets_emitted == 0
                &&& node.inputs@.len() == config.input_tags@.len()
                &&& forall|i: int|
                    0 <= i < node.inputs@.len() ==> #[trigger] node.inputs@[i] == old(
                        self,
                    ).spec_slots().len() + i
            }),
            final(self).spec_slots().len() == old(self).spec_slots().len()
                + config.input_tags@.len(),
            forall|s: int|
                old(self).spec_slots().len() <= s < final(self).spec_slots().len() ==> {
                    let slot = #[trigger] final(self).spec_slots()[s];
                    &&& slot.contents().len() == 0
                    &&& slot.spec_capacity() == config.capacity
                    &&& slot.spec_policy() == config.policy
                    &&& !slot.spec_closed()
                    &&& slot.spec_dropped() == 0
                },
            final(self).spec_slot_tags().len() == final(self).spec_slots().len(),
            forall|s: int|
                0 <= s < old(self).spec_slots().len() ==> #[trigger] final(self).spec_slot_tags()[s]
                    == old(self).spec_slot_tags()[s],
            forall|s: int|
                old(self).spec_slots().len() <= s < final(self).spec_slots().len()
                    ==> #[trigger] final(self).spec_slot_tags()[s] == config.input_tags@[s - old(
                    self,
                ).spec_slots().len()],
    {
        let id = self.nodes.len();
        let base = self.slots.len();
        let k = config.input_tags.len();
        let mut inputs: Vec<usize> = Vec::new();
        let mut i: usize = 0;
        while i < k
            invariant
                old(self).wf(),
                config.wf(),
                self.nodes == old(self).nodes,
                self.edges == old(self).edges,
                self.metrics == old(self).metrics,
                base == old(self).spec_slots().len(),
                k == config.input_tags@.len(),
                i <= k,
                self.spec_slots().len() == base + i,
                self.spec_slot_tags().len() == base + i,
                forall|s: int|
                    0 <= s < base ==> #[trigger] self.spec_slots()[s] == old(self).spec_slots()[s],
                forall|s: int|
                    0 <= s < base ==> #[trigger] self.spec_slot_tags()[s] == old(
                        self,
                    ).spec_slot_tags()[s],
                forall|s: int|
                    base <= s < base + i ==> {
                        let slot = #[trigger] self.spec_slots()[s];
                        &&& slot.wf()
                        &&& slot.contents().len() == 0
                        &&& slot.spec_capacity() == config.capacity
                        &&& slot.spec_policy() == config.policy
                        &&& !slot.spec_closed()
                        &&& slot.spec_dropped() == 0
                    },
                forall|s: int|
                    base <= s < base + i ==> #[trigger] self.spec_slot_tags()[s]
                        == config.input_tags@[s - base],
                inputs@.len() == i,
                forall|j: int| 0 <= j < i ==> #[trigger] inputs@[j] == base + j,
            decreases k - i,
        {
            self.slots.push(ChannelSlot::new(config.capacity, config.policy));
            self.slot_tags.push(config.input_tags[i]);
            let flat = self.slots.len() - 1;
            inputs.push(flat);
            i = i + 1;
        }
        let node = NodeInfo {
            name: config.name,
            role: config.role,
            inputs,
            input_tags: config.input_tags,
            output_tags: config.output_tags,
            sync: config.sync,
            worker: WorkerState::Idle,
            consecutive_failures: 0,
            failure_threshold: config.failure_threshold,
            sets_emitted: 0,
        };
        self.nodes.push(node);
        proof {
            assert(self.wf()) by {
                let g = *self;
                assert forall|e: int|
                    0 <= e < g.spec_edges().len() implies g.edge_wf(
                    #[trigger] g.spec_edges()[e],
                ) by {
                    assert(old(self).edge_wf(old(self).spec_edges()[e]));
                    assert(g.spec_edges()[e] == old(self).spec_edges()[e]);
                }
            }
        }
        id
    }

    /// Links a writer port to a reader slot. Fails with `TypeMismatch`
    /// when the payload tags disagree and with `SlotAlreadyBound` when the
    /// slot already has an upstream edge; a failed link leaves the graph
    /// unmodified.
    pub fn link(&mut self, from_node: usize, from_port: usize, to_node: usize, to_input: usize) -> (r:
        Result<(), PipeError>)
        requires
            old(self).wf(),
            from_node < old(self).spec_nodes().len(),
            from_port < old(self).spec_nodes()[from_node as int].output_tags@.len(),
            to_node < old(self).spec_nodes().len(),
            to_input < old(self).spec_nodes()[to_node as int].inputs@.len(),
        ensures
            final(self).wf(),
            ({
                let flat = old(self).spec_nodes()[to_node as int].inputs@[to_input as int];
                let tag_ok = old(self).spec_nodes()[from_node as int].output_tags@[from_port as int]
                    == old(self).spec_slot_tags()[flat as int];
                let bound = old(self).spec_slot_bound(flat as int);
                &&& (r is Ok) == (tag_ok && !bound)
                &&& !tag_ok ==> r == Err::<(), PipeError>(PipeError::TypeMismatch)
                &&& (tag_ok && bound) ==> r == Err::<(), PipeError>(PipeError::SlotAlreadyBound)
                &&& (r is Err ==> *final(self) == *old(self))
                &&& (r is Ok ==> final(self).spec_edges() == old(self).spec_edges().push(
                    (Edge {
                        from_node,
                        from_port,
                        to_node,
                        to_input,
                        to_slot: flat as usize,
                    }),
                ))
            }),
            final(self).spec_nodes() == old(self).spec_nodes(),
            final(self).spec_slots() == old(self).spec_slots(),
            final(self).spec_slot_tags() == old(self).spec_slot_tags(),
            final(self).spec_metrics() == old(self).spec_metrics(),
    {
        let flat = self.nodes[to_node].inputs[to_input];
        if self.nodes[from_node].output_tags[from_port] != self.slot_tags[flat] {
            return Err(PipeError::TypeMismatch);
        }
        let ecount = self.edges.len();
        for e in 0..ecount
            invariant
                self == old(self),
                self.wf(),
                ecount == self.spec_edges().len(),
                from_node < self.spec_nodes().len(),
                from_port < self.spec_nodes()[from_node as int].output_tags@.len(),
                to_node < self.spec_nodes().len(),
                to_input < self.spec_nodes()[to_node as int].inputs@.len(),
                flat == self.spec_nodes()[to_node as int].inputs@[to_input as int],
                self.spec_nodes()[from_node as int].output_tags@[from_port as int]
                    == self.spec_slot_tags()[flat as int],
                forall|j: int| 0 <= j < e ==> (#[trigger] self.spec_edges()[j]).to_slot != flat,
        {
            if self.edges[e].to_slot == flat {
                proof {
                    assert((self.spec_edges()[e as int]).to_slot == flat);
                }
                return Err(PipeError::SlotAlreadyBound);
            }
        }
        let edge = Edge { from_node, from_port, to_node, to_input, to_slot: flat };
        self.edges.push(edge);
        proof {
            let g = *self;
            assert forall|e: int|
                0 <= e < g.spec_edges().len() implies g.edge_wf(#[trigger] g.spec_edges()[e]) by {
                if e < g.spec_edges().len() - 1 {
                    assert(old(self).edge_wf(old(self).spec_edges()[e]));
                    assert(g.spec_edges()[e] == old(self).spec_edges()[e]);
                } else {
                    assert(g.spec_edges()[e] == edge);
                }
            }
            assert forall|e1: int, e2: int|
                0 <= e1 < g.spec_edges().len() && 0 <= e2 < g.spec_edges().len() && e1
                    != e2 implies (#[trigger] g.spec_edges()[e1]).to_slot
                != (#[trigger] g.spec_edges()[e2]).to_slot by {
                if e1 < g.spec_edges().len() - 1 && e2 < g.spec_edges().len() - 1 {
                    assert(old(self).spec_edges()[e1].to_slot != old(self).spec_edges()[e2].to_slot);
                }
            }
        }
        Ok(())
    }

    /// Sets one worker's state, leaving every other part of the node and
    /// the graph as it was.
    fn set_worker(&mut self, id: usize, w: WorkerState)
        requires
            old(self).wf(),
            id < old(self).spec_nodes().len(),
        ensures
            final(self).wf(),
            final(self).spec_nodes().len() == old(self).spec_nodes().len(),
            forall|n: int|
                0 <= n < old(self).spec_nodes().len() && n != id
                    ==> #[trigger] final(self).spec_nodes()[n] == old(self).spec_nodes()[n],
            ({
                let node = final(self).spec_nodes()[id as int];
                let prev = old(self).spec_nodes()[id as int];
                &&& node.worker == w
                &&& node.name == prev.name
                &&& node.role == prev.role
                &&& node.inputs == prev.inputs
                &&& node.input_tags == prev.input_tags
                &&& node.output_tags == prev.output_tags
                &&& node.sync == prev.sync
                &&& node.consecutive_failures == prev.consecutive_failures
                &&& node.failure_threshold == prev.failure_threshold
                &&& node.sets_emitted == prev.sets_emitted
            }),
            final(self).spec_slots() == old(self).spec_slots(),
            final(self).spec_slot_tags() == old(self).spec_slot_tags(),
            final(self).spec_edges() == old(self).spec_edges(),
            final(self).spec_metrics() == old(self).spec_metrics(),
    {
        let mut tmp = NodeInfo::filler();
        self.nodes.set_and_swap(id, &mut tmp);
        tmp.worker = w;
        self.nodes.set_and_swap(id, &mut tmp);
        proof {
            assert(self.spec_nodes() =~= old(self).spec_nodes().update(
                id as int,
                self.spec_nodes()[id as int],
            ));
            lemma_wf_after_worker_change(*old(self), *self, id as int);
        }
    }

    /// Starts the dedicated worker of a regular node.
    pub fn start_node(&mut self, id: usize)
        requires
            old(self).wf(),
            id < old(self).spec_nodes().len(),
            old(self).spec_nodes()[id as int].role is Regular,
            old(self).spec_nodes()[id as int].worker is Idle,
        ensures
            final(self).wf(),
            final(self).spec_nodes()[id as int].worker is Running,
            Self::spec_only_worker_changed(*old(self), *final(self), id as int),
    {
        self.set_worker(id, WorkerState::Running);
    }

    /// Starts the dedicated worker of a source node.
    pub fn start_source_node(&mut self, id: usize)
        requires
            old(self).wf(),
            id < old(self).spec_nodes().len(),
            old(self).spec_nodes()[id as int].role is Source,
            old(self).spec_nodes()[id as int].worker is Idle,
        ensures
            final(self).wf(),
            final(self).spec_nodes()[id as int].worker is Running,
            Self::spec_only_worker_changed(*old(self), *final(self), id as int),
    {
        self.set_worker(id, WorkerState::Running);
    }

    /// Starts the dedicated worker of a terminal node.
    pub fn start_terminal_node(&mut self, id: usize)
        requires
            old(self).wf(),
            id < old(self).spec_nodes().len(),
            old(self).spec_nodes()[id as int].role is Terminal,
            old(self).spec_nodes()[id as int].worker is Idle,
        ensures
            final(self).wf(),
            final(self).spec_nodes()[id as int].worker is Running,
            Self::spec_only_worker_changed(*old(self), *final(self), id as int),
    {
        self.set_worker(id, WorkerState::Running);
    }

    /// A slot index belongs to the inputs of node `id`.
    pub open spec fn spec_node_owns_slot(self, id: int, s: int) -> bool {
        exists|i: int|
            0 <= i < self.spec_nodes()[id].inputs@.len() && #[trigger] self.spec_nodes()[id].inputs@[i]
                == s
    }

    /// Broadcasts the stop signal: every running worker moves to draining.
    /// Workers observe it at the top of their loop and at blocking points.
    pub fn signal_stop(&mut self)
        requires
            old(self).wf(),
        ensures
            final(self).wf(),
            final(self).spec_nodes().len() == old(self).spec_nodes().len(),
            forall|n: int|
                0 <= n < old(self).spec_nodes().len() ==> spec_same_except_worker(
                    old(self).spec_nodes()[n],
                    #[trigger] final(self).spec_nodes()[n],
                ),
            forall|n: int|
                0 <= n < old(self).spec_nodes().len()
                    ==> (#[trigger] final(self).spec_nodes()[n]).worker == (
                if old(self).spec_nodes()[n].worker is Running {
                    WorkerState::Draining
                } else {
                    old(self).spec_nodes()[n].worker
                }),
            final(self).spec_slots() == old(self).spec_slots(),
            final(self).spec_slot_tags() == old(self).spec_slot_tags(),
            final(self).spec_edges() == old(self).spec_edges(),
            final(self).spec_metrics() == old(self).spec_metrics(),
    {
        let count = self.nodes.len();
        for id in 0..count
            invariant
                self.wf(),
                count == self.spec_nodes().len(),
                old(self).spec_nodes().len() == count,
                forall|n: int|
                    0 <= n < count ==> spec_same_except_worker(
                        old(self).spec_nodes()[n],
                        #[trigger] self.spec_nodes()[n],
                    ),
                forall|n: int|
                    0 <= n < id ==> (#[trigger] self.spec_nodes()[n]).worker == (
                    if old(self).spec_nodes()[n].worker is Running {
                        WorkerState::Draining
                    } else {
                        old(self).spec_nodes()[n].worker
                    }),
                forall|n: int|
                    id <= n < count ==> (#[trigger] self.spec_nodes()[n]).worker == old(
                        self,
                    ).spec_nodes()[n].worker,
                self.spec_slots() == old(self).spec_slots(),
                self.spec_slot_tags() == old(self).spec_slot_tags(),
                self.spec_edges() == old(self).spec_edges(),
                self.spec_metrics() == old(self).spec_metrics(),
        {
            let w = self.nodes[id].worker;
            if w == WorkerState::Running {
                self.set_worker(id, WorkerState::Draining);
            }
        }
    }

    /// A worker acknowledges the stop signal: it exits and its input
    /// slots are closed, so that later writes to them fail.
    pub fn confirm_exit(&mut self, id: usize)
        requires
            old(self).wf(),
            id < old(self).spec_nodes().len(),
        ensures
            final(self).wf(),
            final(self).spec_nodes().len() == old(self).spec_nodes().len(),
            forall|n: int|
                0 <= n < old(self).spec_nodes().len() && n != id
                    ==> #[trigger] final(self).spec_nodes()[n] == old(self).spec_nodes()[n],
            spec_same_except_worker(
                old(self).spec_nodes()[id as int],
                final(self).spec_nodes()[id as int],
            ),
            final(self).spec_nodes()[id as int].worker is Stopped,
            final(self).spec_slots().len() == old(self).spec_slots().len(),
            forall|s: int|
                0 <= s < old(self).spec_slots().len() ==> if old(self).spec_node_owns_slot(
                    id as int,
                    s,
                ) {
                    spec_closed_like(
                        old(self).spec_slots()[s],
                        #[trigger] final(self).spec_slots()[s],
                    )
                } else {
                    final(self).spec_slots()[s] == old(self).spec_slots()[s]
                },
            final(self).spec_slot_tags() == old(self).spec_slot_tags(),
            final(self).spec_edges() == old(self).spec_edges(),
            final(self).spec_metrics() == old(self).spec_metrics(),
    {
        self.set_worker(id, WorkerState::Stopped);
        let k = self.nodes[id].inputs.len();
        for i in 0..k
            invariant
                self.wf(),
                id < self.spec_nodes().len(),
                self.spec_nodes().len() == old(self).spec_nodes().len(),
                k == self.spec_nodes()[id as int].inputs@.len(),
                forall|n: int|
                    0 <= n < old(self).spec_nodes().len() && n != id
                        ==> #[trigger] self.spec_nodes()[n] == old(self).spec_nodes()[n],
                spec_same_except_worker(
                    old(self).spec_nodes()[id as int],
                    self.spec_nodes()[id as int],
                ),
                self.spec_nodes()[id as int].worker is Stopped,
                self.spec_slots().len() == old(self).spec_slots().len(),
                forall|s: int|
                    0 <= s < old(self).spec_slots().len() ==> if exists|i2: int|
                        0 <= i2 < i && #[trigger] self.spec_nodes()[id as int].inputs@[i2] == s {
                        spec_closed_like(
                            old(self).spec_slots()[s],
                            #[trigger] self.spec_slots()[s],
                        )
                    } else {
                        self.spec_slots()[s] == old(self).spec_slots()[s]
                    },
                self.spec_slot_tags() == old(self).spec_slot_tags(),
                self.spec_edges() == old(self).spec_edges(),
                self.spec_metrics() == old(self).spec_metrics(),
        {
            let flat = self.nodes[id].inputs[i];
            let ghost pre = self.spec_slots();
            let mut tmp: ChannelSlot<T> = ChannelSlot::new(1, OverflowPolicy::Block);
            self.slots.set_and_swap(flat, &mut tmp);
            tmp.close();
            self.slots.set_and_swap(flat, &mut tmp);
            proof {
                assert(self.spec_slots() =~= pre.update(
                    flat as int,
                    self.spec_slots()[flat as int],
                ));
                assert forall|s: int| 0 <= s < old(self).spec_slots().len() implies (if exists|i2:
                    int|
                    0 <= i2 < i + 1 && #[trigger] self.spec_nodes()[id as int].inputs@[i2] == s {
                    spec_closed_like(old(self).spec_slots()[s], #[trigger] self.spec_slots()[s])
                } else {
                    self.spec_slots()[s] == old(self).spec_slots()[s]
                }) by {
                    if s == flat {
                        assert(self.spec_nodes()[id as int].inputs@[i as int] == s);
                        if exists|i2: int|
                            0 <= i2 < i && #[trigger] self.spec_nodes()[id as int].inputs@[i2]
                                == s {
                            let i2 = choose|i2: int|
                                0 <= i2 < i && #[trigger] self.spec_nodes()[id as int].inputs@[i2]
                                    == s;
                            assert(self.spec_nodes()[id as int].inputs@[i2]
                                == self.spec_nodes()[id as int].inputs@[i as int]);
                            assert(false);
                        }
                        assert(spec_closed_like(old(self).spec_slots()[s], self.spec_slots()[s]));
                    } else {
                        assert(self.spec_slots()[s] == pre[s]);
                        if exists|i2: int|
                            0 <= i2 < i + 1 && #[trigger] self.spec_nodes()[id as int].inputs@[i2]
                                == s {
                            let i2 = choose|i2: int|
                                0 <= i2 < i + 1
                                    && #[trigger] self.spec_nodes()[id as int].inputs@[i2] == s;
                            assert(i2 < i);
                        }
                    }
                }
            }
        }
    }

    /// Stops the whole graph: every worker exits and every channel slot is
    /// closed, in reverse build order. With `wait_for_drain` the buffered
    /// packets are retained for inspection; without it in-flight packets
    /// are discarded. Idempotent, and always succeeds.
    pub fn stop(&mut self, wait_for_drain: bool)
        requires
            old(self).wf(),
        ensures
            final(self).wf(),
            final(self).spec_nodes().len() == old(self).spec_nodes().len(),
            forall|n: int|
                0 <= n < old(self).spec_nodes().len() ==> spec_same_except_worker(
                    old(self).spec_nodes()[n],
                    #[trigger] final(self).spec_nodes()[n],
                ),
            forall|n: int|
                0 <= n < old(self).spec_nodes().len()
                    ==> (#[trigger] final(self).spec_nodes()[n]).worker is Stopped,
            final(self).spec_slots().len() == old(self).spec_slots().len(),
            forall|s: int|
                0 <= s < old(self).spec_slots().len() ==> {
                    let prev = old(self).spec_slots()[s];
                    let slot = #[trigger] final(self).spec_slots()[s];
                    &&& slot.spec_closed()
                    &&& slot.same_config(prev)
                    &&& slot.spec_dropped() == prev.spec_dropped()
                    &&& slot.contents() == (if wait_for_drain {
                        prev.contents()
                    } else {
                        Seq::<Packet<T>>::empty()
                    })
                },
            final(self).spec_slot_tags() == old(self).spec_slot_tags(),
            final(self).spec_edges() == old(self).spec_edges(),
            final(self).spec_metrics() == old(self).spec_metrics(),
    {
        let count = self.nodes.len();
        let mut remaining = count;
        while remaining > 0
            invariant
                self.wf(),
                remaining <= count,
                count == self.spec_nodes().len(),
                old(self).spec_nodes().len() == count,
                forall|n: int|
                    0 <= n < count ==> spec_same_except_worker(
                        old(self).spec_nodes()[n],
                        #[trigger] self.spec_nodes()[n],
                    ),
                forall|n: int|
                    remaining <= n < count ==> (#[trigger] self.spec_nodes()[n]).worker
                        is Stopped,
                forall|n: int|
                    0 <= n < remaining ==> (#[trigger] self.spec_nodes()[n]).worker == old(
                        self,
                    ).spec_nodes()[n].worker,
                self.spec_slots() == old(self).spec_slots(),
                self.spec_slot_tags() == old(self).spec_slot_tags(),
                self.spec_edges() == old(self).spec_edges(),
                self.spec_metrics() == old(self).spec_metrics(),
            decreases remaining,
        {
            remaining = remaining - 1;
            self.set_worker(remaining, WorkerState::Stopped);
        }
        let scount = self.slots.len();
        let mut s = scount;
        while s > 0
            invariant
                self.wf(),
                s <= scount,
                scount == self.spec_slots().len(),
                old(self).spec_slots().len() == scount,
                self.spec_nodes().len() == old(self).spec_nodes().len(),
                forall|n: int|
                    0 <= n < old(self).spec_nodes().len() ==> spec_same_except_worker(
                        old(self).spec_nodes()[n],
                        #[trigger] self.spec_nodes()[n],
                    ),
                forall|n: int|
                    0 <= n < old(self).spec_nodes().len()
                        ==> (#[trigger] self.spec_nodes()[n]).worker is Stopped,
                forall|t: int|
                    s <= t < scount ==> {
                        let prev = old(self).spec_slots()[t];
                        let slot = #[trigger] self.spec_slots()[t];
                        &&& slot.spec_closed()
                        &&& slot.same_config(prev)
                        &&& slot.spec_dropped() == prev.spec_dropped()
                        &&& slot.contents() == (if wait_for_drain {
                            prev.contents()
                        } else {
                            Seq::<Packet<T>>::empty()
                        })
                    },
                forall|t: int|
                    0 <= t < s ==> #[trigger] self.spec_slots()[t] == old(self).spec_slots()[t],
                self.spec_slot_tags() == old(self).spec_slot_tags(),
                self.spec_edges() == old(self).spec_edges(),
                self.spec_metrics() == old(self).spec_metrics(),
            decreases s,
        {
            s = s - 1;
            let ghost pre = self.spec_slots();
            let mut tmp: ChannelSlot<T> = ChannelSlot::new(1, OverflowPolicy::Block);
            self.slots.set_and_swap(s, &mut tmp);
            if !wait_for_drain {
                tmp.clear();
            }
            tmp.close();
            self.slots.set_and_swap(s, &mut tmp);
            proof {
                assert(self.spec_slots() =~= pre.update(s as int, self.spec_slots()[s as int]));
            }
        }
    }

    /// Writes one packet from a node's output port, fanning out to every
    /// linked downstream slot; each branch receives its own copy. A write
    /// from a worker that is neither running nor draining is rejected with
    /// `ChannelClosed` and changes nothing; a branch whose reader slot is
    /// closed reports `ChannelClosed` for that branch alone.
    pub fn write_from(&mut self, from_node: usize, from_port: usize, p: &Packet<T>) -> (r: Result<
        Vec<Option<Result<WriteOutcome, PipeError>>>,
        PipeError,
    >) where T: Clone
        requires
            old(self).wf(),
            from_node < old(self).spec_nodes().len(),
            from_port < old(self).spec_nodes()[from_node as int].output_tags@.len(),
        ensures
            final(self).wf(),
            final(self).spec_nodes() == old(self).spec_nodes(),
            final(self).spec_slot_tags() == old(self).spec_slot_tags(),
            final(self).spec_edges() == old(self).spec_edges(),
            final(self).spec_metrics() == old(self).spec_metrics(),
            final(self).spec_slots().len() == old(self).spec_slots().len(),
            ({
                let active = old(self).spec_nodes()[from_node as int].worker is Running || old(
                    self,
                ).spec_nodes()[from_node as int].worker is Draining;
                &&& (!active ==> r == Err::<Vec<Option<Result<WriteOutcome, PipeError>>>, PipeError>(
                    PipeError::ChannelClosed,
                ) && *final(self) == *old(self))
                &&& (active ==> (r matches Ok(outs) && {
                    &&& outs@.len() == old(self).spec_edges().len()
                    &&& forall|e: int|
                        0 <= e < old(self).spec_edges().len() && !spec_edge_matches(
                            old(self).spec_edges()[e],
                            from_node,
                            from_port,
                        ) ==> #[trigger] outs@[e] is None
                    &&& forall|e: int|
                        0 <= e < old(self).spec_edges().len() && spec_edge_matches(
                            old(self).spec_edges()[e],
                            from_node,
                            from_port,
                        ) ==> spec_fanout_effect(
                            *old(self),
                            *final(self),
                            e,
                            *p,
                            #[trigger] outs@[e],
                        )
                    &&& forall|s: int|
                        0 <= s < old(self).spec_slots().len() && !(exists|e: int|
                            0 <= e < old(self).spec_edges().len() && spec_edge_matches(
                                #[trigger] old(self).spec_edges()[e],
                                from_node,
                                from_port,
                            ) && old(self).spec_edges()[e].to_slot == s)
                            ==> #[trigger] final(self).spec_slots()[s] == old(self).spec_slots()[s]
                }))
            }),
    {
        let w = self.nodes[from_node].worker;
        if !(w == WorkerState::Running || w == WorkerState::Draining) {
            return Err(PipeError::ChannelClosed);
        }
        let ecount = self.edges.len();
        let mut outs: Vec<Option<Result<WriteOutcome, PipeError>>> = Vec::new();
        for e in 0..ecount
            invariant
                self.wf(),
                ecount == self.spec_edges().len(),
                from_node < self.spec_nodes().len(),
                from_port < self.spec_nodes()[from_node as int].output_tags@.len(),
                self.spec_nodes() == old(self).spec_nodes(),
                self.spec_slot_tags() == old(self).spec_slot_tags(),
                self.spec_edges() == old(self).spec_edges(),
                self.spec_metrics() == old(self).spec_metrics(),
                self.spec_slots().len() == old(self).spec_slots().len(),
                outs@.len() == e,
                forall|j: int|
                    0 <= j < e && !spec_edge_matches(
                        old(self).spec_edges()[j],
                        from_node,
                        from_port,
                    ) ==> #[trigger] outs@[j] is None,
                forall|j: int|
                    0 <= j < e && spec_edge_matches(old(self).spec_edges()[j], from_node, from_port)
                        ==> spec_fanout_effect(*old(self), *self, j, *p, #[trigger] outs@[j]),
                forall|s: int|
                    0 <= s < old(self).spec_slots().len() && !(exists|j: int|
                        0 <= j < e && spec_edge_matches(
                            #[trigger] old(self).spec_edges()[j],
                            from_node,
                            from_port,
                        ) && old(self).spec_edges()[j].to_slot == s)
                        ==> #[trigger] self.spec_slots()[s] == old(self).spec_slots()[s],
        {
            let edge = self.edges[e];
            if edge.from_node == from_node && edge.from_port == from_port {
                proof {
                    assert(self.edge_wf(self.spec_edges()[e as int]));
                }
                let d = p.data.clone();
                let ghost data_copy = d;
                let q = Packet { data: d, version: p.version };
                let flat = edge.to_slot;
                let ghost pre_slots = self.spec_slots();
                let mut tmp: ChannelSlot<T> = ChannelSlot::new(1, OverflowPolicy::Block);
                self.slots.set_and_swap(flat, &mut tmp);
                let res = tmp.enqueue(q);
                self.slots.set_and_swap(flat, &mut tmp);
                let ghost prev_outs = outs@;
                outs.push(Some(res));
                proof {
                    assert(self.spec_slots() =~= pre_slots.update(
                        flat as int,
                        self.spec_slots()[flat as int],
                    ));
                    assert(cloned::<T>(p.data, data_copy));
                    assert(spec_fanout_effect(*old(self), *self, e as int, *p, outs@[e as int]));
                    assert forall|j: int|
                        0 <= j < e + 1 && spec_edge_matches(
                            old(self).spec_edges()[j],
                            from_node,
                            from_port,
                        ) implies spec_fanout_effect(
                        *old(self),
                        *self,
                        j,
                        *p,
                        #[trigger] outs@[j],
                    ) by {
                        if j < e {
                            assert(outs@[j] == prev_outs[j]);
                            assert(old(self).spec_edges()[j].to_slot != old(
                                self,
                            ).spec_edges()[e as int].to_slot);
                        }
                    }
                }
            } else {
                outs.push(None);
            }
        }
        Ok(outs)
    }

    /// The buffered versions of one node's inputs, one ordered summary per
    /// slot, as the synchronization policies see them.
    pub open spec fn spec_input_views(self, id: int) -> Seq<Seq<DataVersion>> {
        Seq::new(
            self.spec_nodes()[id].inputs@.len(),
            |i: int|
                self.spec_slots()[self.spec_nodes()[id].inputs@[i] as int].contents().map_values(
                    |pk: Packet<T>| pk.version,
                ),
        )
    }

    /// Asks the node's synchronizer whether a combined input is ready and,
    /// if so, removes the selected packet from each contributing slot and
    /// returns the bundle, with `None` members for slots the policy
    /// resolved to "missing". Returns `None`, changing nothing, when the
    /// worker is not active or the policy holds the tick open.
    pub fn try_read(&mut self, id: usize, now_ns: u128, max_wait_elapsed: bool) -> (r: Option<
        Vec<Option<Packet<T>>>,
    >)
        requires
            old(self).wf(),
            id < old(self).spec_nodes().len(),
        ensures
            final(self).wf(),
            final(self).spec_nodes().len() == old(self).spec_nodes().len(),
            final(self).spec_slots().len() == old(self).spec_slots().len(),
            final(self).spec_slot_tags() == old(self).spec_slot_tags(),
            final(self).spec_edges() == old(self).spec_edges(),
            final(self).spec_metrics() == old(self).spec_metrics(),
            ({
                let active = old(self).spec_nodes()[id as int].worker is Running || old(
                    self,
                ).spec_nodes()[id as int].worker is Draining;
                let decision = spec_decision(
                    old(self).spec_nodes()[id as int].sync,
                    old(self).spec_input_views(id as int),
                    now_ns,
                    max_wait_elapsed,
                );
                &&& (!active ==> r is None && *final(self) == *old(self))
                &&& (active && decision is None ==> r is None && *final(self) == *old(self))
                &&& (active ==> (decision matches Some(picks) ==> (r matches Some(set) && {
                    &&& set@.len() == old(self).spec_nodes()[id as int].inputs@.len()
                    &&& forall|i: int|
                        0 <= i < set@.len() ==> spec_consume_effect(
                            *old(self),
                            *final(self),
                            id as int,
                            i,
                            picks[i],
                            spec_stale_floor(
                                old(self).spec_nodes()[id as int].sync,
                                old(self).spec_input_views(id as int),
                            ),
                            #[trigger] set@[i],
                        )
                    &&& forall|s: int|
                        0 <= s < old(self).spec_slots().len() && !old(self).spec_node_owns_slot(
                            id as int,
                            s,
                        ) ==> #[trigger] final(self).spec_slots()[s] == old(self).spec_slots()[s]
                    &&& forall|n: int|
                        0 <= n < old(self).spec_nodes().len() && n != id
                            ==> #[trigger] final(self).spec_nodes()[n] == old(self).spec_nodes()[n]
                    &&& spec_read_node_frame(
                        old(self).spec_nodes()[id as int],
                        final(self).spec_nodes()[id as int],
                    )
                    &&& final(self).spec_nodes()[id as int].sets_emitted
                        == crate::channel::spec_saturating_inc(
                        old(self).spec_nodes()[id as int].sets_emitted,
                    )
                })))
            }),
    {
        let w = self.nodes[id].worker;
        if !(w == WorkerState::Running || w == WorkerState::Draining) {
            return None;
        }
        let k = self.nodes[id].inputs.len();
        let mut views: Vec<Vec<DataVersion>> = Vec::new();
        for i in 0..k
            invariant
                self == old(self),
                self.wf(),
                id < self.spec_nodes().len(),
                k == self.spec_nodes()[id as int].inputs@.len(),
                views@.len() == i,
                forall|j: int|
                    0 <= j < i ==> #[trigger] views@[j]@ == self.spec_input_views(id as int)[j],
        {
            let flat = self.nodes[id].inputs[i];
            let vs = self.slots[flat].versions();
            views.push(vs);
        }
        proof {
            assert(crate::sync::slot_views(views@) =~= self.spec_input_views(id as int));
        }
        let sync = self.nodes[id].sync;
        let picks_opt = match sync {
            SyncPolicy::Timestamp(ts) => ts.synchronize(&views),
            SyncPolicy::RealTime(rt) => rt.synchronize(&views, now_ns, max_wait_elapsed),
        };
        let picks = match picks_opt {
            None => {
                return None;
            },
            Some(p) => p,
        };
        proof {
            assert(spec_decision(
                sync,
                old(self).spec_input_views(id as int),
                now_ns,
                max_wait_elapsed,
            ) == Some(picks@));
        }
        let floor: Option<DataVersion> = match sync {
            SyncPolicy::Timestamp(_) => crate::sync::candidate_of(&views),
            SyncPolicy::RealTime(_) => None,
        };
        proof {
            assert(floor == spec_stale_floor(sync, old(self).spec_input_views(id as int)));
        }
        let mut set: Vec<Option<Packet<T>>> = Vec::new();
        for i in 0..k
            invariant
                self.wf(),
                id < self.spec_nodes().len(),
                self.spec_nodes() == old(self).spec_nodes(),
                k == self.spec_nodes()[id as int].inputs@.len(),
                picks@.len() == k,
                self.spec_slot_tags() == old(self).spec_slot_tags(),
                self.spec_edges() == old(self).spec_edges(),
                self.spec_metrics() == old(self).spec_metrics(),
                self.spec_slots().len() == old(self).spec_slots().len(),
                set@.len() == i,
                floor == spec_stale_floor(
                    old(self).spec_nodes()[id as int].sync,
                    old(self).spec_input_views(id as int),
                ),
                forall|j: int|
                    0 <= j < i ==> spec_consume_effect(
                        *old(self),
                        *self,
                        id as int,
                        j,
                        picks@[j],
                        floor,
                        #[trigger] set@[j],
                    ),
                forall|s: int|
                    0 <= s < old(self).spec_slots().len() && !(exists|j: int|
                        0 <= j < i && #[trigger] old(self).spec_nodes()[id as int].inputs@[j] == s)
                        ==> #[trigger] self.spec_slots()[s] == old(self).spec_slots()[s],
        {
            let pk = picks[i];
            match pk {
                None => {
                    let flat = self.nodes[id].inputs[i];
                    let ghost pre_slots = self.spec_slots();
                    proof {
                        assert(self.spec_slots()[flat as int] == old(self).spec_slots()[flat as int])
                            by {
                            if exists|j: int|
                                0 <= j < i && #[trigger] old(
                                    self,
                                ).spec_nodes()[id as int].inputs@[j] == flat {
                                let j = choose|j: int|
                                    0 <= j < i && #[trigger] old(
                                        self,
                                    ).spec_nodes()[id as int].inputs@[j] == flat;
                                assert(false);
                            }
                        }
                    }
                    if let Some(c) = floor {
                        let mut tmp: ChannelSlot<T> = ChannelSlot::new(1, OverflowPolicy::Block);
                        self.slots.set_and_swap(flat, &mut tmp);
                        let n = tmp.drop_older_than(&c);
                        self.slots.set_and_swap(flat, &mut tmp);
                        proof {
                            assert(self.spec_slots() =~= pre_slots.update(
                                flat as int,
                                self.spec_slots()[flat as int],
                            ));
                            crate::channel::lemma_stale_prefix_of_boundary(
                                old(self).spec_slots()[flat as int].contents(),
                                c,
                                n as int,
                            );
                        }
                    }
                    let ghost prev_set = set@;
                    set.push(None);
                    proof {
                        assert(spec_consume_effect(
                            *old(self),
                            *self,
                            id as int,
                            i as int,
                            picks@[i as int],
                            floor,
                            set@[i as int],
                        ));
                        assert forall|j: int| 0 <= j < i + 1 implies spec_consume_effect(
                            *old(self),
                            *self,
                            id as int,
                            j,
                            picks@[j],
                            floor,
                            #[trigger] set@[j],
                        ) by {
                            if j < i {
                                assert(set@[j] == prev_set[j]);
                                assert(old(self).spec_nodes()[id as int].inputs@[j] != flat);
                            }
                        }
                    }
                },
                Some(v) => {
                    let flat = self.nodes[id].inputs[i];
                    let ghost pre_slots = self.spec_slots();
                    proof {
                        assert(self.spec_slots()[flat as int] == old(self).spec_slots()[flat as int])
                            by {
                            if exists|j: int|
                                0 <= j < i && #[trigger] old(
                                    self,
                                ).spec_nodes()[id as int].inputs@[j] == flat {
                                let j = choose|j: int|
                                    0 <= j < i && #[trigger] old(
                                        self,
                                    ).spec_nodes()[id as int].inputs@[j] == flat;
                                assert(false);
                            }
                        }
                    }
                    let mut tmp: ChannelSlot<T> = ChannelSlot::new(1, OverflowPolicy::Block);
                    self.slots.set_and_swap(flat, &mut tmp);
                    let member = tmp.consume_version(&v);
                    self.slots.set_and_swap(flat, &mut tmp);
                    let ghost prev_set = set@;
                    set.push(member);
                    proof {
                        assert(self.spec_slots() =~= pre_slots.update(
                            flat as int,
                            self.spec_slots()[flat as int],
                        ));
                        assert(spec_consume_effect(
                            *old(self),
                            *self,
                            id as int,
                            i as int,
                            picks@[i as int],
                            floor,
                            set@[i as int],
                        ));
                        assert forall|j: int| 0 <= j < i + 1 implies spec_consume_effect(
                            *old(self),
                            *self,
                            id as int,
                            j,
                            picks@[j],
                            floor,
                            #[trigger] set@[j],
                        ) by {
                            if j < i {
                                assert(set@[j] == prev_set[j]);
                                assert(old(self).spec_nodes()[id as int].inputs@[j] != flat);
                            }
                        }
                    }
                },
            }
        }
        let mut tmp = NodeInfo::filler();
        self.nodes.set_and_swap(id, &mut tmp);
        tmp.sets_emitted = crate::channel::saturating_inc(tmp.sets_emitted);
        self.nodes.set_and_swap(id, &mut tmp);
        proof {
            assert(self.spec_nodes() =~= old(self).spec_nodes().update(
                id as int,
                self.spec_nodes()[id as int],
            ));
            let ghost mid = Graph {
                nodes: old(self).nodes,
                slots: self.slots,
                slot_tags: self.slot_tags,
                edges: self.edges,
                metrics: self.metrics,
            };
            lemma_wf_after_worker_change(mid, *self, id as int);
        }
        Some(set)
    }

    /// One round of a blocking write: delivers the packet to the pending
    /// fan-out branches only and reports which branches are still blocked
    /// on a full slot. A writer under backpressure calls this until no
    /// branch is pending or the stop signal ends the wait; branches that
    /// already took their copy are never written twice.
    pub fn write_retry(
        &mut self,
        from_node: usize,
        from_port: usize,
        p: &Packet<T>,
        pending: &Vec<bool>,
    ) -> (r: Result<Vec<bool>, PipeError>) where T: Clone
        requires
            old(self).wf(),
            from_node < old(self).spec_nodes().len(),
            from_port < old(self).spec_nodes()[from_node as int].output_tags@.len(),
            pending@.len() == old(self).spec_edges().len(),
        ensures
            final(self).wf(),
            final(self).spec_nodes() == old(self).spec_nodes(),
            final(self).spec_slot_tags() == old(self).spec_slot_tags(),
            final(self).spec_edges() == old(self).spec_edges(),
            final(self).spec_metrics() == old(self).spec_metrics(),
            final(self).spec_slots().len() == old(self).spec_slots().len(),
            ({
                let active = old(self).spec_nodes()[from_node as int].worker is Running || old(
                    self,
                ).spec_nodes()[from_node as int].worker is Draining;
                &&& (!active ==> r == Err::<Vec<bool>, PipeError>(PipeError::ChannelClosed)
                    && *final(self) == *old(self))
                &&& (active ==> (r matches Ok(next) && {
                    &&& next@.len() == old(self).spec_edges().len()
                    &&& forall|e: int|
                        0 <= e < old(self).spec_edges().len() ==> #[trigger] next@[e] == (
                        spec_edge_matches(old(self).spec_edges()[e], from_node, from_port)
                            && pending@[e] && ChannelSlot::spec_enqueue_result(
                            old(self).spec_slots()[old(self).spec_edges()[e].to_slot as int],
                        ) == Ok::<WriteOutcome, PipeError>(WriteOutcome::Full))
                    &&& forall|e: int|
                        0 <= e < old(self).spec_edges().len() && spec_edge_matches(
                            old(self).spec_edges()[e],
                            from_node,
                            from_port,
                        ) && pending@[e] ==> spec_fanout_effect(
                            *old(self),
                            *final(self),
                            e,
                            *p,
                            Some(
                                ChannelSlot::spec_enqueue_result(
                                    #[trigger] old(self).spec_slots()[old(
                                        self,
                                    ).spec_edges()[e].to_slot as int],
                                ),
                            ),
                        )
                    &&& forall|s: int|
                        0 <= s < old(self).spec_slots().len() && !(exists|e: int|
                            0 <= e < old(self).spec_edges().len() && spec_edge_matches(
                                #[trigger] old(self).spec_edges()[e],
                                from_node,
                                from_port,
                            ) && pending@[e] && old(self).spec_edges()[e].to_slot == s)
                            ==> #[trigger] final(self).spec_slots()[s] == old(self).spec_slots()[s]
                }))
            }),
    {
        let w = self.nodes[from_node].worker;
        if !(w == WorkerState::Running || w == WorkerState::Draining) {
            return Err(PipeError::ChannelClosed);
        }
        let ecount = self.edges.len();
        let mut next: Vec<bool> = Vec::new();
        for e in 0..ecount
            invariant
                self.wf(),
                ecount == self.spec_edges().len(),
                pending@.len() == ecount,
                from_node < self.spec_nodes().len(),
                from_port < self.spec_nodes()[from_node as int].output_tags@.len(),
                self.spec_nodes() == old(self).spec_nodes(),
                self.spec_slot_tags() == old(self).spec_slot_tags(),
                self.spec_edges() == old(self).spec_edges(),
                self.spec_metrics() == old(self).spec_metrics(),
                self.spec_slots().len() == old(self).spec_slots().len(),
                next@.len() == e,
                forall|j: int|
                    0 <= j < e ==> #[trigger] next@[j] == (spec_edge_matches(
                        old(self).spec_edges()[j],
                        from_node,
                        from_port,
                    ) && pending@[j] && ChannelSlot::spec_enqueue_result(
                        old(self).spec_slots()[old(self).spec_edges()[j].to_slot as int],
                    ) == Ok::<WriteOutcome, PipeError>(WriteOutcome::Full)),
                forall|j: int|
                    0 <= j < e && spec_edge_matches(old(self).spec_edges()[j], from_node, from_port)
                        && pending@[j] ==> spec_fanout_effect(
                        *old(self),
                        *self,
                        j,
                        *p,
                        Some(
                            ChannelSlot::spec_enqueue_result(
                                #[trigger] old(self).spec_slots()[old(
                                    self,
                                ).spec_edges()[j].to_slot as int],
                            ),
                        ),
                    ),
                forall|s: int|
                    0 <= s < old(self).spec_slots().len() && !(exists|j: int|
                        0 <= j < e && spec_edge_matches(
                            #[trigger] old(self).spec_edges()[j],
                            from_node,
                            from_port,
                        ) && pending@[j] && old(self).spec_edges()[j].to_slot == s)
                        ==> #[trigger] self.spec_slots()[s] == old(self).spec_slots()[s],
        {
            let edge = self.edges[e];
            if edge.from_node == from_node && edge.from_port == from_port && pending[e] {
                proof {
                    assert(self.edge_wf(self.spec_edges()[e as int]));
                }
                let d = p.data.clone();
                let ghost data_copy = d;
                let q = Packet { data: d, version: p.version };
                let flat = edge.to_slot;
                let ghost pre_slots = self.spec_slots();
                let mut tmp: ChannelSlot<T> = ChannelSlot::new(1, OverflowPolicy::Block);
                self.slots.set_and_swap(flat, &mut tmp);
                let res = tmp.enqueue(q);
                self.slots.set_and_swap(flat, &mut tmp);
                let blocked = match res {
                    Ok(WriteOutcome::Full) => true,
                    _ => false,
                };
                next.push(blocked);
                proof {
                    assert(self.spec_slots() =~= pre_slots.update(
                        flat as int,
                        self.spec_slots()[flat as int],
                    ));
                    assert(cloned::<T>(p.data, data_copy));
                    assert(spec_fanout_effect(
                        *old(self),
                        *self,
                        e as int,
                        *p,
                        Some(
                            ChannelSlot::spec_enqueue_result(
                                old(self).spec_slots()[old(
                                    self,
                                ).spec_edges()[e as int].to_slot as int],
                            ),
                        ),
                    ));
                    assert forall|j: int|
                        0 <= j < e + 1 && spec_edge_matches(
                            old(self).spec_edges()[j],
                            from_node,
                            from_port,
                        ) && pending@[j] implies spec_fanout_effect(
                        *old(self),
                        *self,
                        j,
                        *p,
                        Some(
                            ChannelSlot::spec_enqueue_result(
                                #[trigger] old(self).spec_slots()[old(
                                    self,
                                ).spec_edges()[j].to_slot as int],
                            ),
                        ),
                    ) by {
                        if j < e {
                            assert(old(self).spec_edges()[j].to_slot != old(
                                self,
                            ).spec_edges()[e as int].to_slot);
                        }
                    }
                }
            } else {
                next.push(false);
            }
        }
        Ok(next)
    }

    /// Sets one node's failure streak, leaving everything else alone.
    fn set_failures(&mut self, id: usize, count: u64)
        requires
            old(self).wf(),
            id < old(self).spec_nodes().len(),
        ensures
            final(self).wf(),
            final(self).spec_nodes().len() == old(self).spec_nodes().len(),
            forall|n: int|
                0 <= n < old(self).spec_nodes().len() && n != id
                    ==> #[trigger] final(self).spec_nodes()[n] == old(self).spec_nodes()[n],
            spec_same_identity(old(self).spec_nodes()[id as int], final(self).spec_nodes()[id as int]),
            final(self).spec_nodes()[id as int].worker == old(self).spec_nodes()[id as int].worker,
            final(self).spec_nodes()[id as int].consecutive_failures == count,
            final(self).spec_slots() == old(self).spec_slots(),
            final(self).spec_slot_tags() == old(self).spec_slot_tags(),
            final(self).spec_edges() == old(self).spec_edges(),
            final(self).spec_metrics() == old(self).spec_metrics(),
    {
        let mut tmp = NodeInfo::filler();
        self.nodes.set_and_swap(id, &mut tmp);
        tmp.consecutive_failures = count;
        self.nodes.set_and_swap(id, &mut tmp);
        proof {
            assert(self.spec_nodes() =~= old(self).spec_nodes().update(
                id as int,
                self.spec_nodes()[id as int],
            ));
            lemma_wf_after_worker_change(*old(self), *self, id as int);
        }
    }

    /// Classifies the outcome of one invocation and applies the policy of
    /// the scheduling loop: success clears the failure streak; a
    /// recoverable failure is skipped until the streak reaches the node's
    /// threshold, which stops this node only, as a fatal failure does at
    /// once; end-of-stream stops the reporting source and signals every
    /// other worker to drain.
    pub fn report_outcome(&mut self, id: usize, outcome: ProcessOutcome) -> (r: StepAction)
        requires
            old(self).wf(),
            id < old(self).spec_nodes().len(),
        ensures
            final(self).wf(),
            final(self).spec_nodes().len() == old(self).spec_nodes().len(),
            final(self).spec_slots().len() == old(self).spec_slots().len(),
            final(self).spec_slot_tags() == old(self).spec_slot_tags(),
            final(self).spec_edges() == old(self).spec_edges(),
            final(self).spec_metrics() == old(self).spec_metrics(),
            spec_same_identity(old(self).spec_nodes()[id as int], final(self).spec_nodes()[id as int]),
            ({
                let prev = old(self).spec_nodes()[id as int];
                let node = final(self).spec_nodes()[id as int];
                let streak = crate::channel::spec_saturating_inc(prev.consecutive_failures);
                match outcome {
                    ProcessOutcome::Success => {
                        &&& r == StepAction::Continue
                        &&& node.consecutive_failures == 0
                        &&& node.worker == prev.worker
                        &&& final(self).spec_slots() == old(self).spec_slots()
                        &&& forall|n: int|
                            0 <= n < old(self).spec_nodes().len() && n != id
                                ==> #[trigger] final(self).spec_nodes()[n] == old(
                                self,
                            ).spec_nodes()[n]
                    },
                    ProcessOutcome::Recoverable => {
                        &&& node.consecutive_failures == streak
                        &&& (streak < prev.failure_threshold ==> r == StepAction::Continue
                            && node.worker == prev.worker && final(self).spec_slots() == old(
                            self,
                        ).spec_slots())
                        &&& (streak >= prev.failure_threshold ==> r == StepAction::NodeStopped
                            && node.worker is Stopped && spec_node_slots_closed(
                            *old(self),
                            *final(self),
                            id as int,
                        ))
                        &&& forall|n: int|
                            0 <= n < old(self).spec_nodes().len() && n != id
                                ==> #[trigger] final(self).spec_nodes()[n] == old(
                                self,
                            ).spec_nodes()[n]
                    },
                    ProcessOutcome::Fatal => {
                        &&& r == StepAction::NodeStopped
                        &&& node.worker is Stopped
                        &&& node.consecutive_failures == prev.consecutive_failures
                        &&& spec_node_slots_closed(*old(self), *final(self), id as int)
                        &&& forall|n: int|
                            0 <= n < old(self).spec_nodes().len() && n != id
                                ==> #[trigger] final(self).spec_nodes()[n] == old(
                                self,
                            ).spec_nodes()[n]
                    },
                    ProcessOutcome::EndOfStream => {
                        &&& r == StepAction::GraphDraining
                        &&& node.worker is Stopped
                        &&& node.consecutive_failures == prev.consecutive_failures
                        &&& spec_node_slots_closed(*old(self), *final(self), id as int)
                        &&& forall|n: int|
                            0 <= n < old(self).spec_nodes().len() && n != id ==> {
                                &&& spec_same_except_worker(
                                    old(self).spec_nodes()[n],
                                    #[trigger] final(self).spec_nodes()[n],
                                )
                                &&& final(self).spec_nodes()[n].worker == (
                                if old(self).spec_nodes()[n].worker is Running {
                                    WorkerState::Draining
                                } else {
                                    old(self).spec_nodes()[n].worker
                                })
                            }
                    },
                }
            }),
    {
        match outcome {
            ProcessOutcome::Success => {
                self.set_failures(id, 0);
                StepAction::Continue
            },
            ProcessOutcome::Recoverable => {
                let streak = crate::channel::saturating_inc(self.nodes[id].consecutive_failures);
                self.set_failures(id, streak);
                if streak >= self.nodes[id].failure_threshold {
                    self.confirm_exit(id);
                    StepAction::NodeStopped
                } else {
                    StepAction::Continue
                }
            },
            ProcessOutcome::Fatal => {
                self.confirm_exit(id);
                StepAction::NodeStopped
            },
            ProcessOutcome::EndOfStream => {
                self.confirm_exit(id);
                self.signal_stop();
                StepAction::GraphDraining
            },
        }
    }

    /// Everything except node `id`'s worker state is as it was.
    pub open spec fn spec_only_worker_changed(pre: Graph<T>, post: Graph<T>, id: int) -> bool {
        &&& post.spec_nodes().len() == pre.spec_nodes().len()
        &&& forall|n: int|
            0 <= n < pre.spec_nodes().len() && n != id ==> #[trigger] post.spec_nodes()[n]
                == pre.spec_nodes()[n]
        &&& ({
            let node = post.spec_nodes()[id];
            let prev = pre.spec_nodes()[id];
            &&& node.name == prev.name
            &&& node.role == prev.role
            &&& node.inputs == prev.inputs
            &&& node.input_tags == prev.input_tags
            &&& node.output_tags == prev.output_tags
            &&& node.sync == prev.sync
            &&& node.consecutive_failures == prev.consecutive_failures
            &&& node.failure_threshold == prev.failure_threshold
            &&& node.sets_emitted == prev.sets_emitted
        })
        &&& post.spec_slots() == pre.spec_slots()
        &&& post.spec_slot_tags() == pre.spec_slot_tags()
        &&& post.spec_edges() == pre.spec_edges()
        &&& post.spec_metrics() == pre.spec_metrics()
    }
}

/// What a node's synchronization policy answers on given slot summaries.
pub open spec fn spec_decision(
    sync: SyncPolicy,
    views: Seq<Seq<DataVersion>>,
    now_ns: u128,
    max_wait_elapsed: bool,
) -> Option<Seq<Option<DataVersion>>> {
    match sync {
        SyncPolicy::Timestamp(ts) => ts.spec_synchronize(views),
        SyncPolicy::RealTime(rt) => rt.spec_synchronize(views, now_ns, max_wait_elapsed),
    }
}

/// What one member of a combined read did to its slot. A present member
/// consumes the selected version. A missing member leaves its slot alone,
/// except that under the exact-match policy the slot still discards its
/// backlog strictly older than the reference version `floor`, bounding
/// memory against stale packets that can never match again.
pub open spec fn spec_consume_effect<T>(
    pre: Graph<T>,
    post: Graph<T>,
    id: int,
    i: int,
    pick: Option<DataVersion>,
    floor: Option<DataVersion>,
    member: Option<Packet<T>>,
) -> bool {
    let flat = pre.spec_nodes()[id].inputs@[i] as int;
    let prev = pre.spec_slots()[flat];
    let slot = post.spec_slots()[flat];
    match pick {
        None => {
            &&& member is None
            &&& match floor {
                None => slot == prev,
                Some(c) => {
                    &&& slot.contents() == prev.contents().skip(
                        crate::channel::stale_prefix(prev.contents(), c),
                    )
                    &&& slot.same_config(prev)
                    &&& slot.spec_closed() == prev.spec_closed()
                    &&& slot.spec_dropped() == prev.spec_dropped()
                },
            }
        },
        Some(v) => {
            &&& member == crate::channel::spec_consume(prev.contents(), v).1
            &&& slot.contents() == crate::channel::spec_consume(prev.contents(), v).0
            &&& slot.same_config(prev)
            &&& slot.spec_closed() == prev.spec_closed()
            &&& slot.spec_dropped() == prev.spec_dropped()
        },
    }
}

/// The stale floor of one read: under the exact-match policy, the
/// reference version; the windowed policy drops nothing from slots that
/// resolve to "missing".
pub open spec fn spec_stale_floor(
    sync: SyncPolicy,
    views: Seq<Seq<DataVersion>>,
) -> Option<DataVersion> {
    match sync {
        SyncPolicy::Timestamp(_) => crate::sync::spec_candidate(views),
        SyncPolicy::RealTime(_) => None,
    }
}

/// All fields of one node other than its emitted-sets counter are as they
/// were.
pub open spec fn spec_read_node_frame(prev: NodeInfo, node: NodeInfo) -> bool {
    &&& node.name == prev.name
    &&& node.role == prev.role
    &&& node.inputs == prev.inputs
    &&& node.input_tags == prev.input_tags
    &&& node.output_tags == prev.output_tags
    &&& node.sync == prev.sync
    &&& node.worker == prev.worker
    &&& node.consecutive_failures == prev.consecutive_failures
    &&& node.failure_threshold == prev.failure_threshold
}

/// How one invocation of a node's processing unit ended, as the worker
/// loop classifies it.
#[derive(Clone, Copy, Debug, PartialEq, Eq, Structural)]
pub enum ProcessOutcome {
    /// The unit handled its input; any failure streak is over.
    Success,
    /// A business-logic failure worth logging and skipping.
    Recoverable,
    /// A failure that stops this node only.
    Fatal,
    /// The source signalled exhaustion: the graph drains gracefully.
    EndOfStream,
}

/// What the scheduling loop does next after reporting an outcome.
#[derive(Clone, Copy, Debug, PartialEq, Eq, Structural)]
pub enum StepAction {
    /// Keep iterating.
    Continue,
    /// This node has been stopped; its worker exits.
    NodeStopped,
    /// Every worker has been signalled to drain and exit.
    GraphDraining,
}

/// The node's own input slots are closed with their contents kept; every
/// other slot is as it was.
pub open spec fn spec_node_slots_closed<T>(pre: Graph<T>, post: Graph<T>, id: int) -> bool {
    forall|s: int|
        0 <= s < pre.spec_slots().len() ==> if pre.spec_node_owns_slot(id, s) {
            spec_closed_like(pre.spec_slots()[s], #[trigger] post.spec_slots()[s])
        } else {
            post.spec_slots()[s] == pre.spec_slots()[s]
        }
}

/// Identity and configuration of one node are as they were; only worker
/// state and failure streak may move.
pub open spec fn spec_same_identity(prev: NodeInfo, node: NodeInfo) -> bool {
    &&& node.name == prev.name
    &&& node.role == prev.role
    &&& node.inputs == prev.inputs
    &&& node.input_tags == prev.input_tags
    &&& node.output_tags == prev.output_tags
    &&& node.sync == prev.sync
    &&& node.failure_threshold == prev.failure_threshold
    &&& node.sets_emitted == prev.sets_emitted
}

/// The edge leaves the given writer port.
pub open spec fn spec_edge_matches(e: Edge, from_node: usize, from_port: usize) -> bool {
    e.from_node == from_node && e.from_port == from_port
}

/// What one fan-out branch did: its reader slot took one private copy of
/// the packet under the slot's own overflow rules, and the branch reported
/// the slot's answer.
pub open spec fn spec_fanout_effect<T: Clone>(
    pre: Graph<T>,
    post: Graph<T>,
    e: int,
    p: Packet<T>,
    out: Option<Result<WriteOutcome, PipeError>>,
) -> bool {
    let edge = pre.spec_edges()[e];
    let s = edge.to_slot as int;
    let prev = pre.spec_slots()[s];
    let slot = post.spec_slots()[s];
    &&& out == Some(ChannelSlot::spec_enqueue_result(prev))
    &&& exists|d: T|
        #![auto]
        cloned::<T>(p.data, d) && slot.contents() == ChannelSlot::spec_enqueue_contents(
            prev,
            (Packet { data: d, version: p.version }),
        )
    &&& slot.spec_dropped() == ChannelSlot::spec_enqueue_dropped(prev)
    &&& slot.same_config(prev)
    &&& slot.spec_closed() == prev.spec_closed()
}

/// All fields of one node other than the worker state are as they were.
pub open spec fn spec_same_except_worker(prev: NodeInfo, node: NodeInfo) -> bool {
    &&& node.name == prev.name
    &&& node.role == prev.role
    &&& node.inputs == prev.inputs
    &&& node.input_tags == prev.input_tags
    &&& node.output_tags == prev.output_tags
    &&& node.sync == prev.sync
    &&& node.consecutive_failures == prev.consecutive_failures
    &&& node.failure_threshold == prev.failure_threshold
    &&& node.sets_emitted == prev.sets_emitted
}

/// The slot is as it was, except that it is now closed.
pub open spec fn spec_closed_like<T>(prev: ChannelSlot<T>, slot: ChannelSlot<T>) -> bool {
    &&& slot.contents() == prev.contents()
    &&& slot.same_config(prev)
    &&& slot.spec_dropped() == prev.spec_dropped()
    &&& slot.spec_closed()
}

/// Law: every version summary a node's synchronizer sees is ordered,
/// oldest first: the slots reorder packets by version on arrival, so the
/// policies' notion of "newest" really is the buffered maximum.
pub proof fn lemma_input_views_sorted<T>(g: Graph<T>, id: int)
    requires
        g.wf(),
        0 <= id < g.spec_nodes().len(),
    ensures
        crate::sync::all_sorted(g.spec_input_views(id)),
{
    let views = g.spec_input_views(id);
    assert forall|k: int| 0 <= k < views.len() implies crate::sync::versions_sorted(
        #[trigger] views[k],
    ) by {
        let flat = g.spec_nodes()[id].inputs@[k] as int;
        assert(g.spec_nodes()[id].inputs@[k] < g.spec_slots().len());
        let buffered = g.spec_slots()[flat].contents();
        assert(crate::channel::sorted_by_version(buffered));
        assert forall|i: int, j: int| 0 <= i < j < views[k].len() implies (
        #[trigger] views[k][i]).spec_le(#[trigger] views[k][j]) by {
            assert(views[k][i] == buffered[i].version);
            assert(views[k][j] == buffered[j].version);
            assert(buffered[i].version.spec_le(buffered[j].version));
        }
    }
}

/// Law: once every worker has exited — the state `stop` ensures — no node
/// is active any more, so by `write_from`'s contract every later write
/// attempt is rejected with `ChannelClosed` and leaves the graph exactly
/// as it was: no write occurs after `stop` returns.
pub proof fn lemma_stopped_graph_rejects_writes<T>(g: Graph<T>, id: int)
    requires
        0 <= id < g.spec_nodes().len(),
        forall|n: int|
            0 <= n < g.spec_nodes().len() ==> (#[trigger] g.spec_nodes()[n]).worker is Stopped,
    ensures
        !(g.spec_nodes()[id].worker is Running || g.spec_nodes()[id].worker is Draining),
{
}

/// Changing only worker states never breaks the graph invariant.
proof fn lemma_wf_after_worker_change<T>(pre: Graph<T>, post: Graph<T>, id: int)
    requires
        pre.wf(),
        0 <= id < pre.spec_nodes().len(),
        post.spec_nodes().len() == pre.spec_nodes().len(),
        forall|n: int|
            0 <= n < pre.spec_nodes().len() && n != id ==> #[trigger] post.spec_nodes()[n]
                == pre.spec_nodes()[n],
        ({
            let node = post.spec_nodes()[id];
            let prev = pre.spec_nodes()[id];
            &&& node.name == prev.name
            &&& node.role == prev.role
            &&& node.inputs == prev.inputs
            &&& node.input_tags == prev.input_tags
            &&& node.output_tags == prev.output_tags
            &&& node.failure_threshold == prev.failure_threshold
        }),
        post.spec_slots() == pre.spec_slots(),
        post.spec_slot_tags() == pre.spec_slot_tags(),
        post.spec_edges() == pre.spec_edges(),
    ensures
        post.wf(),
{
    assert forall|n: int| 0 <= n < post.spec_nodes().len() implies (#[trigger] post.spec_nodes()[n]).wf() by {
        assert(pre.spec_nodes()[n].wf());
    }
    assert forall|n: int, i: int|
        0 <= n < post.spec_nodes().len() && 0 <= i < post.spec_nodes()[n].inputs@.len() implies #[trigger] post.spec_nodes()[n].inputs@[i]
        < post.spec_slots().len() by {
        assert(pre.spec_nodes()[n].inputs@[i] < pre.spec_slots().len());
    }
    assert forall|n: int, i: int|
        0 <= n < post.spec_nodes().len() && 0 <= i
            < post.spec_nodes()[n].inputs@.len() implies post.spec_slot_tags()[#[trigger] post.spec_nodes()[n].inputs@[i] as int]
        == post.spec_nodes()[n].input_tags@[i] by {
        assert(pre.spec_slot_tags()[pre.spec_nodes()[n].inputs@[i] as int]
            == pre.spec_nodes()[n].input_tags@[i]);
    }
    assert forall|n1: int, i1: int, n2: int, i2: int|
        0 <= n1 < post.spec_nodes().len() && 0 <= i1 < post.spec_nodes()[n1].inputs@.len() && 0
            <= n2 < post.spec_nodes().len() && 0 <= i2 < post.spec_nodes()[n2].inputs@.len() && !(n1
            == n2 && i1 == i2) implies #[trigger] post.spec_nodes()[n1].inputs@[i1]
        != #[trigger] post.spec_nodes()[n2].inputs@[i2] by {
        assert(pre.spec_nodes()[n1].inputs@[i1] != pre.spec_nodes()[n2].inputs@[i2]);
    }
    assert forall|e: int|
        0 <= e < post.spec_edges().len() implies post.edge_wf(#[trigger] post.spec_edges()[e]) by {
        assert(pre.edge_wf(pre.spec_edges()[e]));
    }
    assert forall|n1: int, n2: int|
        0 <= n1 < post.spec_nodes().len() && 0 <= n2 < post.spec_nodes().len() && n1
            != n2 implies (#[trigger] post.spec_nodes()[n1]).name@
        != (#[trigger] post.spec_nodes()[n2]).name@ by {
        assert(pre.spec_nodes()[n1].name@ != pre.spec_nodes()[n2].name@);
    }
}

} // verus!
