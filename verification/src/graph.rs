use vstd::prelude::*;
use vstd::string::*;
use vstd::set_lib::{lemma_int_range, lemma_subset_equality, set_int_range};

verus! {

/// Why a graph operation was refused.
#[derive(Debug, Clone, PartialEq, Eq)]
pub enum GraphError {
    UnknownNode,
    UnknownParam,
    WrongContext,
    InvalidChannel,
    InvalidChannelCount,
    InvalidAudioBuffer,
    InvalidNodeLabel,
    InvalidConnectionIndex,
    InvalidFrequencyResponse,
    InvalidIirFilter,
    InvalidPeriodicWave,
    InvalidWaveShaperCurve,
    InvalidConvolverBuffer,
    InvalidAnalyserConfig,
    InvalidDelayTime,
    InvalidPannerConfig,
    UnsupportedPanningModel,
    InvalidLoopRange,
    InvalidAudioWorkletOptions,
    Cycle,
    ContextClosed,
    InvalidState,
    NegativeTime,
    SourceAlreadyStarted,
    SourceNotStarted,
    SourceAlreadyStopped,
    StopBeforeStart,
    InvalidAutomationValue,
    InvalidAutomationRate,
    ExternalSound(String),
}

/// How a node's channel count is computed from its inputs.
#[derive(Debug, Clone, Copy, PartialEq, Eq)]
pub enum ChannelCountMode {
    Max,
    ClampedMax,
    Explicit,
}

/// How channels are up- or down-mixed.
#[derive(Debug, Clone, Copy, PartialEq, Eq)]
pub enum ChannelInterpretation {
    Speakers,
    Discrete,
}

/// A node's channel configuration.
#[derive(Debug, Clone, Copy, PartialEq, Eq)]
pub struct ChannelConfig {
    pub channel_count: usize,
    pub channel_count_mode: ChannelCountMode,
    pub channel_interpretation: ChannelInterpretation,
}

/// What the topology rules need to know of a node: how many inputs and
/// outputs it has, whether it is a delay, and which channel rules hold.
#[derive(Debug, Clone, Copy, PartialEq, Eq)]
pub enum NodeRole {
    /// The graph's output, with its fixed channel count.
    Destination { channel_count: usize },
    /// A source: oscillator, constant, buffer or external sound.
    Source,
    /// A one-in, one-out node without channel limits: gain, filters,
    /// wave shaper, analyser.
    Processor,
    /// A delay node, which may close a cycle.
    Delay,
    /// A one-in, one-out node limited to two channels: stereo panner,
    /// panner, dynamics compressor, convolver.
    StereoLimited,
    ChannelSplitter { outputs: usize },
    ChannelMerger { inputs: usize },
    Worklet { inputs: usize, outputs: usize },
}

/// The number of inputs and outputs of a node.
pub open spec fn io_count(role: NodeRole) -> (usize, usize) {
    match role {
        NodeRole::Destination { .. } => (1, 0),
        NodeRole::Source => (0, 1),
        NodeRole::ChannelSplitter { outputs } => (1, outputs),
        NodeRole::ChannelMerger { inputs } => (inputs, 1),
        NodeRole::Worklet { inputs, outputs } => (inputs, outputs),
        _ => (1, 1),
    }
}

impl NodeRole {
    /// The number of inputs and outputs of the node.
    pub fn input_output_count(&self) -> (r: (usize, usize))
        ensures
            r == io_count(*self),
    {
        match self {
            NodeRole::Destination { .. } => (1, 0),
            NodeRole::Source => (0, 1),
            NodeRole::ChannelSplitter { outputs } => (1, *outputs),
            NodeRole::ChannelMerger { inputs } => (*inputs, 1),
            NodeRole::Worklet { inputs, outputs } => (*inputs, *outputs),
            _ => (1, 1),
        }
    }
}

/// A node of the graph, by its index.
#[derive(Debug, Clone, Copy, PartialEq, Eq, Hash, Structural)]
pub struct NodeId(pub usize);

/// Anything that names a node of a graph: a bare `NodeId`, or a handle that
/// also remembers which context made it.
pub trait AudioNodeHandle {
    /// The node this handle names.
    spec fn handle_node(&self) -> NodeId;

    /// The identity of the context that made the handle, if it carries one.
    spec fn handle_context(&self) -> Option<usize>;

    fn node_id(&self) -> (r: NodeId)
        ensures
            r == self.handle_node(),
    ;

    fn context_identity(&self) -> (r: Option<usize>)
        ensures
            r == self.handle_context(),
    ;
}

impl AudioNodeHandle for NodeId {
    open spec fn handle_node(&self) -> NodeId {
        *self
    }

    open spec fn handle_context(&self) -> Option<usize> {
        None
    }

    fn node_id(&self) -> (r: NodeId) {
        *self
    }

    fn context_identity(&self) -> (r: Option<usize>) {
        None
    }
}

/// Refuses a handle that was made by another context than the one whose
/// identity is `context`; a handle that carries no context is accepted.
pub fn check_handle_context<H: AudioNodeHandle>(context: usize, handle: &H) -> (r: Result<(), GraphError>)
    ensures
        r == (match handle.handle_context() {
            Some(c) if c != context => Err::<(), GraphError>(GraphError::WrongContext),
            _ => Ok(()),
        }),
{
    match handle.context_identity() {
        Some(c) => {
            if c != context {
                Err(GraphError::WrongContext)
            } else {
                Ok(())
            }
        },
        None => Ok(()),
    }
}

/// An audio parameter of a node, by the node and the parameter's index.
#[derive(Debug, Clone, Copy, PartialEq, Eq, Hash, Structural)]
pub struct ParamId {
    pub node: NodeId,
    pub param: usize,
}

/// An edge from an output of one node to an input of another.
#[derive(Debug, Clone, Copy, PartialEq, Eq, Structural)]
pub struct NodeConnection {
    pub source: NodeId,
    pub output: usize,
    pub destination: NodeId,
    pub input: usize,
}

/// An edge from an output of a node to an audio parameter.
#[derive(Debug, Clone, Copy, PartialEq, Eq, Structural)]
pub struct ParamConnection {
    pub source: NodeId,
    pub output: usize,
    pub destination: ParamId,
}

/// The mathematical content of a graph: its nodes and its two kinds of
/// connection, in the order they were made.
pub struct GraphView {
    pub nodes: Seq<NodeRole>,
    pub connections: Seq<NodeConnection>,
    pub param_connections: Seq<ParamConnection>,
}

/// The nodes and edges of an audio graph.
pub struct GraphTopology {
    pub nodes: Vec<NodeRole>,
    pub channel_configs: Vec<ChannelConfig>,
    pub labels: Vec<Option<String>>,
    pub connections: Vec<NodeConnection>,
    pub param_connections: Vec<ParamConnection>,
}

} // verus!

verus! {

/// The number of `true` entries.
pub open spec fn count_true(s: Seq<bool>) -> nat
    decreases s.len(),
{
    if s.len() == 0 {
        0
    } else {
        count_true(s.drop_last()) + if s.last() { 1nat } else { 0nat }
    }
}

proof fn lemma_count_true_bound(s: Seq<bool>)
    ensures
        count_true(s) <= s.len(),
    decreases s.len(),
{
    if s.len() > 0 {
        lemma_count_true_bound(s.drop_last());
    }
}

proof fn lemma_count_true_update(s: Seq<bool>, i: int)
    requires
        0 <= i < s.len(),
        !s[i],
    ensures
        count_true(s.update(i, true)) == count_true(s) + 1,
    decreases s.len(),
{
    let t = s.update(i, true);
    if i < s.len() - 1 {
        assert(t.drop_last() =~= s.drop_last().update(i, true));
        lemma_count_true_update(s.drop_last(), i);
    } else {
        assert(t.drop_last() =~= s.drop_last());
    }
}

/// A connection that joins existing nodes at an existing output and input.
pub open spec fn conn_ok(nodes: Seq<NodeRole>, c: NodeConnection) -> bool {
    &&& c.source.0 < nodes.len()
    &&& c.destination.0 < nodes.len()
    &&& c.output < io_count(nodes[c.source.0 as int]).1
    &&& c.input < io_count(nodes[c.destination.0 as int]).0
}

/// A parameter connection from an existing output to a parameter of an
/// existing node.
pub open spec fn param_ok(nodes: Seq<NodeRole>, c: ParamConnection) -> bool {
    &&& c.source.0 < nodes.len()
    &&& c.destination.node.0 < nodes.len()
    &&& c.output < io_count(nodes[c.source.0 as int]).1
}

impl View for GraphTopology {
    type V = GraphView;

    open spec fn view(&self) -> GraphView {
        GraphView { nodes: self.nodes@, connections: self.connections@, param_connections: self.param_connections@ }
    }
}

impl GraphTopology {
    /// Every table has one entry per node, and every edge joins existing
    /// nodes at existing outputs and inputs.
    pub open spec fn wf(&self) -> bool {
        &&& self.channel_configs@.len() == self.nodes@.len()
        &&& self.labels@.len() == self.nodes@.len()
        &&& self@.wf()
    }
}

impl GraphView {
    /// Every edge joins existing nodes at existing outputs and inputs.
    pub open spec fn wf(&self) -> bool {
        &&& forall|i: int| 0 <= i < self.connections.len() ==> conn_ok(self.nodes, #[trigger] self.connections[i])
        &&& forall|j: int| 0 <= j < self.param_connections.len() ==> param_ok(self.nodes, #[trigger] self.param_connections[j])
    }

    /// A node-to-node connection from `u` to `v`.
    pub open spec fn node_edge(&self, u: int, v: int) -> bool {
        exists|i: int| 0 <= i < self.connections.len()
            && #[trigger] self.connections[i].source.0 == u && self.connections[i].destination.0 == v
    }

    /// A connection from `u` to a parameter of `v`.
    pub open spec fn param_edge(&self, u: int, v: int) -> bool {
        exists|j: int| 0 <= j < self.param_connections.len()
            && #[trigger] self.param_connections[j].source.0 == u && self.param_connections[j].destination.node.0 == v
    }

    /// Signal flows from `u` to `v` along one connection.
    pub open spec fn edge(&self, u: int, v: int) -> bool {
        self.node_edge(u, v) || self.param_edge(u, v)
    }

    /// A sequence of nodes, each connected to the next.
    pub open spec fn is_path(&self, p: Seq<int>) -> bool {
        p.len() > 0 && forall|k: int| 0 <= k < p.len() - 1 ==> #[trigger] self.edge(p[k], p[k + 1])
    }

    /// Signal can flow from `u` to `v` along zero or more connections.
    pub open spec fn reachable(&self, u: int, v: int) -> bool {
        exists|p: Seq<int>| #[trigger] self.is_path(p) && p[0] == u && p.last() == v
    }

    proof fn lemma_reachable_refl(&self, u: int)
        ensures
            self.reachable(u, u),
    {
        let p = seq![u];
        assert(self.is_path(p));
    }
}

} // verus!

verus! {

impl GraphView {
    /// True when `id` names a delay node.
    pub open spec fn delay(&self, id: int) -> bool {
        0 <= id < self.nodes.len() && self.nodes[id] is Delay
    }

    /// Signal flows from `u` to `v` along one connection; with `live`, only
    /// along a connection that `u` must be computed before `v` for: a
    /// parameter connection, or a node connection into a node that is not a
    /// delay node.
    pub open spec fn step(&self, u: int, v: int, live: bool) -> bool {
        if live {
            (self.node_edge(u, v) && !self.delay(v)) || self.param_edge(u, v)
        } else {
            self.edge(u, v)
        }
    }

    /// A sequence of nodes, each joined to the next by a `step`.
    pub open spec fn is_walk(&self, p: Seq<int>, live: bool) -> bool {
        p.len() > 0 && forall|k: int| 0 <= k < p.len() - 1 ==> #[trigger] self.step(p[k], p[k + 1], live)
    }

    /// `v` is reached from `u` by zero or more steps.
    pub open spec fn walks(&self, u: int, v: int, live: bool) -> bool {
        exists|p: Seq<int>| #[trigger] self.is_walk(p, live) && p[0] == u && p.last() == v
    }

    /// `u` must be computed before `v`: a path of such connections leads
    /// from `u` to `v`, or they are the same node.
    pub open spec fn computed_before(&self, u: int, v: int) -> bool {
        self.walks(u, v, true)
    }

    /// A set of nodes that every step leaving it enters again.
    pub open spec fn closed_under(&self, set: Seq<bool>, live: bool) -> bool {
        forall|u: int, v: int| 0 <= u < set.len() && set[u] && #[trigger] self.step(u, v, live) ==> 0 <= v < set.len() && set[v]
    }

    proof fn lemma_walks_refl(&self, u: int, live: bool)
        ensures
            self.walks(u, u, live),
    {
        let p = seq![u];
        assert(self.is_walk(p, live));
    }

    proof fn lemma_walks_step(&self, u: int, v: int, w: int, live: bool)
        requires
            self.walks(u, v, live),
            self.step(v, w, live),
        ensures
            self.walks(u, w, live),
    {
        let p = choose|p: Seq<int>| #[trigger] self.is_walk(p, live) && p[0] == u && p.last() == v;
        let q = p.push(w);
        assert forall|k: int| 0 <= k < q.len() - 1 implies #[trigger] self.step(q[k], q[k + 1], live) by {
            if k < p.len() - 1 {
                assert(q[k] == p[k] && q[k + 1] == p[k + 1]);
            }
        }
        assert(self.is_walk(q, live));
    }

    proof fn lemma_closed_walk(&self, set: Seq<bool>, u: int, v: int, live: bool)
        requires
            self.closed_under(set, live),
            0 <= u < set.len(),
            set[u],
            self.walks(u, v, live),
        ensures
            0 <= v < set.len() && set[v],
    {
        let p = choose|p: Seq<int>| #[trigger] self.is_walk(p, live) && p[0] == u && p.last() == v;
        self.lemma_closed_walk_prefix(set, p, p.len() - 1, live);
    }

    proof fn lemma_closed_walk_prefix(&self, set: Seq<bool>, p: Seq<int>, k: int, live: bool)
        requires
            self.closed_under(set, live),
            self.is_walk(p, live),
            0 <= p[0] < set.len(),
            set[p[0]],
            0 <= k < p.len(),
        ensures
            0 <= p[k] < set.len() && set[p[k]],
        decreases k,
    {
        if k > 0 {
            self.lemma_closed_walk_prefix(set, p, k - 1, live);
            let j = k - 1;
            assert(self.step(p[j], p[j + 1], live));
            assert(j + 1 == k);
        }
    }

    /// Walking along any connection is following a path.
    proof fn lemma_walks_reachable(&self, u: int, v: int)
        ensures
            self.walks(u, v, false) == self.reachable(u, v),
    {
        if self.walks(u, v, false) {
            let p = choose|p: Seq<int>| #[trigger] self.is_walk(p, false) && p[0] == u && p.last() == v;
            assert forall|k: int| 0 <= k < p.len() - 1 implies #[trigger] self.edge(p[k], p[k + 1]) by {
                assert(self.step(p[k], p[k + 1], false));
            }
            assert(self.is_path(p));
        }
        if self.reachable(u, v) {
            let p = choose|p: Seq<int>| #[trigger] self.is_path(p) && p[0] == u && p.last() == v;
            assert forall|k: int| 0 <= k < p.len() - 1 implies #[trigger] self.step(p[k], p[k + 1], false) by {
                assert(self.edge(p[k], p[k + 1]));
            }
            assert(self.is_walk(p, false));
        }
    }
}

impl GraphTopology {
    /// True when `id` names a delay node.
    pub fn is_delay_node(&self, id: NodeId) -> (r: bool)
        ensures
            r == self@.delay(id.0 as int),
    {
        id.0 < self.nodes.len() && match self.nodes[id.0] {
            NodeRole::Delay => true,
            _ => false,
        }
    }

    /// Breadth-first search from `from` for `to`, along connections between
    /// any nodes, or with `live` only along connections between nodes that
    /// are not delay nodes.
    fn search(&self, from: usize, to: usize, live: bool) -> (r: bool)
        requires
            self.wf(),
            from < self.nodes@.len(),
        ensures
            r == self@.walks(from as int, to as int, live),
    {
        let n = self.nodes.len();
        let mut queued: Vec<bool> = Vec::new();
        let mut i: usize = 0;
        while i < n
            invariant
                i <= n,
                queued@.len() == i,
                forall|k: int| 0 <= k < i ==> !queued@[k],
            decreases n - i,
        {
            queued.push(false);
            i = i + 1;
        }
        proof {
            assert(count_true(queued@) == 0) by {
                lemma_count_true_zero(queued@);
            }
            lemma_count_true_update(queued@, from as int);
            self@.lemma_walks_refl(from as int, live);
        }
        queued.set(from, true);
        let mut queue: Vec<usize> = Vec::new();
        queue.push(from);
        proof {
            assert forall|x: int| 0 <= x < n && #[trigger] queued@[x] implies exists|k: int| 0 <= k < queue@.len() && queue@[k] == x by {
                assert(x == from as int);
                assert(queue@[0] == x);
            }
        }
        let mut head: usize = 0;
        while head < queue.len()
            invariant
                self.wf(),
                n == self.nodes@.len(),
                from < n,
                queued@.len() == n,
                head <= queue@.len(),
                queue@.len() == count_true(queued@),
                queue@[0] == from,
                queue@.len() > 0,
                forall|k: int| 0 <= k < queue@.len() ==> (#[trigger] queue@[k]) < n && queued@[queue@[k] as int],
                forall|x: int| 0 <= x < n && #[trigger] queued@[x] ==> exists|k: int| 0 <= k < queue@.len() && queue@[k] == x,
                forall|k: int| 0 <= k < queue@.len() ==> self@.walks(from as int, #[trigger] queue@[k] as int, live),
                forall|k: int| 0 <= k < head ==> #[trigger] queue@[k] != to,
                forall|k: int, v: int| 0 <= k < head && #[trigger] self@.step(queue@[k] as int, v, live) ==> 0 <= v < n && queued@[v],
            decreases n - head,
        {
            proof {
                lemma_count_true_bound(queued@);
            }
            let node = queue[head];
            if node == to {
                return true;
            }
            let ghost q0 = queue@;
            let ghost s0 = queued@;
            let mut c: usize = 0;
            while c < self.connections.len()
                invariant
                    self.wf(),
                    n == self.nodes@.len(),
                    from < n,
                    queued@.len() == n,
                    head < queue@.len(),
                    queue@[head as int] == node,
                    c <= self.connections@.len(),
                    queue@.len() == count_true(queued@),
                    queue@.len() >= q0.len(),
                    forall|k: int| 0 <= k < q0.len() ==> queue@[k] == q0[k],
                    s0.len() == n,
                    forall|x: int| 0 <= x < n && s0[x] ==> queued@[x],
                    forall|k: int| 0 <= k < queue@.len() ==> (#[trigger] queue@[k]) < n && queued@[queue@[k] as int],
                    forall|x: int| 0 <= x < n && #[trigger] queued@[x] ==> exists|k: int| 0 <= k < queue@.len() && queue@[k] == x,
                    forall|k: int| 0 <= k < queue@.len() ==> self@.walks(from as int, #[trigger] queue@[k] as int, live),
                    forall|i: int| 0 <= i < c && #[trigger] self.connections@[i].source.0 == node
                        && (!live || !self@.delay(self.connections@[i].destination.0 as int))
                        ==> queued@[self.connections@[i].destination.0 as int],
                decreases self.connections@.len() - c,
            {
                let conn = self.connections[c];
                if conn.source.0 == node {
                    let d = conn.destination.0;
                    proof {
                        assert(self@.node_edge(node as int, d as int));
                    }
                    if !live || !self.is_delay_node(NodeId(d)) {
                        proof {
                            assert(self@.step(node as int, d as int, live));
                            self@.lemma_walks_step(from as int, node as int, d as int, live);
                        }
                        if !queued[d] {
                            proof {
                                lemma_count_true_update(queued@, d as int);
                            }
                            let ghost oq = queue@;
                            let ghost os = queued@;
                            queued.set(d, true);
                            queue.push(d);
                            proof {
                                assert forall|x: int| 0 <= x < n && #[trigger] queued@[x] implies exists|k: int| 0 <= k < queue@.len() && queue@[k] == x by {
                                    if x == d {
                                        assert(queue@[queue@.len() - 1] == x);
                                    } else {
                                        assert(os[x]);
                                        let k = choose|k: int| 0 <= k < oq.len() && oq[k] == x;
                                        assert(queue@[k] == x);
                                    }
                                }
                            }
                        }
                    }
                }
                c = c + 1;
            }
            let ghost s1 = queued@;
            let mut c: usize = 0;
            while c < self.param_connections.len()
                invariant
                    self.wf(),
                    n == self.nodes@.len(),
                    from < n,
                    queued@.len() == n,
                    head < queue@.len(),
                    queue@[head as int] == node,
                    c <= self.param_connections@.len(),
                    queue@.len() == count_true(queued@),
                    queue@.len() >= q0.len(),
                    forall|k: int| 0 <= k < q0.len() ==> queue@[k] == q0[k],
                    s0.len() == n,
                    forall|x: int| 0 <= x < n && s0[x] ==> queued@[x],
                    forall|k: int| 0 <= k < queue@.len() ==> (#[trigger] queue@[k]) < n && queued@[queue@[k] as int],
                    forall|x: int| 0 <= x < n && #[trigger] queued@[x] ==> exists|k: int| 0 <= k < queue@.len() && queue@[k] == x,
                    forall|k: int| 0 <= k < queue@.len() ==> self@.walks(from as int, #[trigger] queue@[k] as int, live),
                    s1.len() == n,
                    forall|x: int| 0 <= x < n && #[trigger] s1[x] ==> queued@[x],
                    forall|i: int| 0 <= i < self.connections@.len() && #[trigger] self.connections@[i].source.0 == node
                        && (!live || !self@.delay(self.connections@[i].destination.0 as int))
                        ==> s1[self.connections@[i].destination.0 as int],
                    forall|i: int| 0 <= i < c && #[trigger] self.param_connections@[i].source.0 == node
                        ==> queued@[self.param_connections@[i].destination.node.0 as int],
                decreases self.param_connections@.len() - c,
            {
                let conn = self.param_connections[c];
                if conn.source.0 == node {
                    let d = conn.destination.node.0;
                    proof {
                        assert(self@.param_edge(node as int, d as int));
                    }
                    {
                        proof {
                            assert(self@.step(node as int, d as int, live));
                            self@.lemma_walks_step(from as int, node as int, d as int, live);
                        }
                        if !queued[d] {
                            proof {
                                lemma_count_true_update(queued@, d as int);
                            }
                            let ghost oq = queue@;
                            let ghost os = queued@;
                            queued.set(d, true);
                            queue.push(d);
                            proof {
                                assert forall|x: int| 0 <= x < n && #[trigger] queued@[x] implies exists|k: int| 0 <= k < queue@.len() && queue@[k] == x by {
                                    if x == d {
                                        assert(queue@[queue@.len() - 1] == x);
                                    } else {
                                        assert(os[x]);
                                        let k = choose|k: int| 0 <= k < oq.len() && oq[k] == x;
                                        assert(queue@[k] == x);
                                    }
                                }
                            }
                        }
                    }
                }
                c = c + 1;
            }
            proof {
                assert forall|k: int| 0 <= k < head + 1 implies #[trigger] queue@[k] != to by {
                    if k < head {
                        assert(queue@[k] == q0[k]);
                    }
                }
                assert forall|k: int, v: int| 0 <= k < head + 1 && #[trigger] self@.step(queue@[k] as int, v, live) implies 0 <= v < n && queued@[v] by {
                    if k == head {
                        if self@.node_edge(node as int, v) && (!live || !self@.delay(v)) {
                            let i = choose|i: int| 0 <= i < self.connections@.len()
                                && #[trigger] self.connections@[i].source.0 == node as int && self.connections@[i].destination.0 == v;
                            assert(s1[self.connections@[i].destination.0 as int]);
                            assert(queued@[v]);
                        } else {
                            assert(self@.param_edge(node as int, v));
                            let i = choose|i: int| 0 <= i < self.param_connections@.len()
                                && #[trigger] self.param_connections@[i].source.0 == node as int && self.param_connections@[i].destination.node.0 == v;
                            assert(queued@[self.param_connections@[i].destination.node.0 as int]);
                        }
                    } else {
                        assert(queue@[k] == q0[k]);
                        assert(self@.step(q0[k] as int, v, live));
                    }
                }
            }
            head = head + 1;
        }
        proof {
            assert(self@.closed_under(queued@, live)) by {
                assert forall|u: int, v: int| 0 <= u < queued@.len() && queued@[u] && #[trigger] self@.step(u, v, live) implies 0 <= v < queued@.len() && queued@[v] by {
                    let k = choose|k: int| 0 <= k < queue@.len() && queue@[k] == u;
                    assert(self@.step(queue@[k] as int, v, live));
                }
            }
            if self@.walks(from as int, to as int, live) {
                self@.lemma_closed_walk(queued@, from as int, to as int, live);
                let k = choose|k: int| 0 <= k < queue@.len() && queue@[k] == to as int;
                assert(queue@[k] != to);
            }
        }
        false
    }
}

proof fn lemma_count_true_zero(s: Seq<bool>)
    requires
        forall|k: int| 0 <= k < s.len() ==> !s[k],
    ensures
        count_true(s) == 0,
    decreases s.len(),
{
    if s.len() > 0 {
        lemma_count_true_zero(s.drop_last());
    }
}

} // verus!

verus! {

impl GraphView {
    /// Whether `id` names a node of the graph.
    pub open spec fn node_check(&self, id: NodeId) -> Result<(), GraphError> {
        if id.0 < self.nodes.len() { Ok(()) } else { Err(GraphError::UnknownNode) }
    }

    /// Whether `output` is an output of the node `source`.
    pub open spec fn output_check(&self, source: NodeId, output: usize) -> Result<(), GraphError> {
        if source.0 >= self.nodes.len() {
            Err(GraphError::UnknownNode)
        } else if output < io_count(self.nodes[source.0 as int]).1 {
            Ok(())
        } else {
            Err(GraphError::InvalidConnectionIndex)
        }
    }

    /// Whether `input` is an input of the node `target`.
    pub open spec fn input_check(&self, target: NodeId, input: usize) -> Result<(), GraphError> {
        if target.0 >= self.nodes.len() {
            Err(GraphError::UnknownNode)
        } else if input < io_count(self.nodes[target.0 as int]).0 {
            Ok(())
        } else {
            Err(GraphError::InvalidConnectionIndex)
        }
    }

    /// What connecting `source`'s output to `target`'s input answers: the
    /// index checks, then a refusal exactly when the connection would close
    /// a cycle that no schedule can order, one that does not pass through a
    /// node connection into a delay node. A delay elsewhere in the graph,
    /// even one that `target` reaches, does not make such a cycle
    /// acceptable: `compile_order` would refuse the graph.
    pub open spec fn connect_check(&self, source: NodeId, output: usize, target: NodeId, input: usize) -> Result<(), GraphError> {
        if self.output_check(source, output) is Err {
            self.output_check(source, output)
        } else if self.input_check(target, input) is Err {
            self.input_check(target, input)
        } else if !self.delay(target.0 as int) && self.computed_before(target.0 as int, source.0 as int) {
            Err(GraphError::Cycle)
        } else {
            Ok(())
        }
    }

    /// Whether `output` is an output of `source` and `target` a parameter of
    /// an existing node.
    pub open spec fn param_index_check(&self, source: NodeId, output: usize, target: ParamId) -> Result<(), GraphError> {
        if self.output_check(source, output) is Err {
            self.output_check(source, output)
        } else {
            self.node_check(target.node)
        }
    }

    /// What connecting `source`'s output to the parameter `target` answers:
    /// the index checks, then a refusal exactly when the connection would
    /// close a cycle that no schedule can order: a parameter connection must
    /// always be computed first, even into a delay node.
    pub open spec fn param_connect_check(&self, source: NodeId, output: usize, target: ParamId) -> Result<(), GraphError> {
        if self.param_index_check(source, output, target) is Err {
            self.param_index_check(source, output, target)
        } else if self.computed_before(target.node.0 as int, source.0 as int) {
            Err(GraphError::Cycle)
        } else {
            Ok(())
        }
    }
}

/// `s` with `x` added at the end unless it is already there.
pub open spec fn add_once<T>(s: Seq<T>, x: T) -> Seq<T> {
    if s.contains(x) { s } else { s.push(x) }
}

/// Keeps the entries that differ from `x`.
pub open spec fn differs_from<T>(x: T) -> spec_fn(T) -> bool {
    |y: T| y != x
}

/// Keeps the node connections that leave some node other than `source`.
pub open spec fn not_from(source: NodeId) -> spec_fn(NodeConnection) -> bool {
    |c: NodeConnection| c.source != source
}

/// Keeps the parameter connections that leave some node other than
/// `source`.
pub open spec fn param_not_from(source: NodeId) -> spec_fn(ParamConnection) -> bool {
    |c: ParamConnection| c.source != source
}

/// `s` without any entry equal to `x`.
pub open spec fn without<T>(s: Seq<T>, x: T) -> Seq<T> {
    s.filter(differs_from(x))
}

impl GraphTopology {
    /// True when signal can flow from `from` to `to`, including when they
    /// are the same node.
    pub fn has_path(&self, from: NodeId, to: NodeId) -> (r: bool)
        requires
            self.wf(),
            from.0 < self.nodes@.len() || from == to,
        ensures
            r == self@.reachable(from.0 as int, to.0 as int),
    {
        if from.0 == to.0 {
            proof { self@.lemma_reachable_refl(from.0 as int); }
            return true;
        }
        proof { self@.lemma_walks_reachable(from.0 as int, to.0 as int); }
        self.search(from.0, to.0, false)
    }

    /// True when every cycle that a new node connection from `source` to
    /// `target` would close passes a delay node's input, so that a schedule
    /// can still order it: `target` is a delay node, or `target` need not be
    /// computed before `source`.
    pub fn cycle_contains_delay(&self, source: NodeId, target: NodeId) -> (r: bool)
        requires
            self.wf(),
            target.0 < self.nodes@.len(),
        ensures
            r == (self@.delay(target.0 as int) || !self@.computed_before(target.0 as int, source.0 as int)),
    {
        if self.is_delay_node(target) {
            return true;
        }
        !self.search(target.0, source.0, true)
    }

    /// Checks that `id` names a node.
    pub fn validate_node(&self, id: NodeId) -> (r: Result<(), GraphError>)
        ensures
            r == self@.node_check(id),
    {
        if id.0 < self.nodes.len() { Ok(()) } else { Err(GraphError::UnknownNode) }
    }

    /// Checks that `output` is an output of `source`.
    pub fn validate_output_index(&self, source: NodeId, output: usize) -> (r: Result<(), GraphError>)
        ensures
            r == self@.output_check(source, output),
    {
        self.validate_node(source)?;
        let (_, outputs) = self.nodes[source.0].input_output_count();
        if output < outputs { Ok(()) } else { Err(GraphError::InvalidConnectionIndex) }
    }

    /// Checks that `input` is an input of `target`.
    pub fn validate_input_index(&self, target: NodeId, input: usize) -> (r: Result<(), GraphError>)
        ensures
            r == self@.input_check(target, input),
    {
        self.validate_node(target)?;
        let (inputs, _) = self.nodes[target.0].input_output_count();
        if input < inputs { Ok(()) } else { Err(GraphError::InvalidConnectionIndex) }
    }
}

fn contains_connection(list: &Vec<NodeConnection>, c: NodeConnection) -> (r: bool)
    ensures
        r == list@.contains(c),
{
    let mut i: usize = 0;
    while i < list.len()
        invariant
            i <= list@.len(),
            forall|k: int| 0 <= k < i ==> list@[k] != c,
        decreases list@.len() - i,
    {
        if list[i] == c {
            assert(list@[i as int] == c);
            return true;
        }
        i = i + 1;
    }
    false
}

fn contains_param_connection(list: &Vec<ParamConnection>, c: ParamConnection) -> (r: bool)
    ensures
        r == list@.contains(c),
{
    let mut i: usize = 0;
    while i < list.len()
        invariant
            i <= list@.len(),
            forall|k: int| 0 <= k < i ==> list@[k] != c,
        decreases list@.len() - i,
    {
        if list[i] == c {
            assert(list@[i as int] == c);
            return true;
        }
        i = i + 1;
    }
    false
}

} // verus!

verus! {

/// The connection from `source`'s output to `target`'s input.
pub open spec fn node_conn(source: NodeId, output: usize, target: NodeId, input: usize) -> NodeConnection {
    NodeConnection { source, output, destination: target, input }
}

proof fn lemma_filter_connections_wf(g: GraphView, pred: spec_fn(NodeConnection) -> bool)
    requires
        g.wf(),
    ensures
        (GraphView { connections: g.connections.filter(pred), ..g }).wf(),
{
    let h = GraphView { connections: g.connections.filter(pred), ..g };
    assert forall|i: int| 0 <= i < h.connections.len() implies conn_ok(h.nodes, #[trigger] h.connections[i]) by {
        assert(h.connections.contains(h.connections[i]));
        g.connections.lemma_filter_contains_rev(pred, h.connections[i]);
        let j = choose|j: int| 0 <= j < g.connections.len() && g.connections[j] == h.connections[i];
        assert(g.connections[j] == h.connections[i]);
    }
}

proof fn lemma_filter_params_wf(g: GraphView, pred: spec_fn(ParamConnection) -> bool)
    requires
        g.wf(),
    ensures
        (GraphView { param_connections: g.param_connections.filter(pred), ..g }).wf(),
{
    let h = GraphView { param_connections: g.param_connections.filter(pred), ..g };
    assert forall|i: int| 0 <= i < h.param_connections.len() implies param_ok(h.nodes, #[trigger] h.param_connections[i]) by {
        assert(h.param_connections.contains(h.param_connections[i]));
        g.param_connections.lemma_filter_contains_rev(pred, h.param_connections[i]);
        let j = choose|j: int| 0 <= j < g.param_connections.len() && g.param_connections[j] == h.param_connections[i];
        assert(g.param_connections[j] == h.param_connections[i]);
    }
}

fn filter_connections(list: &Vec<NodeConnection>, drop: NodeConnection, by_source: bool) -> (r: Vec<NodeConnection>)
    ensures
        r@ == list@.filter(if by_source { not_from(drop.source) } else { differs_from(drop) }),
{
    let ghost pred = if by_source { not_from(drop.source) } else { differs_from(drop) };
    let mut r: Vec<NodeConnection> = Vec::new();
    let mut i: usize = 0;
    while i < list.len()
        invariant
            i <= list@.len(),
            pred == (if by_source { not_from(drop.source) } else { differs_from(drop) }),
            r@ == list@.take(i as int).filter(pred),
        decreases list@.len() - i,
    {
        let c = list[i];
        proof {
            assert(list@.take(i + 1) =~= list@.take(i as int).push(c));
            list@.take(i as int).lemma_filter_push(c, pred);
        }
        let keep = if by_source { c.source != drop.source } else { c != drop };
        assert(keep == pred(c));
        if keep {
            r.push(c);
        }
        i = i + 1;
    }
    assert(list@.take(list@.len() as int) =~= list@);
    r
}

fn filter_param_connections(list: &Vec<ParamConnection>, drop: ParamConnection, by_source: bool) -> (r: Vec<ParamConnection>)
    ensures
        r@ == list@.filter(if by_source { param_not_from(drop.source) } else { differs_from(drop) }),
{
    let ghost pred = if by_source { param_not_from(drop.source) } else { differs_from(drop) };
    let mut r: Vec<ParamConnection> = Vec::new();
    let mut i: usize = 0;
    while i < list.len()
        invariant
            i <= list@.len(),
            pred == (if by_source { param_not_from(drop.source) } else { differs_from(drop) }),
            r@ == list@.take(i as int).filter(pred),
        decreases list@.len() - i,
    {
        let c = list[i];
        proof {
            assert(list@.take(i + 1) =~= list@.take(i as int).push(c));
            list@.take(i as int).lemma_filter_push(c, pred);
        }
        let keep = if by_source { c.source != drop.source } else { c != drop };
        assert(keep == pred(c));
        if keep {
            r.push(c);
        }
        i = i + 1;
    }
    assert(list@.take(list@.len() as int) =~= list@);
    r
}

impl GraphTopology {
    /// Everything but the node-to-node connections is as in `other`.
    pub open spec fn same_except_connections(&self, other: &GraphTopology) -> bool {
        &&& self.nodes@ == other.nodes@
        &&& self.channel_configs@ == other.channel_configs@
        &&& self.labels@ == other.labels@
        &&& self.param_connections@ == other.param_connections@
    }

    /// Everything but the parameter connections is as in `other`.
    pub open spec fn same_except_params(&self, other: &GraphTopology) -> bool {
        &&& self.nodes@ == other.nodes@
        &&& self.channel_configs@ == other.channel_configs@
        &&& self.labels@ == other.labels@
        &&& self.connections@ == other.connections@
    }

    /// Connects `source`'s output to `target`'s input, unless that would
    /// close a cycle that no delay guards.  A connection that exists already
    /// is not added twice.
    pub fn connect_nodes_with_indices(&mut self, source: NodeId, output: usize, target: NodeId, input: usize)
        -> (r: Result<(), GraphError>)
        requires
            old(self).wf(),
        ensures
            r == old(self)@.connect_check(source, output, target, input),
            final(self).wf(),
            final(self).same_except_connections(old(self)),
            final(self).connections@ == if r is Ok {
                add_once(old(self).connections@, node_conn(source, output, target, input))
            } else {
                old(self).connections@
            },
    {
        self.validate_output_index(source, output)?;
        self.validate_input_index(target, input)?;
        if !self.cycle_contains_delay(source, target) {
            return Err(GraphError::Cycle);
        }
        let connection = NodeConnection { source, output, destination: target, input };
        if !contains_connection(&self.connections, connection) {
            self.connections.push(connection);
            proof {
                assert forall|i: int| 0 <= i < self@.connections.len() implies conn_ok(self@.nodes, #[trigger] self@.connections[i]) by {
                    if i < old(self).connections@.len() {
                        assert(self.connections@[i] == old(self).connections@[i]);
                        assert(old(self)@.connections[i] == old(self).connections@[i]);
                    } else {
                        assert(self.connections@[i] == connection);
                    }
                }
                assert(self@.param_connections == old(self)@.param_connections);
                assert(self@.nodes == old(self)@.nodes);
            }
        }
        assert(self@.wf());
        Ok(())
    }

    /// Connects output 0 of `source` to input 0 of `target`.
    pub fn connect_nodes(&mut self, source: NodeId, target: NodeId) -> (r: Result<(), GraphError>)
        requires
            old(self).wf(),
        ensures
            r == old(self)@.connect_check(source, 0, target, 0),
            final(self).wf(),
            final(self).same_except_connections(old(self)),
            final(self).connections@ == if r is Ok {
                add_once(old(self).connections@, node_conn(source, 0, target, 0))
            } else {
                old(self).connections@
            },
    {
        self.connect_nodes_with_indices(source, 0, target, 0)
    }

    /// Removes the connection from `source`'s output to `target`'s input,
    /// after checking both indices.
    pub fn disconnect_nodes_with_indices(&mut self, source: NodeId, output: usize, target: NodeId, input: usize)
        -> (r: Result<(), GraphError>)
        requires
            old(self).wf(),
        ensures
            r == (if old(self)@.output_check(source, output) is Err {
                old(self)@.output_check(source, output)
            } else {
                old(self)@.input_check(target, input)
            }),
            final(self).wf(),
            final(self).same_except_connections(old(self)),
            final(self).connections@ == if r is Ok {
                without(old(self).connections@, node_conn(source, output, target, input))
            } else {
                old(self).connections@
            },
    {
        self.validate_output_index(source, output)?;
        self.validate_input_index(target, input)?;
        let drop = NodeConnection { source, output, destination: target, input };
        let kept = filter_connections(&self.connections, drop, false);
        proof {
            lemma_filter_connections_wf(old(self)@, differs_from(drop));
        }
        self.connections = kept;
        Ok(())
    }

    /// Removes the connection from output 0 of `source` to input 0 of
    /// `target`.
    pub fn disconnect_nodes(&mut self, source: NodeId, target: NodeId) -> (r: Result<(), GraphError>)
        requires
            old(self).wf(),
        ensures
            r == (if old(self)@.output_check(source, 0) is Err {
                old(self)@.output_check(source, 0)
            } else {
                old(self)@.input_check(target, 0)
            }),
            final(self).wf(),
            final(self).same_except_connections(old(self)),
            final(self).connections@ == if r is Ok {
                without(old(self).connections@, node_conn(source, 0, target, 0))
            } else {
                old(self).connections@
            },
    {
        self.disconnect_nodes_with_indices(source, 0, target, 0)
    }

    /// Removes every node-to-node connection that leaves `source`.
    pub fn disconnect_outputs(&mut self, source: NodeId) -> (r: Result<(), GraphError>)
        requires
            old(self).wf(),
        ensures
            r == old(self)@.node_check(source),
            final(self).wf(),
            final(self).same_except_connections(old(self)),
            final(self).connections@ == if r is Ok {
                old(self).connections@.filter(not_from(source))
            } else {
                old(self).connections@
            },
    {
        self.validate_node(source)?;
        let drop = NodeConnection { source, output: 0, destination: source, input: 0 };
        let kept = filter_connections(&self.connections, drop, true);
        proof {
            assert(kept@ =~= old(self).connections@.filter(not_from(source)));
            lemma_filter_connections_wf(old(self)@, not_from(source));
        }
        self.connections = kept;
        Ok(())
    }

    /// Connects `source`'s output to the audio parameter `target`.  A
    /// connection that exists already is not added twice.
    pub fn connect_param_node_from_output(&mut self, source: NodeId, output: usize, target: ParamId)
        -> (r: Result<(), GraphError>)
        requires
            old(self).wf(),
        ensures
            r == old(self)@.param_connect_check(source, output, target),
            final(self).wf(),
            final(self).same_except_params(old(self)),
            final(self).param_connections@ == if r is Ok {
                add_once(old(self).param_connections@, ParamConnection { source, output, destination: target })
            } else {
                old(self).param_connections@
            },
    {
        self.validate_output_index(source, output)?;
        self.validate_node(target.node)?;
        if self.search(target.node.0, source.0, true) {
            return Err(GraphError::Cycle);
        }
        let connection = ParamConnection { source, output, destination: target };
        if !contains_param_connection(&self.param_connections, connection) {
            self.param_connections.push(connection);
            proof {
                assert forall|i: int| 0 <= i < self@.param_connections.len() implies param_ok(self@.nodes, #[trigger] self@.param_connections[i]) by {
                    if i < old(self).param_connections@.len() {
                        assert(self.param_connections@[i] == old(self).param_connections@[i]);
                        assert(old(self)@.param_connections[i] == old(self).param_connections@[i]);
                    } else {
                        assert(self.param_connections@[i] == connection);
                    }
                }
                assert(self@.connections == old(self)@.connections);
                assert(self@.nodes == old(self)@.nodes);
            }
        }
        Ok(())
    }

    /// Connects output 0 of `source` to the audio parameter `target`.
    pub fn connect_param_node(&mut self, source: NodeId, target: ParamId) -> (r: Result<(), GraphError>)
        requires
            old(self).wf(),
        ensures
            r == old(self)@.param_connect_check(source, 0, target),
            final(self).wf(),
            final(self).same_except_params(old(self)),
            final(self).param_connections@ == if r is Ok {
                add_once(old(self).param_connections@, ParamConnection { source, output: 0, destination: target })
            } else {
                old(self).param_connections@
            },
    {
        self.connect_param_node_from_output(source, 0, target)
    }

    /// Removes the connection from `source`'s output to the parameter
    /// `target`.
    pub fn disconnect_param_node_from_output(&mut self, source: NodeId, output: usize, target: ParamId)
        -> (r: Result<(), GraphError>)
        requires
            old(self).wf(),
        ensures
            r == old(self)@.param_index_check(source, output, target),
            final(self).wf(),
            final(self).same_except_params(old(self)),
            final(self).param_connections@ == if r is Ok {
                without(old(self).param_connections@, ParamConnection { source, output, destination: target })
            } else {
                old(self).param_connections@
            },
    {
        self.validate_output_index(source, output)?;
        self.validate_node(target.node)?;
        let drop = ParamConnection { source, output, destination: target };
        let kept = filter_param_connections(&self.param_connections, drop, false);
        proof {
            lemma_filter_params_wf(old(self)@, differs_from(drop));
        }
        self.param_connections = kept;
        Ok(())
    }

    /// Removes the connection from output 0 of `source` to the parameter
    /// `target`.
    pub fn disconnect_param_node(&mut self, source: NodeId, target: ParamId) -> (r: Result<(), GraphError>)
        requires
            old(self).wf(),
        ensures
            r == old(self)@.param_index_check(source, 0, target),
            final(self).wf(),
            final(self).same_except_params(old(self)),
            final(self).param_connections@ == if r is Ok {
                without(old(self).param_connections@, ParamConnection { source, output: 0, destination: target })
            } else {
                old(self).param_connections@
            },
    {
        self.disconnect_param_node_from_output(source, 0, target)
    }

    /// Removes every parameter connection that leaves `source`.
    pub fn disconnect_param_outputs(&mut self, source: NodeId) -> (r: Result<(), GraphError>)
        requires
            old(self).wf(),
        ensures
            r == old(self)@.node_check(source),
            final(self).wf(),
            final(self).same_except_params(old(self)),
            final(self).param_connections@ == if r is Ok {
                old(self).param_connections@.filter(param_not_from(source))
            } else {
                old(self).param_connections@
            },
    {
        self.validate_node(source)?;
        let drop = ParamConnection { source, output: 0, destination: ParamId { node: source, param: 0 } };
        let kept = filter_param_connections(&self.param_connections, drop, true);
        proof {
            assert(kept@ =~= old(self).param_connections@.filter(param_not_from(source)));
            lemma_filter_params_wf(old(self)@, param_not_from(source));
        }
        self.param_connections = kept;
        Ok(())
    }
}

} // verus!

verus! {

/// Information about a node.
#[derive(Debug, Clone, Copy, PartialEq, Eq)]
pub struct AudioNodeInfo {
    pub number_of_inputs: usize,
    pub number_of_outputs: usize,
    pub channel_count: usize,
    pub channel_count_mode: ChannelCountMode,
    pub channel_interpretation: ChannelInterpretation,
}

/// The channel configuration a new node starts with.
pub open spec fn default_config(role: NodeRole) -> ChannelConfig {
    match role {
        NodeRole::Destination { channel_count } => ChannelConfig {
            channel_count,
            channel_count_mode: ChannelCountMode::Explicit,
            channel_interpretation: ChannelInterpretation::Speakers,
        },
        NodeRole::StereoLimited => ChannelConfig {
            channel_count: 2,
            channel_count_mode: ChannelCountMode::ClampedMax,
            channel_interpretation: ChannelInterpretation::Speakers,
        },
        NodeRole::ChannelSplitter { outputs } => ChannelConfig {
            channel_count: outputs,
            channel_count_mode: ChannelCountMode::Explicit,
            channel_interpretation: ChannelInterpretation::Discrete,
        },
        NodeRole::ChannelMerger { .. } => ChannelConfig {
            channel_count: 1,
            channel_count_mode: ChannelCountMode::Explicit,
            channel_interpretation: ChannelInterpretation::Speakers,
        },
        _ => ChannelConfig {
            channel_count: 2,
            channel_count_mode: ChannelCountMode::Max,
            channel_interpretation: ChannelInterpretation::Speakers,
        },
    }
}

fn initial_config(role: NodeRole) -> (r: ChannelConfig)
    ensures
        r == default_config(role),
{
    match role {
        NodeRole::Destination { channel_count } => ChannelConfig {
            channel_count,
            channel_count_mode: ChannelCountMode::Explicit,
            channel_interpretation: ChannelInterpretation::Speakers,
        },
        NodeRole::StereoLimited => ChannelConfig {
            channel_count: 2,
            channel_count_mode: ChannelCountMode::ClampedMax,
            channel_interpretation: ChannelInterpretation::Speakers,
        },
        NodeRole::ChannelSplitter { outputs } => ChannelConfig {
            channel_count: outputs,
            channel_count_mode: ChannelCountMode::Explicit,
            channel_interpretation: ChannelInterpretation::Discrete,
        },
        NodeRole::ChannelMerger { .. } => ChannelConfig {
            channel_count: 1,
            channel_count_mode: ChannelCountMode::Explicit,
            channel_interpretation: ChannelInterpretation::Speakers,
        },
        _ => ChannelConfig {
            channel_count: 2,
            channel_count_mode: ChannelCountMode::Max,
            channel_interpretation: ChannelInterpretation::Speakers,
        },
    }
}

/// Whether a channel configuration is allowed for a node of the given role.
pub open spec fn channel_rule(role: NodeRole, count: usize, mode: ChannelCountMode, interp: ChannelInterpretation) -> bool {
    match role {
        NodeRole::Destination { channel_count } => count == channel_count && mode == ChannelCountMode::Explicit
            && interp == ChannelInterpretation::Speakers,
        NodeRole::StereoLimited => count <= 2 && mode != ChannelCountMode::Max,
        NodeRole::ChannelSplitter { outputs } => count == outputs && mode == ChannelCountMode::Explicit
            && interp == ChannelInterpretation::Discrete,
        NodeRole::ChannelMerger { .. } => count == 1 && mode == ChannelCountMode::Explicit,
        _ => true,
    }
}

/// Checks a channel configuration against the rules of the node's role.
pub fn validate_channel_config_for_node(role: &NodeRole, channel_count: usize, channel_count_mode: ChannelCountMode,
    channel_interpretation: ChannelInterpretation) -> (r: Result<(), GraphError>)
    ensures
        r is Ok <==> channel_rule(*role, channel_count, channel_count_mode, channel_interpretation),
        r is Err ==> r == Err::<(), GraphError>(GraphError::InvalidChannelCount),
{
    let ok = match role {
        NodeRole::Destination { channel_count: fixed } => channel_count == *fixed
            && matches!(channel_count_mode, ChannelCountMode::Explicit)
            && matches!(channel_interpretation, ChannelInterpretation::Speakers),
        NodeRole::StereoLimited => channel_count <= 2 && !matches!(channel_count_mode, ChannelCountMode::Max),
        NodeRole::ChannelSplitter { outputs } => channel_count == *outputs
            && matches!(channel_count_mode, ChannelCountMode::Explicit)
            && matches!(channel_interpretation, ChannelInterpretation::Discrete),
        NodeRole::ChannelMerger { .. } => channel_count == 1 && matches!(channel_count_mode, ChannelCountMode::Explicit),
        _ => true,
    };
    if ok { Ok(()) } else { Err(GraphError::InvalidChannelCount) }
}

/// What each role allows: a stereo-limited node (such as a stereo panner)
/// at most two channels and never the `Max` mode; the destination exactly
/// its own channel count, explicitly, with speaker mixing; a splitter one
/// channel per output, explicitly and discretely; a merger one channel,
/// explicitly; any other node every configuration.
pub proof fn law_channel_rules_by_role(role: NodeRole, count: usize, mode: ChannelCountMode, interp: ChannelInterpretation)
    ensures
        role is StereoLimited && count > 2 ==> !channel_rule(role, count, mode, interp),
        role is StereoLimited && mode == ChannelCountMode::Max ==> !channel_rule(role, count, mode, interp),
        role is StereoLimited && count <= 2 && mode != ChannelCountMode::Max ==> channel_rule(role, count, mode, interp),
        role is Destination ==> (channel_rule(role, count, mode, interp)
            <==> count == role->channel_count && mode == ChannelCountMode::Explicit
                && interp == ChannelInterpretation::Speakers),
        role is ChannelSplitter ==> (channel_rule(role, count, mode, interp)
            <==> count == role->ChannelSplitter_outputs && mode == ChannelCountMode::Explicit
                && interp == ChannelInterpretation::Discrete),
        role is ChannelMerger ==> (channel_rule(role, count, mode, interp)
            <==> count == 1 && mode == ChannelCountMode::Explicit),
        !(role is StereoLimited || role is Destination || role is ChannelSplitter || role is ChannelMerger)
            ==> channel_rule(role, count, mode, interp),
{
}

/// A label names a node: it is not empty and holds no `.` or `#`.
pub open spec fn label_ok(label: Seq<char>) -> bool {
    label.len() > 0 && !label.contains('.') && !label.contains('#')
}

/// No two nodes carry the same label.
pub open spec fn labels_unique(labels: Seq<Option<String>>) -> bool {
    forall|i: int, j: int| 0 <= i < labels.len() && 0 <= j < labels.len() && i != j
        && (#[trigger] labels[i]) is Some && (#[trigger] labels[j]) is Some
        ==> labels[i]->0@ != labels[j]->0@
}

fn valid_label(label: &str) -> (r: bool)
    ensures
        r == label_ok(label@),
{
    let len = label.unicode_len();
    if len == 0 {
        return false;
    }
    let mut i: usize = 0;
    while i < len
        invariant
            len == label@.len(),
            i <= len,
            forall|k: int| 0 <= k < i ==> label@[k] != '.' && label@[k] != '#',
        decreases len - i,
    {
        let c = label.get_char(i);
        if c == '.' || c == '#' {
            assert(label@.contains(c));
            return false;
        }
        i = i + 1;
    }
    true
}

impl GraphTopology {
    /// A graph with just its destination, which has `destination_channels`
    /// channels (at least one).
    pub fn new(destination_channels: usize) -> (r: Self)
        ensures
            r.wf(),
            r.nodes@ == seq![NodeRole::Destination { channel_count: if destination_channels == 0 { 1 } else { destination_channels } }],
            r.channel_configs@ == seq![default_config(r.nodes@[0])],
            r.labels@ == seq![None::<String>],
            r.connections@.len() == 0,
            r.param_connections@.len() == 0,
            r@.order_acyclic(),
    {
        let count = if destination_channels == 0 { 1 } else { destination_channels };
        let role = NodeRole::Destination { channel_count: count };
        let mut nodes = Vec::new();
        nodes.push(role);
        let mut channel_configs = Vec::new();
        channel_configs.push(initial_config(role));
        let mut labels = Vec::new();
        labels.push(None);
        GraphTopology { nodes, channel_configs, labels, connections: Vec::new(), param_connections: Vec::new() }
    }

    /// Adds a node with its role's initial channel configuration and no
    /// label, and gives its id.
    pub fn push_node(&mut self, role: NodeRole) -> (id: NodeId)
        requires
            old(self).wf(),
        ensures
            final(self).wf(),
            id.0 == old(self).nodes@.len(),
            final(self).nodes@ == old(self).nodes@.push(role),
            final(self).channel_configs@ == old(self).channel_configs@.push(default_config(role)),
            final(self).labels@ == old(self).labels@.push(None),
            final(self).connections@ == old(self).connections@,
            final(self).param_connections@ == old(self).param_connections@,
    {
        let id = NodeId(self.nodes.len());
        self.nodes.push(role);
        self.channel_configs.push(initial_config(role));
        self.labels.push(None);
        proof {
            let g = self@;
            let o = old(self)@;
            assert forall|i: int| 0 <= i < g.connections.len() implies conn_ok(g.nodes, #[trigger] g.connections[i]) by {
                assert(conn_ok(o.nodes, o.connections[i]));
                assert(g.nodes[o.connections[i].source.0 as int] == o.nodes[o.connections[i].source.0 as int]);
                assert(g.nodes[o.connections[i].destination.0 as int] == o.nodes[o.connections[i].destination.0 as int]);
            }
            assert forall|j: int| 0 <= j < g.param_connections.len() implies param_ok(g.nodes, #[trigger] g.param_connections[j]) by {
                assert(param_ok(o.nodes, o.param_connections[j]));
                assert(g.nodes[o.param_connections[j].source.0 as int] == o.nodes[o.param_connections[j].source.0 as int]);
            }
        }
        id
    }

    /// Adds a channel splitter with `outputs` outputs, between 1 and 32.
    pub fn try_create_channel_splitter(&mut self, outputs: usize) -> (r: Result<NodeId, GraphError>)
        requires
            old(self).wf(),
        ensures
            final(self).wf(),
            !(1 <= outputs <= 32) ==> r == Err::<NodeId, GraphError>(GraphError::InvalidChannelCount)
                && final(self).nodes@ == old(self).nodes@,
            1 <= outputs <= 32 ==> r == Ok::<NodeId, GraphError>(NodeId(old(self).nodes@.len() as usize))
                && final(self).nodes@ == old(self).nodes@.push(NodeRole::ChannelSplitter { outputs }),
    {
        if outputs < 1 || outputs > 32 {
            return Err(GraphError::InvalidChannelCount);
        }
        Ok(self.push_node(NodeRole::ChannelSplitter { outputs }))
    }

    /// Adds a channel merger with `inputs` inputs, between 1 and 32.
    pub fn try_create_channel_merger(&mut self, inputs: usize) -> (r: Result<NodeId, GraphError>)
        requires
            old(self).wf(),
        ensures
            final(self).wf(),
            !(1 <= inputs <= 32) ==> r == Err::<NodeId, GraphError>(GraphError::InvalidChannelCount)
                && final(self).nodes@ == old(self).nodes@,
            1 <= inputs <= 32 ==> r == Ok::<NodeId, GraphError>(NodeId(old(self).nodes@.len() as usize))
                && final(self).nodes@ == old(self).nodes@.push(NodeRole::ChannelMerger { inputs }),
    {
        if inputs < 1 || inputs > 32 {
            return Err(GraphError::InvalidChannelCount);
        }
        Ok(self.push_node(NodeRole::ChannelMerger { inputs }))
    }

    /// Information about a node.
    pub fn node_info(&self, node: NodeId) -> (r: Result<AudioNodeInfo, GraphError>)
        requires
            self.wf(),
        ensures
            node.0 >= self.nodes@.len() ==> r == Err::<AudioNodeInfo, GraphError>(GraphError::UnknownNode),
            node.0 < self.nodes@.len() ==> r == Ok::<AudioNodeInfo, GraphError>(AudioNodeInfo {
                number_of_inputs: io_count(self.nodes@[node.0 as int]).0,
                number_of_outputs: io_count(self.nodes@[node.0 as int]).1,
                channel_count: self.channel_configs@[node.0 as int].channel_count,
                channel_count_mode: self.channel_configs@[node.0 as int].channel_count_mode,
                channel_interpretation: self.channel_configs@[node.0 as int].channel_interpretation,
            }),
    {
        self.validate_node(node)?;
        let (number_of_inputs, number_of_outputs) = self.nodes[node.0].input_output_count();
        let config = self.channel_configs[node.0];
        Ok(AudioNodeInfo {
            number_of_inputs,
            number_of_outputs,
            channel_count: config.channel_count,
            channel_count_mode: config.channel_count_mode,
            channel_interpretation: config.channel_interpretation,
        })
    }

    /// Sets a node's channel configuration: the count must be between 1 and
    /// 32 and the node's role must allow the configuration.
    pub fn try_set_channel_config(&mut self, node: NodeId, channel_count: usize, channel_count_mode: ChannelCountMode,
        channel_interpretation: ChannelInterpretation) -> (r: Result<(), GraphError>)
        requires
            old(self).wf(),
        ensures
            final(self).wf(),
            final(self).nodes@ == old(self).nodes@,
            final(self).labels@ == old(self).labels@,
            final(self).connections@ == old(self).connections@,
            final(self).param_connections@ == old(self).param_connections@,
            r == (if !(1 <= channel_count <= 32) {
                Err(GraphError::InvalidChannelCount)
            } else if node.0 >= old(self).nodes@.len() {
                Err(GraphError::UnknownNode)
            } else if !channel_rule(old(self).nodes@[node.0 as int], channel_count, channel_count_mode, channel_interpretation) {
                Err(GraphError::InvalidChannelCount)
            } else {
                Ok(())
            }),
            final(self).channel_configs@ == if r is Ok {
                old(self).channel_configs@.update(node.0 as int, ChannelConfig { channel_count, channel_count_mode, channel_interpretation })
            } else {
                old(self).channel_configs@
            },
    {
        if channel_count < 1 || channel_count > 32 {
            return Err(GraphError::InvalidChannelCount);
        }
        self.validate_node(node)?;
        validate_channel_config_for_node(&self.nodes[node.0], channel_count, channel_count_mode, channel_interpretation)?;
        self.channel_configs.set(node.0, ChannelConfig { channel_count, channel_count_mode, channel_interpretation });
        proof {
            assert(self@.connections == old(self)@.connections);
            assert(self@.param_connections == old(self)@.param_connections);
            assert(self@.nodes == old(self)@.nodes);
        }
        Ok(())
    }

    /// Gives a node a label by which automation can name it.  The label
    /// must not be empty nor hold `.` or `#`, and no other node may carry it.
    pub fn label_node(&mut self, node: NodeId, label: String) -> (r: Result<(), GraphError>)
        requires
            old(self).wf(),
        ensures
            final(self).wf(),
            final(self).nodes@ == old(self).nodes@,
            final(self).channel_configs@ == old(self).channel_configs@,
            final(self).connections@ == old(self).connections@,
            final(self).param_connections@ == old(self).param_connections@,
            r == (if !label_ok(label@) {
                Err(GraphError::InvalidNodeLabel)
            } else if node.0 >= old(self).nodes@.len() {
                Err(GraphError::UnknownNode)
            } else if exists|i: int| 0 <= i < old(self).labels@.len() && i != node.0
                && (#[trigger] old(self).labels@[i]) is Some && old(self).labels@[i]->0@ == label@ {
                Err(GraphError::InvalidNodeLabel)
            } else {
                Ok(())
            }),
            r is Ok ==> final(self).labels@.len() == old(self).labels@.len()
                && final(self).labels@[node.0 as int] is Some
                && final(self).labels@[node.0 as int]->0@ == label@
                && forall|i: int| 0 <= i < old(self).labels@.len() && i != node.0 ==> final(self).labels@[i] == old(self).labels@[i],
            r is Err ==> final(self).labels@ == old(self).labels@,
            labels_unique(old(self).labels@) ==> labels_unique(final(self).labels@),
    {
        if !valid_label(label.as_str()) {
            return Err(GraphError::InvalidNodeLabel);
        }
        self.validate_node(node)?;
        let mut i: usize = 0;
        while i < self.labels.len()
            invariant
                i <= self.labels@.len(),
                self.wf(),
                label_ok(label@),
                node.0 < self.nodes@.len(),
                self.labels@ == old(self).labels@,
                self.nodes@ == old(self).nodes@,
                self.channel_configs@ == old(self).channel_configs@,
                self.connections@ == old(self).connections@,
                self.param_connections@ == old(self).param_connections@,
                forall|k: int| 0 <= k < i && k != node.0 && (#[trigger] self.labels@[k]) is Some ==> self.labels@[k]->0@ != label@,
            decreases self.labels@.len() - i,
        {
            if i != node.0 {
                match &self.labels[i] {
                    Some(existing) => {
                        if *existing == label {
                            assert(old(self).labels@[i as int] is Some && old(self).labels@[i as int]->0@ == label@);
                            return Err(GraphError::InvalidNodeLabel);
                        }
                    },
                    None => {},
                }
            }
            i = i + 1;
        }
        self.labels.set(node.0, Some(label));
        proof {
            assert(self@.connections == old(self)@.connections);
            assert(self@.param_connections == old(self)@.param_connections);
            assert(self@.nodes == old(self)@.nodes);
        }
        Ok(())
    }
}

} // verus!

verus! {

impl GraphView {
    /// The number of node connections in `s` into `v` from a source not yet
    /// scheduled; connections into a delay node do not count, because a
    /// delay reads its input one block late.
    pub open spec fn conn_in(&self, s: Seq<NodeConnection>, v: int, done: Seq<bool>) -> nat
        decreases s.len(),
    {
        if s.len() == 0 {
            0
        } else {
            self.conn_in(s.drop_last(), v, done) + if s.last().destination.0 == v && !self.delay(v)
                && !done[s.last().source.0 as int] { 1nat } else { 0nat }
        }
    }

    /// The number of parameter connections in `s` into a parameter of `v`
    /// from a source not yet scheduled.
    pub open spec fn param_in(&self, s: Seq<ParamConnection>, v: int, done: Seq<bool>) -> nat
        decreases s.len(),
    {
        if s.len() == 0 {
            0
        } else {
            self.param_in(s.drop_last(), v, done) + if s.last().destination.node.0 == v
                && !done[s.last().source.0 as int] { 1nat } else { 0nat }
        }
    }

    /// The number of node connections in `s` from `u` into `v` that count.
    pub open spec fn conn_from(&self, s: Seq<NodeConnection>, u: int, v: int) -> nat
        decreases s.len(),
    {
        if s.len() == 0 {
            0
        } else {
            self.conn_from(s.drop_last(), u, v) + if s.last().source.0 == u && s.last().destination.0 == v
                && !self.delay(v) { 1nat } else { 0nat }
        }
    }

    /// The number of parameter connections in `s` from `u` into `v`.
    pub open spec fn param_from(&self, s: Seq<ParamConnection>, u: int, v: int) -> nat
        decreases s.len(),
    {
        if s.len() == 0 {
            0
        } else {
            self.param_from(s.drop_last(), u, v) + if s.last().source.0 == u
                && s.last().destination.node.0 == v { 1nat } else { 0nat }
        }
    }

    /// The number of inputs of `v` still waiting for an unscheduled source.
    pub open spec fn in_count(&self, v: int, done: Seq<bool>) -> nat {
        self.conn_in(self.connections, v, done) + self.param_in(self.param_connections, v, done)
    }

    /// The connection must be computed before its destination: it does not
    /// feed a delay node.
    pub open spec fn ordering_edge(&self, c: NodeConnection) -> bool {
        !self.delay(c.destination.0 as int)
    }

    /// `ord` lists every node once, and every connection that must be
    /// computed first (any parameter connection, and any node connection
    /// that does not feed a delay) runs from an earlier to a later node.
    pub open spec fn topological(&self, ord: Seq<usize>) -> bool {
        let n = self.nodes.len();
        &&& ord.len() == n
        &&& forall|k: int| 0 <= k < n ==> (#[trigger] ord[k]) < n
        &&& forall|j: int, k: int| 0 <= j < k < n ==> ord[j] != ord[k]
        &&& forall|i: int, a: int, b: int| 0 <= i < self.connections.len() && 0 <= a < n && 0 <= b < n
            && self.ordering_edge(#[trigger] self.connections[i])
            && #[trigger] ord[a] == self.connections[i].source.0 && #[trigger] ord[b] == self.connections[i].destination.0
            ==> a < b
        &&& forall|i: int, a: int, b: int| 0 <= i < self.param_connections.len() && 0 <= a < n && 0 <= b < n
            && #[trigger] ord[a] == (#[trigger] self.param_connections[i]).source.0
            && #[trigger] ord[b] == self.param_connections[i].destination.node.0
            ==> a < b
    }

    /// Some order computes every node after the nodes it depends on.
    pub open spec fn schedulable(&self) -> bool {
        exists|ord: Seq<usize>| #[trigger] self.topological(ord)
    }

    proof fn lemma_conn_in_pop(&self, s: Seq<NodeConnection>, v: int, done: Seq<bool>, u: int)
        requires
            0 <= u < done.len(),
            !done[u],
            forall|i: int| 0 <= i < s.len() ==> (#[trigger] s[i]).source.0 < done.len(),
        ensures
            self.conn_in(s, v, done.update(u, true)) + self.conn_from(s, u, v) == self.conn_in(s, v, done),
        decreases s.len(),
    {
        if s.len() > 0 {
            assert forall|i: int| 0 <= i < s.drop_last().len() implies (#[trigger] s.drop_last()[i]).source.0 < done.len() by {
                assert(s.drop_last()[i] == s[i]);
            }
            assert(s.last() == s[s.len() - 1]);
            self.lemma_conn_in_pop(s.drop_last(), v, done, u);
        }
    }

    proof fn lemma_param_in_pop(&self, s: Seq<ParamConnection>, v: int, done: Seq<bool>, u: int)
        requires
            0 <= u < done.len(),
            !done[u],
            forall|i: int| 0 <= i < s.len() ==> (#[trigger] s[i]).source.0 < done.len(),
        ensures
            self.param_in(s, v, done.update(u, true)) + self.param_from(s, u, v) == self.param_in(s, v, done),
        decreases s.len(),
    {
        if s.len() > 0 {
            assert forall|i: int| 0 <= i < s.drop_last().len() implies (#[trigger] s.drop_last()[i]).source.0 < done.len() by {
                assert(s.drop_last()[i] == s[i]);
            }
            assert(s.last() == s[s.len() - 1]);
            self.lemma_param_in_pop(s.drop_last(), v, done, u);
        }
    }

    proof fn lemma_conn_from_prefix(&self, s: Seq<NodeConnection>, u: int, v: int, c: int)
        requires
            0 <= c <= s.len(),
        ensures
            self.conn_from(s.take(c), u, v) <= self.conn_from(s, u, v),
        decreases s.len() - c,
    {
        if c < s.len() {
            self.lemma_conn_from_prefix(s, u, v, c + 1);
            assert(s.take(c + 1).drop_last() =~= s.take(c));
        } else {
            assert(s.take(c) =~= s);
        }
    }

    proof fn lemma_param_from_prefix(&self, s: Seq<ParamConnection>, u: int, v: int, c: int)
        requires
            0 <= c <= s.len(),
        ensures
            self.param_from(s.take(c), u, v) <= self.param_from(s, u, v),
        decreases s.len() - c,
    {
        if c < s.len() {
            self.lemma_param_from_prefix(s, u, v, c + 1);
            assert(s.take(c + 1).drop_last() =~= s.take(c));
        } else {
            assert(s.take(c) =~= s);
        }
    }

    proof fn lemma_conn_in_zero(&self, s: Seq<NodeConnection>, v: int, done: Seq<bool>)
        ensures
            self.conn_in(s, v, done) == 0 <==> forall|i: int| 0 <= i < s.len() && (#[trigger] s[i]).destination.0 == v
                && !self.delay(v) ==> done[s[i].source.0 as int],
        decreases s.len(),
    {
        if s.len() > 0 {
            self.lemma_conn_in_zero(s.drop_last(), v, done);
            assert forall|i: int| 0 <= i < s.len() - 1 implies s.drop_last()[i] == #[trigger] s[i] by {}
            if self.conn_in(s, v, done) == 0 {
                assert forall|i: int| 0 <= i < s.len() && (#[trigger] s[i]).destination.0 == v
                    && !self.delay(v) implies done[s[i].source.0 as int] by {
                    if i < s.len() - 1 {
                        assert(s.drop_last()[i] == s[i]);
                    }
                }
            } else {
                if self.conn_in(s.drop_last(), v, done) != 0 {
                    let i = choose|i: int| 0 <= i < s.drop_last().len() && (#[trigger] s.drop_last()[i]).destination.0 == v
                        && !self.delay(v) && !done[s.drop_last()[i].source.0 as int];
                    assert(s[i] == s.drop_last()[i]);
                } else {
                    assert(s[s.len() - 1] == s.last());
                }
            }
        }
    }

    proof fn lemma_param_in_zero(&self, s: Seq<ParamConnection>, v: int, done: Seq<bool>)
        ensures
            self.param_in(s, v, done) == 0 <==> forall|i: int| 0 <= i < s.len() && (#[trigger] s[i]).destination.node.0 == v
                ==> done[s[i].source.0 as int],
        decreases s.len(),
    {
        if s.len() > 0 {
            self.lemma_param_in_zero(s.drop_last(), v, done);
            assert forall|i: int| 0 <= i < s.len() - 1 implies s.drop_last()[i] == #[trigger] s[i] by {}
            if self.param_in(s, v, done) == 0 {
                assert forall|i: int| 0 <= i < s.len() && (#[trigger] s[i]).destination.node.0 == v
                    implies done[s[i].source.0 as int] by {
                    if i < s.len() - 1 {
                        assert(s.drop_last()[i] == s[i]);
                    }
                }
            } else {
                if self.param_in(s.drop_last(), v, done) != 0 {
                    let i = choose|i: int| 0 <= i < s.drop_last().len() && (#[trigger] s.drop_last()[i]).destination.node.0 == v
                        && !done[s.drop_last()[i].source.0 as int];
                    assert(s[i] == s.drop_last()[i]);
                } else {
                    assert(s[s.len() - 1] == s.last());
                }
            }
        }
    }
}

} // verus!

verus! {

proof fn lemma_permutation_covers(ord: Seq<usize>, n: nat, x: int)
    requires
        ord.len() == n,
        forall|k: int| 0 <= k < n ==> (#[trigger] ord[k]) < n,
        forall|j: int, k: int| 0 <= j < k < n ==> ord[j] != ord[k],
        0 <= x < n,
    ensures
        exists|k: int| 0 <= k < n && ord[k] == x,
{
    let s = ord.map_values(|v: usize| v as int);
    assert(s.no_duplicates()) by {
        assert forall|i: int, j: int| 0 <= i < s.len() && 0 <= j < s.len() && i != j implies s[i] != s[j] by {
            if i < j {
                assert(ord[i] != ord[j]);
            } else {
                assert(ord[j] != ord[i]);
            }
        }
    }
    s.unique_seq_to_set();
    lemma_int_range(0, n as int);
    assert(s.to_set().subset_of(set_int_range(0, n as int))) by {
        assert forall|a: int| s.to_set().contains(a) implies set_int_range(0, n as int).contains(a) by {
            assert(s.contains(a));
            let k = choose|k: int| 0 <= k < s.len() && s[k] == a;
            assert(ord[k] < n);
        }
    }
    vstd::seq_lib::seq_to_set_is_finite(s);
    lemma_subset_equality(s.to_set(), set_int_range(0, n as int));
    assert(set_int_range(0, n as int).contains(x));
    assert(s.to_set().contains(x));
    assert(s.contains(x));
    let k = choose|k: int| 0 <= k < s.len() && s[k] == x;
    assert(ord[k] == x);
}

proof fn lemma_first_pending(ord: Seq<usize>, done: Seq<bool>, i: int)
    requires
        0 <= i <= ord.len(),
        exists|k: int| i <= k < ord.len() && !done[ord[k] as int],
        forall|j: int| 0 <= j < i ==> done[ord[j] as int],
    ensures
        exists|k: int| 0 <= k < ord.len() && !done[ord[k] as int] && forall|j: int| 0 <= j < k ==> done[ord[j] as int],
    decreases ord.len() - i,
{
    if !done[ord[i] as int] {
    } else {
        assert forall|j: int| 0 <= j < i + 1 implies done[ord[j] as int] by {}
        let k = choose|k: int| i <= k < ord.len() && !done[ord[k] as int];
        assert(k != i);
        lemma_first_pending(ord, done, i + 1);
    }
}

impl GraphView {
    /// Some unscheduled node that must be computed before `v`.
    spec fn pending_before(&self, v: int, done: Seq<bool>) -> int {
        choose|u: int| 0 <= u < done.len() && !done[u] && self.step(u, v, true)
    }

    /// From `v`, `k` times back to a node that must be computed first.
    spec fn back_chain(&self, v: int, done: Seq<bool>, k: nat) -> Seq<int>
        decreases k,
    {
        if k == 0 {
            seq![v]
        } else {
            let c = self.back_chain(v, done, (k - 1) as nat);
            c.push(self.pending_before(c.last(), done))
        }
    }

    /// A node still waiting for an unscheduled source has an unscheduled
    /// node that must be computed before it.
    proof fn lemma_waiting_has_pending(&self, v: int, done: Seq<bool>)
        requires
            self.wf(),
            done.len() == self.nodes.len(),
            self.in_count(v, done) > 0,
        ensures
            exists|u: int| 0 <= u < done.len() && !done[u] && self.step(u, v, true),
    {
        if self.conn_in(self.connections, v, done) > 0 {
            self.lemma_conn_in_zero(self.connections, v, done);
            let i = choose|i: int| 0 <= i < self.connections.len() && (#[trigger] self.connections[i]).destination.0 == v
                && !self.delay(v) && !done[self.connections[i].source.0 as int];
            assert(conn_ok(self.nodes, self.connections[i]));
            let u = self.connections[i].source.0 as int;
            assert(self.node_edge(u, v));
            assert(self.step(u, v, true));
        } else {
            self.lemma_param_in_zero(self.param_connections, v, done);
            let i = choose|i: int| 0 <= i < self.param_connections.len()
                && (#[trigger] self.param_connections[i]).destination.node.0 == v && !done[self.param_connections[i].source.0 as int];
            assert(param_ok(self.nodes, self.param_connections[i]));
            let u = self.param_connections[i].source.0 as int;
            assert(self.param_edge(u, v));
            assert(self.step(u, v, true));
        }
    }

    proof fn lemma_back_chain(&self, v: int, done: Seq<bool>, k: nat)
        requires
            self.wf(),
            done.len() == self.nodes.len(),
            0 <= v < done.len(),
            !done[v],
            forall|x: int| 0 <= x < self.nodes.len() && !done[x] ==> self.in_count(x, done) > 0,
        ensures
            self.back_chain(v, done, k).len() == k + 1,
            self.back_chain(v, done, k)[0] == v,
            forall|i: int| 0 <= i <= k ==> 0 <= #[trigger] self.back_chain(v, done, k)[i] < done.len()
                && !done[self.back_chain(v, done, k)[i]],
            forall|i: int| 0 <= i < k ==> self.step(#[trigger] self.back_chain(v, done, k)[i + 1], self.back_chain(v, done, k)[i], true),
        decreases k,
    {
        if k > 0 {
            self.lemma_back_chain(v, done, (k - 1) as nat);
            let c = self.back_chain(v, done, (k - 1) as nat);
            let x = c.last();
            assert(x == c[k - 1]);
            self.lemma_waiting_has_pending(x, done);
            let d = self.back_chain(v, done, k);
            assert(d == c.push(self.pending_before(x, done)));
            assert forall|i: int| 0 <= i <= k implies 0 <= #[trigger] d[i] < done.len() && !done[d[i]] by {
                if i < k {
                    assert(d[i] == c[i]);
                }
            }
            assert forall|i: int| 0 <= i < k implies self.step(#[trigger] d[i + 1], d[i], true) by {
                if i < k - 1 {
                    assert(d[i + 1] == c[i + 1] && d[i] == c[i]);
                } else {
                    assert(d[i] == x);
                }
            }
        }
    }

    /// Steps back along a chain are a walk forward.
    proof fn lemma_chain_walks(&self, c: Seq<int>, i: int, j: int)
        requires
            0 <= i <= j < c.len(),
            forall|k: int| 0 <= k < c.len() - 1 ==> self.step(#[trigger] c[k + 1], c[k], true),
        ensures
            self.walks(c[j], c[i], true),
        decreases j - i,
    {
        if i == j {
            self.lemma_walks_refl(c[j], true);
        } else {
            self.lemma_chain_walks(c, i + 1, j);
            assert(self.step(c[i + 1], c[i], true));
            self.lemma_walks_step(c[j], c[i + 1], c[i], true);
        }
    }

    /// If some nodes are left unscheduled and each of them still waits for
    /// an unscheduled source, they hold a cycle of connections that must
    /// be computed first.
    proof fn lemma_stuck_has_cycle(&self, done: Seq<bool>)
        requires
            self.wf(),
            done.len() == self.nodes.len(),
            exists|x: int| 0 <= x < self.nodes.len() && !done[x],
            forall|v: int| 0 <= v < self.nodes.len() && !done[v] ==> self.in_count(v, done) > 0,
        ensures
            !self.order_acyclic(),
    {
        let n = self.nodes.len();
        let x = choose|x: int| 0 <= x < n && !done[x];
        self.lemma_back_chain(x, done, n);
        let c = self.back_chain(x, done, n);
        // n + 1 nodes out of n: some node comes twice.
        if c.no_duplicates() {
            c.unique_seq_to_set();
            lemma_int_range(0, n as int);
            assert(c.to_set().subset_of(set_int_range(0, n as int))) by {
                assert forall|a: int| c.to_set().contains(a) implies set_int_range(0, n as int).contains(a) by {
                    assert(c.contains(a));
                    let k = choose|k: int| 0 <= k < c.len() && c[k] == a;
                    assert(0 <= c[k] < n);
                }
            }
            vstd::set_lib::lemma_len_subset(c.to_set(), set_int_range(0, n as int));
            assert(false);
        }
        let (i, j) = choose|i: int, j: int| 0 <= i < c.len() && 0 <= j < c.len() && i != j && c[i] == c[j];
        let (a, b) = if i < j { (i, j) } else { (j, i) };
        assert(a < b && c[a] == c[b]);
        assert forall|k: int| 0 <= k < c.len() - 1 implies self.step(#[trigger] c[k + 1], c[k], true) by {}
        // The step from c[a + 1] to c[a], and the walk back from c[a] = c[b]
        // down to c[a + 1].
        self.lemma_chain_walks(c, a + 1, b);
        assert(self.step(c[a + 1], c[a], true));
        assert(self.walks(c[a], c[a + 1], true));
    }

    /// If some nodes are left unscheduled and each of them still waits for
    /// an unscheduled source, no order can schedule the graph.
    proof fn lemma_stuck_not_schedulable(&self, done: Seq<bool>)
        requires
            self.wf(),
            done.len() == self.nodes.len(),
            exists|x: int| 0 <= x < self.nodes.len() && !done[x],
            forall|v: int| 0 <= v < self.nodes.len() && !done[v] ==> self.in_count(v, done) > 0,
        ensures
            !self.schedulable(),
    {
        let n = self.nodes.len();
        if self.schedulable() {
            let ord = choose|ord: Seq<usize>| #[trigger] self.topological(ord);
            let x = choose|x: int| 0 <= x < n && !done[x];
            lemma_permutation_covers(ord, n, x);
            let kx = choose|k: int| 0 <= k < n && ord[k] == x;
            lemma_first_pending(ord, done, 0);
            let k = choose|k: int| 0 <= k < ord.len() && !done[ord[k] as int] && forall|j: int| 0 <= j < k ==> done[ord[j] as int];
            let v = ord[k] as int;
            assert(self.in_count(v, done) > 0);
            if self.conn_in(self.connections, v, done) > 0 {
                self.lemma_conn_in_zero(self.connections, v, done);
                let i = choose|i: int| 0 <= i < self.connections.len() && (#[trigger] self.connections[i]).destination.0 == v
                    && !self.delay(v) && !done[self.connections[i].source.0 as int];
                let u = self.connections[i].source.0 as int;
                assert(conn_ok(self.nodes, self.connections[i]));
                lemma_permutation_covers(ord, n, u);
                let a = choose|a: int| 0 <= a < n && ord[a] == u;
                assert(self.ordering_edge(self.connections[i]));
                assert(a < k);
                assert(done[ord[a] as int]);
            } else {
                self.lemma_param_in_zero(self.param_connections, v, done);
                let i = choose|i: int| 0 <= i < self.param_connections.len()
                    && (#[trigger] self.param_connections[i]).destination.node.0 == v && !done[self.param_connections[i].source.0 as int];
                let u = self.param_connections[i].source.0 as int;
                assert(param_ok(self.nodes, self.param_connections[i]));
                lemma_permutation_covers(ord, n, u);
                let a = choose|a: int| 0 <= a < n && ord[a] == u;
                assert(a < k);
                assert(done[ord[a] as int]);
            }
        }
    }
}

} // verus!

verus! {

proof fn lemma_count_true_full(s: Seq<bool>)
    ensures
        count_true(s) == s.len() <==> forall|i: int| 0 <= i < s.len() ==> s[i],
    decreases s.len(),
{
    if s.len() > 0 {
        lemma_count_true_full(s.drop_last());
        lemma_count_true_bound(s.drop_last());
        if count_true(s) == s.len() {
            assert forall|i: int| 0 <= i < s.len() implies s[i] by {
                if i < s.len() - 1 {
                    assert(s.drop_last()[i] == s[i]);
                }
            }
        }
        if forall|i: int| 0 <= i < s.len() ==> s[i] {
            assert forall|i: int| 0 <= i < s.drop_last().len() implies s.drop_last()[i] by {
                assert(s.drop_last()[i] == s[i]);
            }
            assert(s.last() == s[s.len() - 1]);
        }
    }
}

impl GraphTopology {
    /// An order in which the nodes can be computed: each node after every
    /// node that feeds it, except that a delay node's input may come later.
    /// Refused with `Cycle` exactly when no such order exists.
    pub fn compile_order(&self) -> (r: Result<Vec<NodeId>, GraphError>)
        requires
            self.wf(),
            self.connections@.len() + self.param_connections@.len() <= usize::MAX,
        ensures
            r is Ok <==> self@.schedulable(),
            self@.order_acyclic() ==> r is Ok,
            r is Err ==> r == Err::<Vec<NodeId>, GraphError>(GraphError::Cycle),
            r matches Ok(order) ==> self@.topological(order@.map_values(|id: NodeId| id.0)),
    {
        let ghost g = self@;
        let n = self.nodes.len();
        let ghost none = Seq::new(n as nat, |i: int| false);
        let mut indegree: Vec<usize> = Vec::new();
        let mut enqueued: Vec<bool> = Vec::new();
        let mut i: usize = 0;
        while i < n
            invariant
                i <= n,
                indegree@.len() == i,
                enqueued@.len() == i,
                forall|k: int| 0 <= k < i ==> indegree@[k] == 0 && !enqueued@[k],
            decreases n - i,
        {
            indegree.push(0);
            enqueued.push(false);
            i = i + 1;
        }
        let mut c: usize = 0;
        while c < self.connections.len()
            invariant
                self.wf(),
                g == self@,
                n == g.nodes.len(),
                none == Seq::new(n as nat, |i: int| false),
                c <= g.connections.len(),
                indegree@.len() == n,
                forall|v: int| 0 <= v < n ==> #[trigger] indegree@[v] == g.conn_in(g.connections.take(c as int), v, none),
                forall|v: int| 0 <= v < n ==> #[trigger] indegree@[v] <= c,
            decreases g.connections.len() - c,
        {
            let conn = self.connections[c];
            assert(conn_ok(g.nodes, g.connections[c as int]));
            assert(g.connections.take(c + 1).drop_last() =~= g.connections.take(c as int));
            let d = conn.destination.0;
            if !self.is_delay_node(conn.destination) {
                indegree.set(d, indegree[d] + 1);
            }
            c = c + 1;
        }
        assert(g.connections.take(c as int) =~= g.connections);
        let mut c: usize = 0;
        while c < self.param_connections.len()
            invariant
                self.wf(),
                g == self@,
                g.connections.len() + g.param_connections.len() <= usize::MAX,
                n == g.nodes.len(),
                none == Seq::new(n as nat, |i: int| false),
                c <= g.param_connections.len(),
                indegree@.len() == n,
                forall|v: int| 0 <= v < n ==> #[trigger] indegree@[v]
                    == g.conn_in(g.connections, v, none) + g.param_in(g.param_connections.take(c as int), v, none),
                forall|v: int| 0 <= v < n ==> #[trigger] indegree@[v] <= g.connections.len() + c,
            decreases g.param_connections.len() - c,
        {
            let conn = self.param_connections[c];
            assert(param_ok(g.nodes, g.param_connections[c as int]));
            assert(g.param_connections.take(c + 1).drop_last() =~= g.param_connections.take(c as int));
            let d = conn.destination.node.0;
            proof {
                assert(g.conn_in(g.connections, d as int, none) <= g.connections.len()) by {
                    lemma_conn_in_le(g, g.connections, d as int, none);
                }
            }
            indegree.set(d, indegree[d] + 1);
            c = c + 1;
        }
        assert(g.param_connections.take(c as int) =~= g.param_connections);
        let mut queue: Vec<usize> = Vec::new();
        proof {
            lemma_count_true_zero(enqueued@);
        }
        let ghost mut pos: Seq<int> = Seq::new(n as nat, |i: int| 0);
        let mut v: usize = 0;
        while v < n
            invariant
                g == self@,
                n == g.nodes.len(),
                v <= n,
                indegree@.len() == n,
                enqueued@.len() == n,
                pos.len() == n,
                forall|x: int| 0 <= x < n ==> #[trigger] indegree@[x] == g.in_count(x, none),
                queue@.len() == count_true(enqueued@),
                forall|x: int| v <= x < n ==> !(#[trigger] enqueued@[x]),
                forall|x: int| 0 <= x < v ==> (#[trigger] enqueued@[x] <==> indegree@[x] == 0),
                forall|k: int| 0 <= k < queue@.len() ==> (#[trigger] queue@[k]) < n && enqueued@[queue@[k] as int]
                    && pos[queue@[k] as int] == k,
                forall|x: int| 0 <= x < n && #[trigger] enqueued@[x] ==> 0 <= pos[x] < queue@.len() && queue@[pos[x]] == x,
            decreases n - v,
        {
            if indegree[v] == 0 {
                proof {
                    lemma_count_true_update(enqueued@, v as int);
                    pos = pos.update(v as int, queue@.len() as int);
                }
                enqueued.set(v, true);
                queue.push(v);
            }
            v = v + 1;
        }
        let ghost mut done: Seq<bool> = none;
        let mut head: usize = 0;
        proof {
            assert forall|i: int| 0 <= i < g.connections.len() && g.ordering_edge(#[trigger] g.connections[i])
                && enqueued@[g.connections[i].destination.0 as int]
                implies enqueued@[g.connections[i].source.0 as int] && pos[g.connections[i].source.0 as int]
                    < pos[g.connections[i].destination.0 as int] by {
                let d = g.connections[i].destination.0 as int;
                assert(conn_ok(g.nodes, g.connections[i]));
                assert(indegree@[d] == 0);
                g.lemma_conn_in_zero(g.connections, d, none);
                assert(none[g.connections[i].source.0 as int] == false);
            }
            assert forall|i: int| 0 <= i < g.param_connections.len()
                && enqueued@[(#[trigger] g.param_connections[i]).destination.node.0 as int]
                implies enqueued@[g.param_connections[i].source.0 as int] && pos[g.param_connections[i].source.0 as int]
                    < pos[g.param_connections[i].destination.node.0 as int] by {
                let d = g.param_connections[i].destination.node.0 as int;
                assert(param_ok(g.nodes, g.param_connections[i]));
                assert(indegree@[d] == 0);
                g.lemma_param_in_zero(g.param_connections, d, none);
                assert(none[g.param_connections[i].source.0 as int] == false);
            }
        }
        while head < queue.len()
            invariant
                self.wf(),
                g == self@,
                n == g.nodes.len(),
                head <= queue@.len(),
                indegree@.len() == n,
                enqueued@.len() == n,
                done.len() == n,
                pos.len() == n,
                queue@.len() == count_true(enqueued@),
                forall|k: int| 0 <= k < queue@.len() ==> (#[trigger] queue@[k]) < n && enqueued@[queue@[k] as int]
                    && pos[queue@[k] as int] == k,
                forall|x: int| 0 <= x < n && #[trigger] enqueued@[x] ==> 0 <= pos[x] < queue@.len() && queue@[pos[x]] == x,
                forall|x: int| 0 <= x < n ==> (#[trigger] done[x] <==> enqueued@[x] && pos[x] < head),
                forall|x: int| 0 <= x < n ==> #[trigger] indegree@[x] == g.in_count(x, done),
                forall|x: int| 0 <= x < n ==> (#[trigger] enqueued@[x] <==> indegree@[x] == 0),
                forall|i: int| 0 <= i < g.connections.len() && g.ordering_edge(#[trigger] g.connections[i])
                    && enqueued@[g.connections[i].destination.0 as int]
                    ==> enqueued@[g.connections[i].source.0 as int] && pos[g.connections[i].source.0 as int]
                        < pos[g.connections[i].destination.0 as int],
                forall|i: int| 0 <= i < g.param_connections.len()
                    && enqueued@[(#[trigger] g.param_connections[i]).destination.node.0 as int]
                    ==> enqueued@[g.param_connections[i].source.0 as int] && pos[g.param_connections[i].source.0 as int]
                        < pos[g.param_connections[i].destination.node.0 as int],
            decreases n - head,
        {
            proof {
                lemma_count_true_bound(enqueued@);
            }
            let u = queue[head];
            let ghost done1 = done.update(u as int, true);
            proof {
                assert(!done[u as int]);
                assert forall|x: int| 0 <= x < n implies #[trigger] g.in_count(x, done)
                    == g.in_count(x, done1) + g.conn_from(g.connections, u as int, x) + g.param_from(g.param_connections, u as int, x) by {
                    assert forall|i: int| 0 <= i < g.connections.len() implies (#[trigger] g.connections[i]).source.0 < done.len() by {
                        assert(conn_ok(g.nodes, g.connections[i]));
                    }
                    assert forall|i: int| 0 <= i < g.param_connections.len() implies (#[trigger] g.param_connections[i]).source.0 < done.len() by {
                        assert(param_ok(g.nodes, g.param_connections[i]));
                    }
                    g.lemma_conn_in_pop(g.connections, x, done, u as int);
                    g.lemma_param_in_pop(g.param_connections, x, done, u as int);
                }
            }
            head = head + 1;
            let mut c: usize = 0;
            while c < self.connections.len()
                invariant
                    self.wf(),
                    g == self@,
                    n == g.nodes.len(),
                    0 < head <= queue@.len(),
                    u == queue@[head - 1],
                    u < n,
                    c <= g.connections.len(),
                    indegree@.len() == n,
                    enqueued@.len() == n,
                    done.len() == n,
                    done1 == done.update(u as int, true),
                    pos.len() == n,
                    queue@.len() == count_true(enqueued@),
                    forall|k: int| 0 <= k < queue@.len() ==> (#[trigger] queue@[k]) < n && enqueued@[queue@[k] as int]
                        && pos[queue@[k] as int] == k,
                    forall|x: int| 0 <= x < n && #[trigger] enqueued@[x] ==> 0 <= pos[x] < queue@.len() && queue@[pos[x]] == x,
                    forall|x: int| 0 <= x < n ==> (#[trigger] done1[x] <==> enqueued@[x] && pos[x] < head),
                    forall|x: int| 0 <= x < n ==> #[trigger] g.in_count(x, done)
                        == g.in_count(x, done1) + g.conn_from(g.connections, u as int, x) + g.param_from(g.param_connections, u as int, x),
                    forall|x: int| 0 <= x < n ==> #[trigger] indegree@[x] + g.conn_from(g.connections.take(c as int), u as int, x)
                        == g.in_count(x, done),
                    forall|x: int| 0 <= x < n ==> (#[trigger] enqueued@[x] <==> indegree@[x] == 0),
                    forall|i: int| 0 <= i < g.connections.len() && g.ordering_edge(#[trigger] g.connections[i])
                        && enqueued@[g.connections[i].destination.0 as int]
                        ==> enqueued@[g.connections[i].source.0 as int] && pos[g.connections[i].source.0 as int]
                            < pos[g.connections[i].destination.0 as int],
                    forall|i: int| 0 <= i < g.param_connections.len()
                        && enqueued@[(#[trigger] g.param_connections[i]).destination.node.0 as int]
                        ==> enqueued@[g.param_connections[i].source.0 as int] && pos[g.param_connections[i].source.0 as int]
                            < pos[g.param_connections[i].destination.node.0 as int],
                decreases g.connections.len() - c,
            {
                let conn = self.connections[c];
                proof {
                    assert(conn_ok(g.nodes, g.connections[c as int]));
                    assert(g.connections.take(c + 1).drop_last() =~= g.connections.take(c as int));
                }
                if conn.source.0 == u && !self.is_delay_node(conn.destination) {
                    let d = conn.destination.0;
                    proof {
                        g.lemma_conn_from_prefix(g.connections, u as int, d as int, c + 1);
                    }
                    indegree.set(d, indegree[d] - 1);
                    if indegree[d] == 0 {
                        proof {
                            // Every remaining input of `d` comes from a scheduled node.
                            assert(g.in_count(d as int, done1) == 0);
                            g.lemma_conn_in_zero(g.connections, d as int, done1);
                            g.lemma_param_in_zero(g.param_connections, d as int, done1);
                            lemma_count_true_update(enqueued@, d as int);
                        }
                        let ghost qlen = queue@.len() as int;
                        let ghost old_enq = enqueued@;
                        proof {
                            pos = pos.update(d as int, qlen);
                        }
                        enqueued.set(d, true);
                        queue.push(d);
                        proof {
                            assert forall|i: int| 0 <= i < g.connections.len() && g.ordering_edge(#[trigger] g.connections[i])
                                && enqueued@[g.connections[i].destination.0 as int]
                                implies enqueued@[g.connections[i].source.0 as int] && pos[g.connections[i].source.0 as int]
                                    < pos[g.connections[i].destination.0 as int] by {
                                assert(conn_ok(g.nodes, g.connections[i]));
                                let s = g.connections[i].source.0 as int;
                                if g.connections[i].destination.0 == d {
                                    assert(done1[s]);
                                } else {
                                    assert(old_enq[g.connections[i].destination.0 as int]);
                                }
                            }
                            assert forall|i: int| 0 <= i < g.param_connections.len()
                                && enqueued@[(#[trigger] g.param_connections[i]).destination.node.0 as int]
                                implies enqueued@[g.param_connections[i].source.0 as int] && pos[g.param_connections[i].source.0 as int]
                                    < pos[g.param_connections[i].destination.node.0 as int] by {
                                assert(param_ok(g.nodes, g.param_connections[i]));
                                let s = g.param_connections[i].source.0 as int;
                                if g.param_connections[i].destination.node.0 == d {
                                    assert(done1[s]);
                                } else {
                                    assert(old_enq[g.param_connections[i].destination.node.0 as int]);
                                }
                            }
                        }
                    }
                }
                c = c + 1;
            }
            assert(g.connections.take(c as int) =~= g.connections);
            let mut c: usize = 0;
            while c < self.param_connections.len()
                invariant
                    self.wf(),
                    g == self@,
                    n == g.nodes.len(),
                    0 < head <= queue@.len(),
                    u == queue@[head - 1],
                    u < n,
                    c <= g.param_connections.len(),
                    indegree@.len() == n,
                    enqueued@.len() == n,
                    done.len() == n,
                    done1 == done.update(u as int, true),
                    pos.len() == n,
                    queue@.len() == count_true(enqueued@),
                    forall|k: int| 0 <= k < queue@.len() ==> (#[trigger] queue@[k]) < n && enqueued@[queue@[k] as int]
                        && pos[queue@[k] as int] == k,
                    forall|x: int| 0 <= x < n && #[trigger] enqueued@[x] ==> 0 <= pos[x] < queue@.len() && queue@[pos[x]] == x,
                    forall|x: int| 0 <= x < n ==> (#[trigger] done1[x] <==> enqueued@[x] && pos[x] < head),
                    forall|x: int| 0 <= x < n ==> #[trigger] g.in_count(x, done)
                        == g.in_count(x, done1) + g.conn_from(g.connections, u as int, x) + g.param_from(g.param_connections, u as int, x),
                    forall|x: int| 0 <= x < n ==> #[trigger] indegree@[x] + g.conn_from(g.connections, u as int, x)
                        + g.param_from(g.param_connections.take(c as int), u as int, x) == g.in_count(x, done),
                    forall|x: int| 0 <= x < n ==> (#[trigger] enqueued@[x] <==> indegree@[x] == 0),
                    forall|i: int| 0 <= i < g.connections.len() && g.ordering_edge(#[trigger] g.connections[i])
                        && enqueued@[g.connections[i].destination.0 as int]
                        ==> enqueued@[g.connections[i].source.0 as int] && pos[g.connections[i].source.0 as int]
                            < pos[g.connections[i].destination.0 as int],
                    forall|i: int| 0 <= i < g.param_connections.len()
                        && enqueued@[(#[trigger] g.param_connections[i]).destination.node.0 as int]
                        ==> enqueued@[g.param_connections[i].source.0 as int] && pos[g.param_connections[i].source.0 as int]
                            < pos[g.param_connections[i].destination.node.0 as int],
                decreases g.param_connections.len() - c,
            {
                let conn = self.param_connections[c];
                proof {
                    assert(param_ok(g.nodes, g.param_connections[c as int]));
                    assert(g.param_connections.take(c + 1).drop_last() =~= g.param_connections.take(c as int));
                }
                if conn.source.0 == u {
                    let d = conn.destination.node.0;
                    proof {
                        g.lemma_param_from_prefix(g.param_connections, u as int, d as int, c + 1);
                    }
                    indegree.set(d, indegree[d] - 1);
                    if indegree[d] == 0 {
                        proof {
                            assert(g.in_count(d as int, done1) == 0);
                            g.lemma_conn_in_zero(g.connections, d as int, done1);
                            g.lemma_param_in_zero(g.param_connections, d as int, done1);
                            lemma_count_true_update(enqueued@, d as int);
                        }
                        let ghost qlen = queue@.len() as int;
                        let ghost old_enq = enqueued@;
                        proof {
                            pos = pos.update(d as int, qlen);
                        }
                        enqueued.set(d, true);
                        queue.push(d);
                        proof {
                            assert forall|i: int| 0 <= i < g.connections.len() && g.ordering_edge(#[trigger] g.connections[i])
                                && enqueued@[g.connections[i].destination.0 as int]
                                implies enqueued@[g.connections[i].source.0 as int] && pos[g.connections[i].source.0 as int]
                                    < pos[g.connections[i].destination.0 as int] by {
                                assert(conn_ok(g.nodes, g.connections[i]));
                                let s = g.connections[i].source.0 as int;
                                if g.connections[i].destination.0 == d {
                                    assert(done1[s]);
                                } else {
                                    assert(old_enq[g.connections[i].destination.0 as int]);
                                }
                            }
                            assert forall|i: int| 0 <= i < g.param_connections.len()
                                && enqueued@[(#[trigger] g.param_connections[i]).destination.node.0 as int]
                                implies enqueued@[g.param_connections[i].source.0 as int] && pos[g.param_connections[i].source.0 as int]
                                    < pos[g.param_connections[i].destination.node.0 as int] by {
                                assert(param_ok(g.nodes, g.param_connections[i]));
                                let s = g.param_connections[i].source.0 as int;
                                if g.param_connections[i].destination.node.0 == d {
                                    assert(done1[s]);
                                } else {
                                    assert(old_enq[g.param_connections[i].destination.node.0 as int]);
                                }
                            }
                        }
                    }
                }
                c = c + 1;
            }
            assert(g.param_connections.take(c as int) =~= g.param_connections);
            proof {
                done = done1;
            }
        }
        proof {
            lemma_count_true_bound(enqueued@);
            lemma_count_true_full(enqueued@);
        }
        if queue.len() < n {
            proof {
                assert(!(forall|i: int| 0 <= i < enqueued@.len() ==> enqueued@[i]));
                let x = choose|x: int| 0 <= x < enqueued@.len() && !enqueued@[x];
                assert(!done[x]);
                assert forall|v: int| 0 <= v < n && !done[v] implies g.in_count(v, done) > 0 by {
                    assert(!enqueued@[v]);
                }
                g.lemma_stuck_not_schedulable(done);
                g.lemma_stuck_has_cycle(done);
            }
            return Err(GraphError::Cycle);
        }
        let mut order: Vec<NodeId> = Vec::new();
        let mut k: usize = 0;
        while k < queue.len()
            invariant
                k <= queue@.len(),
                order@.len() == k,
                forall|j: int| 0 <= j < k ==> (#[trigger] order@[j]).0 == queue@[j],
            decreases queue@.len() - k,
        {
            order.push(NodeId(queue[k]));
            k = k + 1;
        }
        proof {
            let ord = order@.map_values(|id: NodeId| id.0);
            assert(ord =~= queue@);
            assert forall|j: int, k: int| 0 <= j < k < n implies ord[j] != ord[k] by {
                assert(pos[queue@[j] as int] == j);
                assert(pos[queue@[k] as int] == k);
            }
            assert forall|i: int, a: int, b: int| 0 <= i < g.connections.len() && 0 <= a < n && 0 <= b < n
                && g.ordering_edge(#[trigger] g.connections[i])
                && #[trigger] ord[a] == g.connections[i].source.0 && #[trigger] ord[b] == g.connections[i].destination.0
                implies a < b by {
                assert(pos[queue@[a] as int] == a);
                assert(pos[queue@[b] as int] == b);
                assert(enqueued@[g.connections[i].destination.0 as int]);
            }
            assert forall|i: int, a: int, b: int| 0 <= i < g.param_connections.len() && 0 <= a < n && 0 <= b < n
                && #[trigger] ord[a] == (#[trigger] g.param_connections[i]).source.0
                && #[trigger] ord[b] == g.param_connections[i].destination.node.0
                implies a < b by {
                assert(pos[queue@[a] as int] == a);
                assert(pos[queue@[b] as int] == b);
                assert(enqueued@[g.param_connections[i].destination.node.0 as int]);
            }
            assert(g.topological(ord));
        }
        Ok(order)
    }
}

proof fn lemma_conn_in_le(g: GraphView, s: Seq<NodeConnection>, v: int, done: Seq<bool>)
    ensures
        g.conn_in(s, v, done) <= s.len(),
    decreases s.len(),
{
    if s.len() > 0 {
        lemma_conn_in_le(g, s.drop_last(), v, done);
    }
}

} // verus!

verus! {

impl GraphView {
    /// `u` lies on a cycle: some connection leaves it for a node from which
    /// signal flows back to it.
    pub open spec fn on_cycle(&self, u: int) -> bool {
        exists|v: int| #[trigger] self.edge(u, v) && self.reachable(v, u)
    }
}

impl GraphTopology {
    /// For every node, whether it is a delay node that lies on a cycle.
    pub fn delay_cycle_nodes(&self) -> (r: Vec<bool>)
        requires
            self.wf(),
        ensures
            r@.len() == self.nodes@.len(),
            forall|i: int| 0 <= i < r@.len() ==> #[trigger] r@[i] == (self@.delay(i) && self@.on_cycle(i)),
    {
        let n = self.nodes.len();
        let mut r: Vec<bool> = Vec::new();
        let mut i: usize = 0;
        while i < n
            invariant
                self.wf(),
                n == self.nodes@.len(),
                i <= n,
                r@.len() == i,
                forall|k: int| 0 <= k < i ==> #[trigger] r@[k] == (self@.delay(k) && self@.on_cycle(k)),
            decreases n - i,
        {
            let delay = NodeId(i);
            let mut found = false;
            if self.is_delay_node(delay) {
                let mut c: usize = 0;
                while c < self.connections.len() && !found
                    invariant
                        self.wf(),
                        n == self.nodes@.len(),
                        i < n,
                        delay.0 == i,
                        c <= self.connections@.len(),
                        found ==> self@.on_cycle(i as int),
                        !found ==> forall|k: int| 0 <= k < c && (#[trigger] self.connections@[k]).source.0 == i
                            ==> !self@.reachable(self.connections@[k].destination.0 as int, i as int),
                    decreases self.connections@.len() - c,
                {
                    let conn = self.connections[c];
                    proof { assert(conn_ok(self@.nodes, self@.connections[c as int])); }
                    if conn.source.0 == i {
                        let back = if conn.destination.0 == i {
                            proof { self@.lemma_reachable_refl(i as int); }
                            true
                        } else {
                            self.has_path(conn.destination, delay)
                        };
                        proof {
                            assert(back == self@.reachable(conn.destination.0 as int, i as int));
                        }
                        if back {
                            proof {
                                assert(self@.connections[c as int].source.0 == i as int);
                                assert(self@.node_edge(i as int, conn.destination.0 as int));
                                assert(self@.edge(i as int, conn.destination.0 as int));
                            }
                            found = true;
                        }
                    }
                    c = c + 1;
                }
                let mut c: usize = 0;
                while c < self.param_connections.len() && !found
                    invariant
                        self.wf(),
                        n == self.nodes@.len(),
                        i < n,
                        delay.0 == i,
                        c <= self.param_connections@.len(),
                        found ==> self@.on_cycle(i as int),
                        !found ==> forall|k: int| 0 <= k < self.connections@.len() && (#[trigger] self.connections@[k]).source.0 == i
                            ==> !self@.reachable(self.connections@[k].destination.0 as int, i as int),
                        !found ==> forall|k: int| 0 <= k < c && (#[trigger] self.param_connections@[k]).source.0 == i
                            ==> !self@.reachable(self.param_connections@[k].destination.node.0 as int, i as int),
                    decreases self.param_connections@.len() - c,
                {
                    let conn = self.param_connections[c];
                    proof { assert(param_ok(self@.nodes, self@.param_connections[c as int])); }
                    if conn.source.0 == i {
                        let back = self.has_path(conn.destination.node, delay);
                        if back {
                            proof {
                                assert(self@.param_connections[c as int].source.0 == i as int);
                                assert(self@.param_edge(i as int, conn.destination.node.0 as int));
                                assert(self@.edge(i as int, conn.destination.node.0 as int));
                            }
                            found = true;
                        }
                    }
                    c = c + 1;
                }
                proof {
                    if !found {
                        assert forall|v: int| #[trigger] self@.edge(i as int, v) implies !self@.reachable(v, i as int) by {
                            if self@.node_edge(i as int, v) {
                                let k = choose|k: int| 0 <= k < self@.connections.len()
                                    && #[trigger] self@.connections[k].source.0 == i as int && self@.connections[k].destination.0 == v;
                                assert(self.connections@[k].source.0 == i);
                            } else {
                                let k = choose|k: int| 0 <= k < self@.param_connections.len()
                                    && #[trigger] self@.param_connections[k].source.0 == i as int
                                    && self@.param_connections[k].destination.node.0 == v;
                                assert(self.param_connections@[k].source.0 == i);
                            }
                        }
                    }
                }
            }
            r.push(found);
            i = i + 1;
        }
        r
    }
}

} // verus!

verus! {

/// Connecting again what is connected changes nothing: adding a connection
/// twice leaves the list as adding it once.
pub proof fn law_connect_is_idempotent(s: Seq<NodeConnection>, x: NodeConnection)
    ensures
        add_once(add_once(s, x), x) == add_once(s, x),
{
    if !s.contains(x) {
        assert(s.push(x)[s.len() as int] == x);
        assert(s.push(x).contains(x));
    }
}

/// Disconnecting undoes connecting: connecting and then disconnecting the
/// same connection leaves the list as disconnecting alone does, and the
/// connection is gone afterwards.
pub proof fn law_disconnect_undoes_connect(s: Seq<NodeConnection>, x: NodeConnection)
    ensures
        without(add_once(s, x), x) == without(s, x),
        !without(s, x).contains(x),
{
    if !s.contains(x) {
        s.lemma_filter_push(x, differs_from(x));
        assert(!differs_from(x)(x));
    }
    if without(s, x).contains(x) {
        s.lemma_filter_contains_rev(differs_from(x), x);
        let i = choose|i: int| 0 <= i < without(s, x).len() && without(s, x)[i] == x;
        s.filter_lemma(differs_from(x));
        assert(differs_from(x)(without(s, x)[i]));
    }
}

/// A connection that was accepted lets signal flow from its source to its
/// target.
pub proof fn law_connected_nodes_reach(g: GraphView, source: NodeId, output: usize, target: NodeId, input: usize)
    requires
        g.wf(),
        g.connect_check(source, output, target, input) is Ok,
    ensures
        (GraphView { connections: add_once(g.connections, node_conn(source, output, target, input)), ..g })
            .reachable(source.0 as int, target.0 as int),
{
    let x = node_conn(source, output, target, input);
    let h = GraphView { connections: add_once(g.connections, x), ..g };
    let i = if g.connections.contains(x) {
        choose|i: int| 0 <= i < g.connections.len() && g.connections[i] == x
    } else {
        g.connections.len() as int
    };
    assert(0 <= i < h.connections.len());
    assert(h.connections[i] == x);
    assert(h.connections[i].source.0 == source.0 as int);
    assert(h.connections[i].destination.0 == target.0 as int);
    assert(h.node_edge(source.0 as int, target.0 as int));
    assert(h.edge(source.0 as int, target.0 as int));
    let p = seq![source.0 as int, target.0 as int];
    assert(h.is_path(p));
}

impl GraphView {
    /// No cycle of connections that must be computed first: from the far
    /// end of such a connection no path of them leads back.
    pub open spec fn order_acyclic(&self) -> bool {
        forall|u: int, v: int| #[trigger] self.step(u, v, true) ==> !self.walks(v, u, true)
    }

    proof fn lemma_walks_along(&self, a: int, q: Seq<int>, k: int, live: bool)
        requires
            self.is_walk(q, live),
            self.walks(a, q[0], live),
            0 <= k < q.len(),
        ensures
            self.walks(a, q[k], live),
        decreases k,
    {
        if k > 0 {
            self.lemma_walks_along(a, q, k - 1, live);
            let j = k - 1;
            assert(self.step(q[j], q[j + 1], live));
            assert(j + 1 == k);
            self.lemma_walks_step(a, q[j], q[k], live);
        }
    }

    proof fn lemma_walks_trans(&self, a: int, b: int, c: int, live: bool)
        requires
            self.walks(a, b, live),
            self.walks(b, c, live),
        ensures
            self.walks(a, c, live),
    {
        let q = choose|q: Seq<int>| #[trigger] self.is_walk(q, live) && q[0] == b && q.last() == c;
        self.lemma_walks_along(a, q, q.len() - 1, live);
    }
}

/// `h` is `g` with at most one more ordering step, from `s` to `t`.
pub open spec fn one_more_step(g: GraphView, h: GraphView, s: int, t: int) -> bool {
    &&& h.nodes == g.nodes
    &&& forall|a: int, b: int| #[trigger] h.step(a, b, true) ==> g.step(a, b, true) || (a == s && b == t)
}

/// An ordering walk of `h` is one of `g`, or it takes the new step and `g`
/// reaches its end from `t`.
proof fn lemma_walk_after_new_step(g: GraphView, h: GraphView, s: int, t: int, p: Seq<int>)
    requires
        one_more_step(g, h, s, t),
        h.is_walk(p, true),
    ensures
        g.walks(p[0], p.last(), true) || (h.step(s, t, true) && g.walks(t, p.last(), true)),
    decreases p.len(),
{
    if p.len() == 1 {
        g.lemma_walks_refl(p[0], true);
    } else {
        let q = p.drop_last();
        assert forall|k: int| 0 <= k < q.len() - 1 implies #[trigger] h.step(q[k], q[k + 1], true) by {
            assert(h.step(p[k], p[k + 1], true));
        }
        lemma_walk_after_new_step(g, h, s, t, q);
        let k = p.len() - 2;
        assert(h.step(p[k], p[k + 1], true));
        assert(q.last() == p[k]);
        if g.step(p[k], p[k + 1], true) {
            if g.walks(p[0], q.last(), true) {
                g.lemma_walks_step(p[0], p[k], p[k + 1], true);
            } else {
                g.lemma_walks_step(t, p[k], p[k + 1], true);
            }
        } else {
            g.lemma_walks_refl(t, true);
        }
    }
}

/// An ordering walk of `h` is one of `g`, or it takes the new step and `g`
/// reaches `s` from its start.
proof fn lemma_walk_before_new_step(g: GraphView, h: GraphView, s: int, t: int, p: Seq<int>)
    requires
        one_more_step(g, h, s, t),
        h.is_walk(p, true),
    ensures
        g.walks(p[0], p.last(), true) || (h.step(s, t, true) && g.walks(p[0], s, true)),
    decreases p.len(),
{
    if p.len() == 1 {
        g.lemma_walks_refl(p[0], true);
    } else {
        let q = p.drop_last();
        assert forall|k: int| 0 <= k < q.len() - 1 implies #[trigger] h.step(q[k], q[k + 1], true) by {
            assert(h.step(p[k], p[k + 1], true));
        }
        lemma_walk_before_new_step(g, h, s, t, q);
        let k = p.len() - 2;
        assert(h.step(p[k], p[k + 1], true));
        assert(q.last() == p[k]);
        if g.walks(p[0], q.last(), true) {
            if g.step(p[k], p[k + 1], true) {
                g.lemma_walks_step(p[0], p[k], p[k + 1], true);
            }
        }
    }
}

/// Adding an ordering step from `s` to `t`, where `g` has no ordering path
/// back from `t` to `s`, closes no cycle of ordering steps.
proof fn lemma_new_step_keeps_acyclic(g: GraphView, h: GraphView, s: int, t: int)
    requires
        one_more_step(g, h, s, t),
        g.order_acyclic(),
        h.step(s, t, true) ==> !g.walks(t, s, true),
    ensures
        h.order_acyclic(),
{
    assert forall|u: int, v: int| #[trigger] h.step(u, v, true) implies !h.walks(v, u, true) by {
        if h.walks(v, u, true) {
            let p = choose|p: Seq<int>| #[trigger] h.is_walk(p, true) && p[0] == v && p.last() == u;
            lemma_walk_after_new_step(g, h, s, t, p);
            lemma_walk_before_new_step(g, h, s, t, p);
            if g.step(u, v, true) {
                if !g.walks(v, u, true) {
                    // The path back takes the new step: t reaches u, u steps
                    // to v, and v reaches s.
                    g.lemma_walks_step(t, u, v, true);
                    g.lemma_walks_trans(t, v, s, true);
                }
            } else {
                assert(u == s && v == t);
            }
        }
    }
}

/// Connecting keeps a graph schedulable in shape: where no cycle of the
/// graph is made of connections that must be computed first, none is after
/// a connection that `connect_nodes_with_indices` accepts.
pub proof fn law_connect_keeps_cycles_delayed(g: GraphView, source: NodeId, output: usize, target: NodeId, input: usize)
    requires
        g.wf(),
        g.order_acyclic(),
        g.connect_check(source, output, target, input) is Ok,
    ensures
        (GraphView { connections: add_once(g.connections, node_conn(source, output, target, input)), ..g })
            .order_acyclic(),
{
    let x = node_conn(source, output, target, input);
    let h = GraphView { connections: add_once(g.connections, x), ..g };
    let (s, t) = (source.0 as int, target.0 as int);
    assert forall|a: int, b: int| #[trigger] h.step(a, b, true) implies g.step(a, b, true) || (a == s && b == t) by {
        if h.node_edge(a, b) && !h.delay(b) && !g.node_edge(a, b) {
            let i = choose|i: int| 0 <= i < h.connections.len()
                && #[trigger] h.connections[i].source.0 == a && h.connections[i].destination.0 == b;
            if i < g.connections.len() {
                assert(h.connections[i] == g.connections[i]);
                assert(g.connections[i].source.0 == a);
            }
        }
        if h.param_edge(a, b) {
            let j = choose|j: int| 0 <= j < h.param_connections.len()
                && #[trigger] h.param_connections[j].source.0 == a && h.param_connections[j].destination.node.0 == b;
            assert(g.param_connections[j].source.0 == a);
        }
    }
    if h.step(s, t, true) && g.walks(t, s, true) {
        if !g.step(s, t, true) {
            assert(!g.delay(t));
        }
    }
    lemma_new_step_keeps_acyclic(g, h, s, t);
}

/// Connecting to a parameter keeps a graph schedulable in shape, as node
/// connections do.
pub proof fn law_param_connect_keeps_cycles_delayed(g: GraphView, source: NodeId, output: usize, target: ParamId)
    requires
        g.wf(),
        g.order_acyclic(),
        g.param_connect_check(source, output, target) is Ok,
    ensures
        (GraphView {
            param_connections: add_once(g.param_connections, ParamConnection { source, output, destination: target }),
            ..g
        }).order_acyclic(),
{
    let x = ParamConnection { source, output, destination: target };
    let h = GraphView { param_connections: add_once(g.param_connections, x), ..g };
    let (s, t) = (source.0 as int, target.node.0 as int);
    assert forall|a: int, b: int| #[trigger] h.step(a, b, true) implies g.step(a, b, true) || (a == s && b == t) by {
        if h.param_edge(a, b) && !g.param_edge(a, b) {
            let j = choose|j: int| 0 <= j < h.param_connections.len()
                && #[trigger] h.param_connections[j].source.0 == a && h.param_connections[j].destination.node.0 == b;
            if j < g.param_connections.len() {
                assert(h.param_connections[j] == g.param_connections[j]);
                assert(g.param_connections[j].source.0 == a);
            }
        }
        if h.node_edge(a, b) {
            let i = choose|i: int| 0 <= i < h.connections.len()
                && #[trigger] h.connections[i].source.0 == a && h.connections[i].destination.0 == b;
            assert(g.connections[i].source.0 == a);
        }
    }
    lemma_new_step_keeps_acyclic(g, h, s, t);
}

} // verus!
