//! What a run of a pipeline does next.
use crate::engine::graph::{edge_into, edge_out_of, ConsumerMetaData, ExecutableNode};
use crate::engine::scheduler::NodeScheduler;
use vstd::prelude::*;
use vstd::string::*;

verus! {

/// A node to be executed, and how elements get into it and out of it.
#[derive(Debug)]
pub struct Launch {
    pub index: usize,
    pub node: ExecutableNode,
    pub input_metadata: Option<ConsumerMetaData>,
    pub output_metadata: Option<ConsumerMetaData>,
}

impl Launch {
    /// Whether the node needs the executor of splittable stages.
    pub fn is_splittable(&self) -> (r: bool)
        ensures
            r == (self.node is Splittable),
    {
        match &self.node {
            ExecutableNode::Splittable(_) => true,
            _ => false,
        }
    }
}

/// What a run does after it has begun all nodes that can run.
#[derive(Debug, Clone, Copy, PartialEq, Eq, Structural)]
pub enum DispatchStep {
    /// Wait for one of those that are being executed.
    Wait,
    /// All is done.
    Done,
    /// Nothing is being executed and nothing can run, though not all is done.
    Deadlocked,
}

/// The error of a run that cannot go on.
pub const DEADLOCK: &'static str = "executable graph deadlocked: no ready nodes and no in-flight work";

/// Whether the launch is that of a node, with the edges of the graph.
pub open spec fn launches(s: NodeScheduler, l: Launch) -> bool {
    let i = l.index as int;
    &&& s.is_ready(l.index)
    &&& l.node.wf()
    &&& l.node.model() == s.graph.nodes()[i]
    &&& l.input_metadata is Some
    &&& l.input_metadata->0.model() == (match edge_into(s.graph.edges(), i) {
        Some(m) => m,
        None => s.graph.root(),
    })
    &&& match l.output_metadata {
        Some(m) => edge_out_of(s.graph.edges(), i) == Some(m.model()),
        None => edge_out_of(s.graph.edges(), i) is None,
    }
}

/// The nodes to be executed now. From now on they count as being executed.
pub fn launch(scheduler: &mut NodeScheduler) -> (r: Vec<Launch>)
    requires
        old(scheduler).wf(),
    ensures
        final(scheduler).wf(),
        final(scheduler).graph == old(scheduler).graph,
        final(scheduler).executed == old(scheduler).executed,
        forall|i: usize|
            #[trigger]
            final(scheduler).in_flight@.contains(i) <==> old(scheduler).in_flight@.contains(i)
                || old(scheduler).is_ready(i),
        forall|a: int| 0 <= a < r@.len() ==> launches(*old(scheduler), #[trigger] r@[a]),
        forall|a: int, b: int| 0 <= a < b < r@.len() ==> (#[trigger] r@[a]).index < (
        #[trigger] r@[b]).index,
        forall|i: usize|
            #[trigger]
            old(scheduler).is_ready(i) ==> exists|a: int|
                0 <= a < r@.len() && (#[trigger] r@[a]).index == i,
{
    let ghost start = *scheduler;
    let ready: Vec<(usize, ExecutableNode)> = scheduler.next_nodes();
    let ghost all = ready@;
    let mut out: Vec<Launch> = Vec::new();
    for entry in it: ready
        invariant
            it.seq() == all,
            start.wf(),
            scheduler.wf(),
            scheduler.graph == start.graph,
            forall|a: int|
                0 <= a < all.len() ==> start.is_ready((#[trigger] all[a]).0) && all[a].1.wf()
                    && all[a].1.model() == start.graph.nodes()[all[a].0 as int],
            out@.len() == it.index(),
            forall|a: int|
                0 <= a < out@.len() ==> (#[trigger] out@[a]).index == all[a].0 && launches(
                    start,
                    out@[a],
                ),
    {
        let ghost i = it.index();
        assert(entry == all[i]);
        let (index, node) = entry;
        let input_metadata: Option<ConsumerMetaData> = scheduler.input_edge_metadata(index);
        let output_metadata: Option<ConsumerMetaData> = scheduler.output_edge_metadata(index);
        out.push(Launch { index, node, input_metadata, output_metadata });
    }
    proof {
        assert forall|a: int, b: int| 0 <= a < b < out@.len() implies (#[trigger] out@[a]).index < (
        #[trigger] out@[b]).index by {
            assert(all[a].0 < all[b].0);
        }
        assert forall|i: usize| #[trigger] start.is_ready(i) implies exists|a: int|
            0 <= a < out@.len() && (#[trigger] out@[a]).index == i by {
            let a = choose|a: int| 0 <= a < all.len() && (#[trigger] all[a]).0 == i;
            assert(out@[a].index == i);
        }
    }
    out
}

/// What to do while `running` nodes are being executed.
pub fn next_step(scheduler: &NodeScheduler, running: usize) -> (r: DispatchStep)
    requires
        scheduler.wf(),
    ensures
        r == (if running > 0 {
            DispatchStep::Wait
        } else if scheduler.executed@.len() == scheduler.graph.nodes().len() {
            DispatchStep::Done
        } else {
            DispatchStep::Deadlocked
        }),
{
    if running > 0 {
        DispatchStep::Wait
    } else if scheduler.is_complete() {
        DispatchStep::Done
    } else {
        DispatchStep::Deadlocked
    }
}

} // verus!
