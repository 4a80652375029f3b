//! Which nodes of the graph can run.
use crate::engine::graph::{
    edge_into, edge_out_of, precedes, ConsumerMetaData, ExecutableGraph, ExecutableNode,
};
use crate::engine::laws::ready_is_free;
use std::collections::HashSet;
use vstd::prelude::*;

verus! {

broadcast use vstd::std_specs::hash::group_hash_axioms;

/// The nodes of a graph that were executed, and those that are being executed.
pub struct NodeScheduler {
    pub graph: ExecutableGraph,
    pub executed: HashSet<usize>,
    pub in_flight: HashSet<usize>,
}

impl NodeScheduler {
    pub open spec fn wf(self) -> bool {
        self.graph.wf()
    }

    /// Whether the node can run: it has not begun, and all before it are executed.
    pub open spec fn is_ready(self, i: usize) -> bool {
        &&& i < self.graph.nodes().len()
        &&& !self.executed@.contains(i)
        &&& !self.in_flight@.contains(i)
        &&& forall|j: usize|
            #[trigger]
            precedes(self.graph.edges(), j as int, i as int) ==> self.executed@.contains(j)
    }

    /// Whether all nodes are executed.
    pub open spec fn all_executed(self) -> bool {
        forall|i: usize| i < self.graph.nodes().len() ==> #[trigger] self.executed@.contains(i)
    }

    pub fn new(graph: ExecutableGraph) -> (r: NodeScheduler)
        ensures
            r.graph == graph,
            r.executed@ == Set::<usize>::empty(),
            r.in_flight@ == Set::<usize>::empty(),
    {
        NodeScheduler { graph, executed: HashSet::new(), in_flight: HashSet::new() }
    }

    /// Whether all nodes before this one are executed.
    fn is_free(&self, i: usize) -> (r: bool)
        requires
            self.wf(),
            i < self.graph.nodes().len(),
        ensures
            r == forall|j: usize|
                #[trigger]
                precedes(self.graph.edges(), j as int, i as int) ==> self.executed@.contains(j),
    {
        let before: Vec<usize> = self.graph.predecessors(i);
        let n: usize = before.len();
        let mut k: usize = 0;
        while k < n
            invariant
                n == before@.len(),
                k <= n,
                forall|j: int|
                    0 <= j < n ==> precedes(
                        self.graph.edges(),
                        (#[trigger] before@[j]) as int,
                        i as int,
                    ),
                forall|j: int| 0 <= j < k ==> self.executed@.contains(#[trigger] before@[j]),
            decreases n - k,
        {
            if !self.executed.contains(&before[k]) {
                assert(precedes(self.graph.edges(), before@[k as int] as int, i as int));
                return false;
            }
            k = k + 1;
        }
        proof {
            assert forall|j: usize|
                #[trigger]
                precedes(self.graph.edges(), j as int, i as int) implies self.executed@.contains(
                j,
            ) by {
                let a = choose|a: int| 0 <= a < before@.len() && (#[trigger] before@[a]) == j as int;
                assert(before@[a] == j);
            }
        }
        true
    }

    /// The nodes that can run now, in the order of their numbers. From now on they
    /// count as being executed.
    #[verifier::rlimit(40)]
    pub fn next_nodes(&mut self) -> (r: Vec<(usize, ExecutableNode)>)
        requires
            old(self).wf(),
        ensures
            final(self).wf(),
            final(self).graph == old(self).graph,
            final(self).executed == old(self).executed,
            forall|i: usize|
                #[trigger]
                final(self).in_flight@.contains(i) <==> old(self).in_flight@.contains(i) || old(
                    self,
                ).is_ready(i),
            forall|a: int, b: int| 0 <= a < b < r@.len() ==> (#[trigger] r@[a]).0 < (
            #[trigger] r@[b]).0,
            forall|a: int|
                0 <= a < r@.len() ==> old(self).is_ready((#[trigger] r@[a]).0) && r@[a].1.wf()
                    && r@[a].1.model() == old(self).graph.nodes()[r@[a].0 as int],
            forall|i: usize|
                #[trigger]
                old(self).is_ready(i) ==> exists|a: int|
                    0 <= a < r@.len() && (#[trigger] r@[a]).0 == i,
            forall|a: int, k: int|
                0 <= a < r@.len() && 0 <= k < old(self).graph.edges().len() && (#[trigger] old(
                    self,
                ).graph.edges()[k]).1 == (#[trigger] r@[a]).0 ==> exists|j: usize| #[trigger]
                    old(self).executed@.contains(j) && j == old(self).graph.edges()[k].0,
    {
        let ghost start = *self;
        let n: usize = self.graph.node_count();
        let mut next: Vec<(usize, ExecutableNode)> = Vec::new();
        let mut i: usize = 0;
        while i < n
            invariant
                start.wf(),
                self.graph == start.graph,
                self.executed == start.executed,
                n == self.graph.nodes().len(),
                i <= n,
                forall|k: usize|
                    #[trigger]
                    self.in_flight@.contains(k) <==> start.in_flight@.contains(k) || (k < i
                        && start.is_ready(k)),
                forall|a: int, b: int|
                    0 <= a < b < next@.len() ==> (#[trigger] next@[a]).0 < (#[trigger] next@[b]).0,
                forall|a: int|
                    0 <= a < next@.len() ==> (#[trigger] next@[a]).0 < i && start.is_ready(
                        next@[a].0,
                    ) && next@[a].1.wf() && next@[a].1.model() == start.graph.nodes()[next@[a].0 as int],
                forall|k: usize|
                    k < i && #[trigger] start.is_ready(k) ==> exists|a: int|
                        0 <= a < next@.len() && (#[trigger] next@[a]).0 == k,
            decreases n - i,
        {
            let ghost before = next@;
            let ghost flying = self.in_flight@;
            if !self.executed.contains(&i) && !self.in_flight.contains(&i) && self.is_free(i) {
                assert(start.is_ready(i));
                self.in_flight.insert(i);
                next.push((i, self.graph.node(i).duplicate()));
                proof {
                    assert forall|a: int, b: int| 0 <= a < b < next@.len() implies (
                    #[trigger] next@[a]).0 < (#[trigger] next@[b]).0 by {
                        assert(next@[a] == before[a]);
                        if b < before.len() {
                            assert(next@[b] == before[b]);
                        }
                    }
                    assert forall|k: usize| k < i + 1 && #[trigger] start.is_ready(
                        k,
                    ) implies exists|a: int|
                        0 <= a < next@.len() && (#[trigger] next@[a]).0 == k by {
                        if k == i {
                            assert(next@[before.len() as int].0 == k);
                        } else {
                            let a = choose|a: int|
                                0 <= a < before.len() && (#[trigger] before[a]).0 == k;
                            assert(next@[a] == before[a]);
                        }
                    }
                }
            } else {
                assert(!start.is_ready(i)) by {
                    assert(self.in_flight@.contains(i) <==> start.in_flight@.contains(i) || (i < i
                        && start.is_ready(i)));
                }
            }
            i = i + 1;
        }
        proof {
            assert forall|a: int, k: int|
                0 <= a < next@.len() && 0 <= k < start.graph.edges().len() && (
                #[trigger] start.graph.edges()[k]).1 == (#[trigger] next@[a]).0 implies exists|
                j: usize,
            | #[trigger]
                start.executed@.contains(j) && j == start.graph.edges()[k].0 by {
                ready_is_free(start, next@[a].0);
            }
        }
        next
    }

    /// The node was executed.
    pub fn mark_complete(&mut self, idx: usize)
        ensures
            final(self).graph == old(self).graph,
            final(self).executed@ == old(self).executed@.insert(idx),
            final(self).in_flight@ == old(self).in_flight@.remove(idx),
    {
        self.in_flight.remove(&idx);
        self.executed.insert(idx);
    }

    /// How elements get into the node: by the last added edge into it, or as they get
    /// into the roots.
    pub fn input_edge_metadata(&self, idx: usize) -> (r: Option<ConsumerMetaData>)
        requires
            self.wf(),
        ensures
            r is Some,
            r->0.model() == (if idx < self.graph.nodes().len() {
                match edge_into(self.graph.edges(), idx as int) {
                    Some(m) => m,
                    None => self.graph.root(),
                }
            } else {
                self.graph.root()
            }),
    {
        if idx < self.graph.node_count() {
            match self.graph.last_edge_into(idx) {
                Some(m) => Some(m),
                None => Some(self.graph.get_root_metadata().duplicate()),
            }
        } else {
            Some(self.graph.get_root_metadata().duplicate())
        }
    }

    /// How elements get out of the node: by the last added edge out of it, if any.
    pub fn output_edge_metadata(&self, idx: usize) -> (r: Option<ConsumerMetaData>)
        requires
            self.wf(),
        ensures
            match r {
                Some(m) => idx < self.graph.nodes().len() && edge_out_of(
                    self.graph.edges(),
                    idx as int,
                ) == Some(m.model()),
                None => idx < self.graph.nodes().len() ==> edge_out_of(
                    self.graph.edges(),
                    idx as int,
                ) is None,
            },
    {
        if idx < self.graph.node_count() {
            self.graph.last_edge_out_of(idx)
        } else {
            None
        }
    }

    pub fn root_metadata(&self) -> (r: &ConsumerMetaData)
        ensures
            r.model() == self.graph.root(),
    {
        self.graph.get_root_metadata()
    }

    /// Whether as many nodes are executed as the graph has.
    pub fn is_complete(&self) -> (r: bool)
        requires
            self.wf(),
        ensures
            r == (self.executed@.len() == self.graph.nodes().len()),
    {
        self.executed.len() == self.graph.node_count()
    }
}

// ---------------------------------------------------------------------------
// Laws
// ---------------------------------------------------------------------------
/// Whether the nodes that were executed, or are being executed, are of the graph, and
/// none is both.
pub open spec fn is_consistent(s: NodeScheduler) -> bool {
    &&& forall|i: usize| #[trigger] s.executed@.contains(i) ==> i < s.graph.nodes().len()
    &&& forall|i: usize|
        #[trigger]
        s.in_flight@.contains(i) ==> i < s.graph.nodes().len() && !s.executed@.contains(i)
}

/// The numbers below `n`.
spec fn below(n: nat) -> Set<usize>
    decreases n,
{
    if n == 0 {
        Set::empty()
    } else {
        below((n - 1) as nat).insert((n - 1) as usize)
    }
}

proof fn below_is(n: nat)
    requires
        n <= usize::MAX + 1,
    ensures
        below(n).len() == n,
        below(n).finite(),
        forall|i: usize| #[trigger] below(n).contains(i) <==> i < n,
    decreases n,
{
    if n > 0 {
        below_is((n - 1) as nat);
    }
}

/// A consistent run is complete just when all nodes are executed.
pub proof fn complete_is_all_executed(s: NodeScheduler)
    requires
        is_consistent(s),
        s.graph.nodes().len() <= usize::MAX,
    ensures
        s.executed@.len() == s.graph.nodes().len() <==> s.all_executed(),
{
    let n = s.graph.nodes().len();
    below_is(n);
    assert(s.executed@.subset_of(below(n)));
    vstd::set_lib::lemma_len_subset(s.executed@, below(n));
    if s.executed@.len() == n {
        vstd::set_lib::lemma_subset_equality(s.executed@, below(n));
    }
    if s.all_executed() {
        assert(s.executed@ =~= below(n));
    }
}

/// Once a node has begun, it never becomes ready again: neither while others begin nor
/// when it or another is done.
pub proof fn begun_is_not_ready(before: NodeScheduler, after: NodeScheduler, i: usize)
    requires
        before.executed@.contains(i) || before.in_flight@.contains(i),
        forall|k: usize|
            #[trigger]
            before.executed@.contains(k) || before.in_flight@.contains(k)
                ==> after.executed@.contains(k) || after.in_flight@.contains(k),
    ensures
        !after.is_ready(i),
{
}

/// Whether the edges lead only from lower to higher ranks.
pub open spec fn is_ranked(s: NodeScheduler, rank: spec_fn(int) -> nat) -> bool {
    forall|j: int, i: int|
        #[trigger]
        precedes(s.graph.edges(), j, i) ==> rank(j) < rank(i) && 0 <= j < s.graph.nodes().len()
}

proof fn some_ready(s: NodeScheduler, rank: spec_fn(int) -> nat, i: usize) -> (r: usize)
    requires
        is_ranked(s, rank),
        s.graph.nodes().len() <= usize::MAX,
        s.in_flight@ == Set::<usize>::empty(),
        i < s.graph.nodes().len(),
        !s.executed@.contains(i),
    ensures
        s.is_ready(r),
    decreases rank(i as int),
{
    if s.is_ready(i) {
        i
    } else {
        let j = choose|j: usize|
            #[trigger]
            precedes(s.graph.edges(), j as int, i as int) && !s.executed@.contains(j);
        some_ready(s, rank, j)
    }
}

/// Where the graph has no cycle, a run never stands still: if nothing is being executed
/// and not all is, some node is ready.
pub proof fn no_deadlock(s: NodeScheduler, rank: spec_fn(int) -> nat)
    requires
        is_ranked(s, rank),
        s.graph.nodes().len() <= usize::MAX,
        s.in_flight@ == Set::<usize>::empty(),
        !s.all_executed(),
    ensures
        exists|i: usize| s.is_ready(i),
{
    let i = choose|i: usize| i < s.graph.nodes().len() && !(#[trigger] s.executed@.contains(i));
    let r = some_ready(s, rank, i);
}

} // verus!
