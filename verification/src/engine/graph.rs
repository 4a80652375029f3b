//! The graph of the stages of a pipeline.
use crate::engine::digraph::{
    digraph_add_edge, digraph_add_node, digraph_clone, digraph_edges, digraph_last_into,
    digraph_last_out_of, digraph_node_count, digraph_nodes, digraph_sources_into, has_edge,
    last_into, last_into_is, last_out_of, last_out_of_is, new_digraph, sources_are, sources_into,
};
use crate::fusion::stage::{ExecutableStage, StageV};
use crate::model::Components;
use crate::named::{copy_texts, texts};
use crate::transforms::{FlareRunnerTransform, RunnerV};
use petgraph::graph::Graph;
use vstd::prelude::*;
use vstd::string::*;

verus! {

/// How elements get from one stage to the next.
#[derive(Debug, Clone)]
pub struct ConsumerMetaData {
    pub producer_transform_id: String,
    pub produced_pcol_id: String,
    pub coder_id: String,
    pub component_coder: Option<Vec<String>>,
    pub consumer_transfrom_id: String,
}

#[verifier::ext_equal]
pub struct MetaV {
    pub producer: Seq<char>,
    pub pcol: Seq<char>,
    pub coder: Seq<char>,
    pub components: Option<Seq<Seq<char>>>,
    pub consumer: Seq<char>,
}

impl ConsumerMetaData {
    pub open spec fn model(self) -> MetaV {
        MetaV {
            producer: self.producer_transform_id@,
            pcol: self.produced_pcol_id@,
            coder: self.coder_id@,
            components: match self.component_coder {
                Some(ids) => Some(texts(ids@)),
                None => None,
            },
            consumer: self.consumer_transfrom_id@,
        }
    }

    pub fn duplicate(&self) -> (r: ConsumerMetaData)
        ensures
            r.model() == self.model(),
    {
        ConsumerMetaData {
            producer_transform_id: self.producer_transform_id.clone(),
            produced_pcol_id: self.produced_pcol_id.clone(),
            coder_id: self.coder_id.clone(),
            component_coder: match &self.component_coder {
                Some(ids) => Some(copy_texts(ids)),
                None => None,
            },
            consumer_transfrom_id: self.consumer_transfrom_id.clone(),
        }
    }
}

/// A stage that uses a splittable ParDo: stages of its own, of which the graph of the
/// pipeline sees one node.
#[derive(Debug, Clone)]
pub struct SplittableStage {
    pub id: String,
    pub stages: Vec<ExecutableStage>,
    pub output_pcols: Vec<String>,
}

#[verifier::ext_equal]
pub struct SplittableV {
    pub id: Seq<char>,
    /// The stages with their ids.
    pub stages: Seq<(Seq<char>, StageV)>,
    pub output_pcols: Seq<Seq<char>>,
}

pub open spec fn stages_model(s: Seq<ExecutableStage>) -> Seq<(Seq<char>, StageV)> {
    Seq::new(s.len(), |i: int| (s[i].id@, s[i].model()))
}

pub open spec fn stages_wf(s: Seq<ExecutableStage>) -> bool {
    forall|i: int| 0 <= i < s.len() ==> (#[trigger] s[i]).wf()
}

pub fn duplicate_stages(v: &Vec<ExecutableStage>) -> (r: Vec<ExecutableStage>)
    requires
        stages_wf(v@),
    ensures
        stages_wf(r@),
        stages_model(r@) == stages_model(v@),
{
    let n: usize = v.len();
    let mut out: Vec<ExecutableStage> = Vec::new();
    let mut i: usize = 0;
    while i < n
        invariant
            n == v@.len(),
            i <= n,
            stages_wf(v@),
            stages_wf(out@),
            out@.len() == i,
            forall|k: int|
                0 <= k < i ==> (#[trigger] out@[k]).id@ == v@[k].id@ && out@[k].model()
                    == v@[k].model(),
        decreases n - i,
    {
        assert(v@[i as int].wf());
        out.push(v[i].duplicate());
        i = i + 1;
    }
    assert(stages_model(out@) =~= stages_model(v@));
    out
}

impl SplittableStage {
    pub open spec fn wf(self) -> bool {
        stages_wf(self.stages@)
    }

    pub open spec fn model(self) -> SplittableV {
        SplittableV {
            id: self.id@,
            stages: stages_model(self.stages@),
            output_pcols: texts(self.output_pcols@),
        }
    }

    pub fn new(id: String, stages: Vec<ExecutableStage>, output_pcols: Vec<String>) -> (r:
        SplittableStage)
        ensures
            r.id == id,
            r.stages == stages,
            r.output_pcols == output_pcols,
    {
        SplittableStage { id, stages, output_pcols }
    }

    pub fn id(&self) -> (r: &str)
        ensures
            r@ == self.id@,
    {
        self.id.as_str()
    }

    pub fn output_pcols(&self) -> (r: &Vec<String>)
        ensures
            *r == self.output_pcols,
    {
        &self.output_pcols
    }

    pub fn duplicate(&self) -> (r: SplittableStage)
        requires
            self.wf(),
        ensures
            r.wf(),
            r.model() == self.model(),
    {
        SplittableStage {
            id: self.id.clone(),
            stages: duplicate_stages(&self.stages),
            output_pcols: copy_texts(&self.output_pcols),
        }
    }
}

/// A node of the graph: a stage of a worker, a transform of the runner, or a
/// splittable stage.
#[derive(Debug, Clone)]
pub enum ExecutableNode {
    Worker(ExecutableStage),
    Runner(FlareRunnerTransform),
    Splittable(SplittableStage),
}

pub enum ExecutableV {
    /// A stage with its id.
    Worker(Seq<char>, StageV),
    Runner(RunnerV),
    Splittable(SplittableV),
}

impl ExecutableNode {
    pub open spec fn wf(self) -> bool {
        match self {
            ExecutableNode::Worker(s) => s.wf(),
            ExecutableNode::Runner(t) => t.wf(),
            ExecutableNode::Splittable(s) => s.wf(),
        }
    }

    pub open spec fn model(self) -> ExecutableV {
        match self {
            ExecutableNode::Worker(s) => ExecutableV::Worker(s.id@, s.model()),
            ExecutableNode::Runner(t) => ExecutableV::Runner(t.model()),
            ExecutableNode::Splittable(s) => ExecutableV::Splittable(s.model()),
        }
    }

    pub fn duplicate(&self) -> (r: ExecutableNode)
        requires
            self.wf(),
        ensures
            r.wf(),
            r.model() == self.model(),
    {
        match self {
            ExecutableNode::Worker(s) => ExecutableNode::Worker(s.duplicate()),
            ExecutableNode::Runner(t) => ExecutableNode::Runner(t.duplicate()),
            ExecutableNode::Splittable(s) => ExecutableNode::Splittable(s.duplicate()),
        }
    }
}

/// The stages of a pipeline and how elements get from one to the next.
pub struct ExecutableGraph {
    pub graph: Graph<u64, u64>,
    pub nodes: Vec<ExecutableNode>,
    pub edges: Vec<ConsumerMetaData>,
    pub root_metadata: ConsumerMetaData,
    pub components: Components,
}

impl ExecutableGraph {
    /// The numbers of edges stand for their metadata, and the edges are between nodes
    /// of the graph.
    pub open spec fn wf(self) -> bool {
        &&& digraph_nodes(self.graph) == self.nodes@.len()
        &&& digraph_edges(self.graph).len() == self.edges@.len()
        &&& forall|i: int|
            0 <= i < self.edges@.len() ==> 0 <= (#[trigger] digraph_edges(self.graph)[i]).0
                < self.nodes@.len() && 0 <= digraph_edges(self.graph)[i].1 < self.nodes@.len()
                && digraph_edges(self.graph)[i].2 == i
        &&& forall|i: int| 0 <= i < self.nodes@.len() ==> (#[trigger] self.nodes@[i]).wf()
        &&& self.components.wf()
    }

    /// The nodes by their numbers.
    pub open spec fn nodes(self) -> Seq<ExecutableV> {
        Seq::new(self.nodes@.len(), |i: int| self.nodes@[i].model())
    }

    /// The edges in the order of their addition.
    pub open spec fn edges(self) -> Seq<(int, int, MetaV)> {
        Seq::new(
            self.edges@.len(),
            |i: int|
                (
                    digraph_edges(self.graph)[i].0,
                    digraph_edges(self.graph)[i].1,
                    self.edges@[i].model(),
                ),
        )
    }

    pub open spec fn root(self) -> MetaV {
        self.root_metadata.model()
    }

    pub fn new(root_metadata: ConsumerMetaData, components: Components) -> (r: ExecutableGraph)
        requires
            components.wf(),
        ensures
            r.wf(),
            r.nodes() == Seq::<ExecutableV>::empty(),
            r.edges() == Seq::<(int, int, MetaV)>::empty(),
            r.root() == root_metadata.model(),
            r.components == components,
    {
        let r = ExecutableGraph {
            graph: new_digraph(),
            nodes: Vec::new(),
            edges: Vec::new(),
            root_metadata,
            components,
        };
        assert(r.nodes() =~= Seq::<ExecutableV>::empty());
        assert(r.edges() =~= Seq::<(int, int, MetaV)>::empty());
        r
    }

    /// One more node; its number is returned.
    pub fn add_node(&mut self, node: ExecutableNode) -> (r: usize)
        requires
            old(self).wf(),
            node.wf(),
            old(self).nodes().len() < u32::MAX,
        ensures
            final(self).wf(),
            r == old(self).nodes().len(),
            final(self).nodes() == old(self).nodes().push(node.model()),
            final(self).edges() == old(self).edges(),
            final(self).root() == old(self).root(),
            final(self).components == old(self).components,
    {
        let ghost before = *self;
        let weight: u64 = self.nodes.len() as u64;
        let r: usize = digraph_add_node(&mut self.graph, weight);
        self.nodes.push(node);
        proof {
            assert(self.nodes() =~= before.nodes().push(node.model()));
            assert(self.edges() =~= before.edges());
        }
        r
    }

    /// One more edge.
    pub fn add_edge(&mut self, source: usize, target: usize, metadata: ConsumerMetaData)
        requires
            old(self).wf(),
            source < old(self).nodes().len(),
            target < old(self).nodes().len(),
            old(self).edges().len() < u32::MAX,
        ensures
            final(self).wf(),
            final(self).nodes() == old(self).nodes(),
            final(self).edges() == old(self).edges().push(
                (source as int, target as int, metadata.model()),
            ),
            final(self).root() == old(self).root(),
            final(self).components == old(self).components,
    {
        let ghost before = *self;
        let weight: u64 = self.edges.len() as u64;
        digraph_add_edge(&mut self.graph, source, target, weight);
        self.edges.push(metadata);
        proof {
            assert(self.nodes() =~= before.nodes());
            assert(self.edges() =~= before.edges().push(
                (source as int, target as int, metadata.model()),
            ));
            let e = digraph_edges(self.graph);
            assert forall|i: int| 0 <= i < self.edges@.len() implies 0 <= (#[trigger] e[i]).0
                < self.nodes@.len() && 0 <= e[i].1 < self.nodes@.len() && e[i].2 == i by {
                if i < before.edges@.len() {
                    assert(e[i] == digraph_edges(before.graph)[i]);
                }
            }
        }
    }

    /// The same graph once more.
    pub fn duplicate(&self) -> (r: ExecutableGraph)
        requires
            self.wf(),
        ensures
            r.wf(),
            r.nodes() == self.nodes(),
            r.edges() == self.edges(),
            r.root() == self.root(),
            r.components.model() == self.components.model(),
    {
        let mut nodes: Vec<ExecutableNode> = Vec::new();
        let n: usize = self.nodes.len();
        let mut i: usize = 0;
        while i < n
            invariant
                self.wf(),
                n == self.nodes@.len(),
                i <= n,
                nodes@.len() == i,
                forall|k: int|
                    0 <= k < i ==> (#[trigger] nodes@[k]).wf() && nodes@[k].model()
                        == self.nodes@[k].model(),
            decreases n - i,
        {
            nodes.push(self.nodes[i].duplicate());
            i = i + 1;
        }
        let mut edges: Vec<ConsumerMetaData> = Vec::new();
        let m: usize = self.edges.len();
        let mut j: usize = 0;
        while j < m
            invariant
                m == self.edges@.len(),
                j <= m,
                edges@.len() == j,
                forall|k: int|
                    0 <= k < j ==> (#[trigger] edges@[k]).model() == self.edges@[k].model(),
            decreases m - j,
        {
            edges.push(self.edges[j].duplicate());
            j = j + 1;
        }
        let r = ExecutableGraph {
            graph: digraph_clone(&self.graph),
            nodes,
            edges,
            root_metadata: self.root_metadata.duplicate(),
            components: self.components.duplicate(),
        };
        assert(r.nodes() =~= self.nodes());
        assert(r.edges() =~= self.edges());
        r
    }

    pub fn node_count(&self) -> (r: usize)
        requires
            self.wf(),
        ensures
            r == self.nodes().len(),
    {
        digraph_node_count(&self.graph)
    }

    pub fn node(&self, i: usize) -> (r: &ExecutableNode)
        requires
            self.wf(),
            i < self.nodes().len(),
        ensures
            r.wf(),
            r.model() == self.nodes()[i as int],
    {
        &self.nodes[i]
    }

    pub fn get_root_metadata(&self) -> (r: &ConsumerMetaData)
        ensures
            r.model() == self.root(),
    {
        &self.root_metadata
    }

    /// The nodes with an edge to this one, the last added edge first.
    pub fn predecessors(&self, i: usize) -> (r: Vec<usize>)
        requires
            self.wf(),
            i < self.nodes().len(),
        ensures
            forall|j: int|
                0 <= j < r@.len() ==> precedes(self.edges(), (#[trigger] r@[j]) as int, i as int),
            forall|k: int|
                #[trigger]
                precedes(self.edges(), k, i as int) ==> exists|j: int|
                    0 <= j < r@.len() && (#[trigger] r@[j]) == k,
    {
        let r: Vec<usize> = digraph_sources_into(&self.graph, i);
        proof {
            let e = digraph_edges(self.graph);
            let s = sources_into(e, i as int);
            let all = Seq::new(r@.len(), |j: int| r@[j] as int);
            assert forall|k: int| #[trigger] precedes(self.edges(), k, i as int) <==> s.contains(
                k,
            ) by {
                sources_are(e, i as int, k);
                if precedes(self.edges(), k, i as int) {
                    let j = choose|j: int|
                        0 <= j < self.edges().len() && (#[trigger] self.edges()[j]).0 == k
                            && self.edges()[j].1 == i;
                    assert(e[j].0 == k);
                }
                if has_edge(e, k, i as int) {
                    let j = choose|j: int|
                        0 <= j < e.len() && (#[trigger] e[j]).0 == k && e[j].1 == i;
                    assert(self.edges()[j].0 == k);
                }
            }
            assert forall|j: int| 0 <= j < r@.len() implies precedes(
                self.edges(),
                (#[trigger] r@[j]) as int,
                i as int,
            ) by {
                assert(all[j] == r@[j]);
                assert(s.contains(all[j]));
            }
            assert forall|k: int| #[trigger] precedes(self.edges(), k, i as int) implies exists|
                j: int,
            |
                0 <= j < r@.len() && (#[trigger] r@[j]) == k by {
                assert(s.contains(k));
                let j = choose|j: int| 0 <= j < s.len() && s[j] == k;
                assert(all[j] == r@[j]);
            }
        }
        r
    }

    /// The metadata of the edge into a node that was added last.
    pub fn last_edge_into(&self, i: usize) -> (r: Option<ConsumerMetaData>)
        requires
            self.wf(),
            i < self.nodes().len(),
        ensures
            match r {
                Some(m) => Some(m.model()) == edge_into(self.edges(), i as int),
                None => edge_into(self.edges(), i as int) is None,
            },
    {
        proof {
            let e = digraph_edges(self.graph);
            edges_agree(self.edges(), e, self.edges@, i as int);
            last_into_is(e, i as int);
        }
        let n: usize = self.edges.len();
        match digraph_last_into(&self.graph, i) {
            Some(w) => {
                assert(w < n);
                Some(self.edges[w as usize].duplicate())
            },
            None => None,
        }
    }

    /// The metadata of the edge out of a node that was added last.
    pub fn last_edge_out_of(&self, i: usize) -> (r: Option<ConsumerMetaData>)
        requires
            self.wf(),
            i < self.nodes().len(),
        ensures
            match r {
                Some(m) => Some(m.model()) == edge_out_of(self.edges(), i as int),
                None => edge_out_of(self.edges(), i as int) is None,
            },
    {
        proof {
            let e = digraph_edges(self.graph);
            edges_agree(self.edges(), e, self.edges@, i as int);
            last_out_of_is(e, i as int);
        }
        let n: usize = self.edges.len();
        match digraph_last_out_of(&self.graph, i) {
            Some(w) => {
                assert(w < n);
                Some(self.edges[w as usize].duplicate())
            },
            None => None,
        }
    }
}

/// Whether there is an edge from one node to another.
pub open spec fn precedes(edges: Seq<(int, int, MetaV)>, source: int, target: int) -> bool {
    exists|i: int|
        0 <= i < edges.len() && (#[trigger] edges[i]).0 == source && edges[i].1 == target
}

/// The metadata of the edge into a node that was added last.
pub open spec fn edge_into(edges: Seq<(int, int, MetaV)>, node: int) -> Option<MetaV>
    decreases edges.len(),
{
    if edges.len() == 0 {
        None
    } else if edges.last().1 == node {
        Some(edges.last().2)
    } else {
        edge_into(edges.drop_last(), node)
    }
}

/// The metadata of the edge out of a node that was added last.
pub open spec fn edge_out_of(edges: Seq<(int, int, MetaV)>, node: int) -> Option<MetaV>
    decreases edges.len(),
{
    if edges.len() == 0 {
        None
    } else if edges.last().0 == node {
        Some(edges.last().2)
    } else {
        edge_out_of(edges.drop_last(), node)
    }
}

/// The numbered edges lead to the metadata of the last edges.
proof fn edges_agree(
    a: Seq<(int, int, MetaV)>,
    e: Seq<(int, int, u64)>,
    m: Seq<ConsumerMetaData>,
    node: int,
)
    requires
        a.len() == e.len(),
        a.len() <= m.len(),
        forall|i: int|
            0 <= i < a.len() ==> (#[trigger] a[i]).0 == e[i].0 && a[i].1 == e[i].1 && e[i].2 == i
                && a[i].2 == m[i].model(),
    ensures
        match last_into(e, node) {
            Some(w) => w < e.len() && edge_into(a, node) == Some(m[w as int].model()),
            None => edge_into(a, node) is None,
        },
        match last_out_of(e, node) {
            Some(w) => w < e.len() && edge_out_of(a, node) == Some(m[w as int].model()),
            None => edge_out_of(a, node) is None,
        },
    decreases a.len(),
{
    if a.len() > 0 {
        let x = a.drop_last();
        let y = e.drop_last();
        assert forall|i: int| 0 <= i < x.len() implies (#[trigger] x[i]).0 == y[i].0 && x[i].1
            == y[i].1 && y[i].2 == i && x[i].2 == m[i].model() by {
            assert(a[i] == x[i] && e[i] == y[i]);
        }
        edges_agree(x, y, m, node);
        assert(a[a.len() - 1].0 == e[a.len() - 1].0);
    }
}

} // verus!
