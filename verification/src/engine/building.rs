//! From the stages of a pipeline to their graph.
use crate::engine::graph::{ConsumerMetaData, ExecutableGraph, ExecutableNode, ExecutableV, MetaV};
use crate::fusion::fuser::get_urn;
use crate::fusion::pipeline::urn_of_transform;
use crate::fusion::stage::{random_id, ExecutableStage};
use crate::jobservice::urns;
use crate::model::{duplicate_text_map, text_map, Components, ComponentsV, NodeV, PTransformNode};
use crate::named::{copy_texts, has_text, texts, NamedMap};
use crate::text::same_text;
use crate::transforms::flatten::Flatten;
use crate::transforms::{from_urn, has_value, FlareRunnerTransform, FlareTransform};
use vstd::prelude::*;
use vstd::string::*;

verus! {

// ---------------------------------------------------------------------------
// What the nodes read and fill
// ---------------------------------------------------------------------------
/// The id of a node.
pub open spec fn node_id(n: ExecutableV) -> Seq<char> {
    match n {
        ExecutableV::Worker(id, _) => id,
        ExecutableV::Runner(r) => r.parts.id,
        ExecutableV::Splittable(s) => s.id,
    }
}

/// Whether elements get into the node by the collection.
pub open spec fn node_reads(n: ExecutableV, p: Seq<char>) -> bool {
    match n {
        ExecutableV::Worker(_, s) => s.input_pcol.id == p,
        ExecutableV::Runner(r) => has_value(r.parts.inputs, p),
        ExecutableV::Splittable(s) => s.stages.len() > 0 && s.stages[0].1.input_pcol.id == p,
    }
}

/// Whether the node fills the collection.
pub open spec fn node_fills(n: ExecutableV, p: Seq<char>) -> bool {
    match n {
        ExecutableV::Worker(_, s) => exists|k: int|
            0 <= k < s.output_pcols.len() && (#[trigger] s.output_pcols[k]).id == p,
        ExecutableV::Runner(r) => has_value(r.parts.outputs, p),
        ExecutableV::Splittable(s) => s.output_pcols.contains(p),
    }
}

/// How the elements of a collection get from one node to another: in the coder that the
/// pipeline gives the collection.
pub open spec fn meta_of(
    c: ComponentsV,
    producer: Seq<char>,
    p: Seq<char>,
    consumer: Seq<char>,
) -> MetaV {
    let coder = if c.pcollections.contains_key(p) {
        c.pcollections[p].coder_id
    } else {
        seq![]
    };
    MetaV {
        producer,
        pcol: p,
        coder,
        components: if c.coders.contains_key(coder) && c.coders[coder].component_coder_ids.len()
            > 0 {
            Some(c.coders[coder].component_coder_ids)
        } else {
            None
        },
        consumer,
    }
}

/// Whether there is to be an edge for the collection between two of the nodes.
pub open spec fn is_edge_for(
    nodes: Seq<ExecutableV>,
    c: ComponentsV,
    e: (int, int, MetaV),
    p: Seq<char>,
) -> bool {
    &&& 0 <= e.0 < nodes.len()
    &&& 0 <= e.1 < nodes.len()
    &&& node_fills(nodes[e.0], p)
    &&& node_reads(nodes[e.1], p)
    &&& e.2 == meta_of(c, node_id(nodes[e.0]), p, node_id(nodes[e.1]))
}

/// Whether there is to be such an edge for some collection.
pub open spec fn is_edge(nodes: Seq<ExecutableV>, c: ComponentsV, e: (int, int, MetaV)) -> bool {
    exists|p: Seq<char>| #[trigger] is_edge_for(nodes, c, e, p)
}

/// Whether the runner can execute the transform.
pub open spec fn is_runners(urn: Seq<char>) -> bool {
    urn == urns::IMPULSE_TRANSFORM@ || urn == urns::GROUP_BY_KEY_TRANSFORM@ || urn
        == urns::FLATTEN_TRANSFORM@
}

/// Whether the node of the graph is the transform, under an id of its own.
pub open spec fn is_runner_of(t: NodeV, n: ExecutableV) -> bool {
    n matches ExecutableV::Runner(r) && r.urn == urn_of_transform(t.transform) && r.parts.name
        == t.transform.unique_name && r.parts.inputs == t.transform.inputs && r.parts.outputs
        == t.transform.outputs
}

/// Whether the nodes are those of the stages: first those of workers, then the
/// transforms of the runner.
pub open spec fn are_nodes_of(
    nodes: Seq<ExecutableV>,
    sdk: Seq<ExecutableStage>,
    runner: Seq<PTransformNode>,
) -> bool {
    &&& nodes.len() == sdk.len() + runner.len()
    &&& forall|i: int|
        0 <= i < sdk.len() ==> #[trigger] nodes[i] == ExecutableV::Worker(
            sdk[i].id@,
            sdk[i].model(),
        )
    &&& forall|i: int|
        sdk.len() <= i < nodes.len() ==> is_runner_of(
            runner[i - sdk.len()].model(),
            #[trigger] nodes[i],
        )
}

// ---------------------------------------------------------------------------
// Whether the graph has room
// ---------------------------------------------------------------------------
/// The collections by which elements get into a node, and those that it fills, one after
/// the other.
#[verifier::ext_equal]
pub struct PortsV {
    pub reads: Set<Seq<char>>,
    pub fills: Seq<Seq<char>>,
}

/// The values of a map, entry by entry.
pub open spec fn entry_values(m: NamedMap<String>) -> Seq<Seq<char>> {
    Seq::new(m.entries@.len(), |i: int| m.entries@[i].1@)
}

pub open spec fn stage_ports(s: ExecutableStage) -> PortsV {
    PortsV {
        reads: set![s.input_pcol.id@],
        fills: Seq::new(s.output_pcols@.len(), |i: int| s.output_pcols@[i].id@),
    }
}

pub open spec fn runner_ports(t: PTransformNode) -> PortsV {
    PortsV {
        reads: entry_values(t.transform.inputs).to_set(),
        fills: entry_values(t.transform.outputs),
    }
}

/// What the nodes of the stages read and fill.
pub open spec fn ports_of(sdk: Seq<ExecutableStage>, runner: Seq<PTransformNode>) -> Seq<PortsV> {
    Seq::new(
        sdk.len() + runner.len(),
        |i: int|
            if i < sdk.len() {
                stage_ports(sdk[i])
            } else {
                runner_ports(runner[i - sdk.len()])
            },
    )
}

/// How many of the nodes read the collection.
pub open spec fn readers(nodes: Seq<PortsV>, p: Seq<char>) -> nat
    decreases nodes.len(),
{
    if nodes.len() == 0 {
        0
    } else {
        readers(nodes.drop_last(), p) + (if nodes.last().reads.contains(p) {
            1nat
        } else {
            0nat
        })
    }
}

/// How many edges there are for these collections: one to each node that reads one.
pub open spec fn edges_for(nodes: Seq<PortsV>, fills: Seq<Seq<char>>) -> nat
    decreases fills.len(),
{
    if fills.len() == 0 {
        0
    } else {
        edges_for(nodes, fills.drop_last()) + readers(nodes, fills.last())
    }
}

/// How many edges come out of some of the nodes.
pub open spec fn edges_out_of(nodes: Seq<PortsV>, some: Seq<PortsV>) -> nat
    decreases some.len(),
{
    if some.len() == 0 {
        0
    } else {
        edges_out_of(nodes, some.drop_last()) + edges_for(nodes, some.last().fills)
    }
}

/// How many edges the graph of the stages has.
pub open spec fn edge_count(sdk: Seq<ExecutableStage>, runner: Seq<PTransformNode>) -> nat {
    edges_out_of(ports_of(sdk, runner), ports_of(sdk, runner))
}

/// Some of the nodes have no more readers among them than all.
proof fn readers_grow(nodes: Seq<PortsV>, p: Seq<char>, i: int)
    requires
        0 <= i <= nodes.len(),
    ensures
        readers(nodes.take(i), p) <= readers(nodes, p),
        readers(nodes.take(i), p) <= i,
    decreases nodes.len(),
{
    if i < nodes.len() {
        assert(nodes.drop_last().take(i) =~= nodes.take(i));
        readers_grow(nodes.drop_last(), p, i);
    } else {
        assert(nodes.take(i) =~= nodes);
        if i > 0 {
            readers_grow(nodes.drop_last(), p, i - 1);
            assert(nodes.drop_last().take(i - 1) =~= nodes.drop_last());
        }
    }
}

/// For some of the collections there are no more edges than for all.
proof fn edges_grow(nodes: Seq<PortsV>, fills: Seq<Seq<char>>, k: int)
    requires
        0 <= k <= fills.len(),
    ensures
        edges_for(nodes, fills.take(k)) <= edges_for(nodes, fills),
    decreases fills.len(),
{
    if k < fills.len() {
        assert(fills.drop_last().take(k) =~= fills.take(k));
        edges_grow(nodes, fills.drop_last(), k);
    } else {
        assert(fills.take(k) =~= fills);
    }
}

/// Out of some of the nodes there come no more edges than out of all.
proof fn edges_out_grow(nodes: Seq<PortsV>, some: Seq<PortsV>, i: int)
    requires
        0 <= i <= some.len(),
    ensures
        edges_out_of(nodes, some.take(i)) <= edges_out_of(nodes, some),
    decreases some.len(),
{
    if i < some.len() {
        assert(some.drop_last().take(i) =~= some.take(i));
        edges_out_grow(nodes, some.drop_last(), i);
    } else {
        assert(some.take(i) =~= some);
    }
}

/// One more node, and one more of the collections that it fills.
proof fn edges_step(nodes: Seq<PortsV>, i: int, k: int)
    requires
        0 <= i < nodes.len(),
        0 <= k < nodes[i].fills.len(),
    ensures
        edges_for(nodes, nodes[i].fills.take(k + 1)) == edges_for(nodes, nodes[i].fills.take(k))
            + readers(nodes, nodes[i].fills[k]),
        edges_out_of(nodes, nodes.take(i)) + edges_for(nodes, nodes[i].fills.take(k + 1))
            <= edges_out_of(nodes, nodes),
{
    let fills = nodes[i].fills;
    assert(fills.take(k + 1).drop_last() =~= fills.take(k));
    edges_grow(nodes, fills, k + 1);
    assert(nodes.take(i + 1).drop_last() =~= nodes.take(i));
    edges_out_grow(nodes, nodes, i + 1);
}

/// Whether a graph has room for the stages and for the edges between them: its numbers
/// have 32 bits.
pub open spec fn has_room(sdk: Seq<ExecutableStage>, runner: Seq<PTransformNode>) -> bool {
    &&& sdk.len() + runner.len() <= u32::MAX
    &&& edge_count(sdk, runner) <= u32::MAX
}

/// Whether there is a graph of these stages: the runner knows all its transforms, and
/// the numbers of nodes and edges suffice.
pub open spec fn is_buildable(sdk: Seq<ExecutableStage>, runner: Seq<PTransformNode>) -> bool {
    has_room(sdk, runner) && forall|i: int|
        0 <= i < runner.len() ==> is_runners(
            urn_of_transform((#[trigger] runner[i]).transform.model()),
        )
}

// ---------------------------------------------------------------------------
// Building
// ---------------------------------------------------------------------------
/// A node with the collections that it reads and fills.
struct Placed {
    id: String,
    reads: Vec<String>,
    fills: Vec<String>,
}

impl Placed {
    spec fn stands_for(self, n: ExecutableV) -> bool {
        &&& self.id@ == node_id(n)
        &&& forall|p: Seq<char>| #[trigger] texts(self.reads@).contains(p) <==> node_reads(n, p)
        &&& forall|p: Seq<char>| #[trigger] texts(self.fills@).contains(p) <==> node_fills(n, p)
    }

    spec fn ports(self) -> PortsV {
        PortsV { reads: texts(self.reads@).to_set(), fills: texts(self.fills@) }
    }
}

spec fn placed_ports(placed: Seq<Placed>) -> Seq<PortsV> {
    Seq::new(placed.len(), |i: int| placed[i].ports())
}

/// The values of a map, entry by entry.
fn values_in(m: &NamedMap<String>) -> (r: Vec<String>)
    ensures
        texts(r@) == entry_values(*m),
{
    let n: usize = m.entries.len();
    let mut out: Vec<String> = Vec::new();
    let mut i: usize = 0;
    while i < n
        invariant
            n == m.entries@.len(),
            i <= n,
            out@.len() == i,
            forall|k: int| 0 <= k < i ==> (#[trigger] out@[k])@ == m.entries@[k].1@,
        decreases n - i,
    {
        out.push(m.entries[i].1.clone());
        i = i + 1;
    }
    assert(texts(out@) =~= entry_values(*m));
    out
}

/// The values of the entries are those of the map.
proof fn values_are(m: NamedMap<String>)
    requires
        m.wf(),
    ensures
        forall|p: Seq<char>| #[trigger]
            entry_values(m).contains(p) <==> has_value(text_map(m), p),
{
    let values = entry_values(m);
    assert forall|p: Seq<char>| #[trigger] values.contains(p) <==> has_value(text_map(m), p) by {
        if values.contains(p) {
            let k = choose|k: int| 0 <= k < values.len() && values[k] == p;
            m.entry_at(k);
            assert(text_map(m).contains_key(m.entries@[k].0@));
        }
        if has_value(text_map(m), p) {
            let name = choose|name: Seq<char>| #[trigger]
                text_map(m).contains_key(name) && text_map(m)[name] == p;
            let k = m.has_entry(name);
            assert(values[k] == p);
        }
    }
}

/// The transform of the runner, under a new id.
fn runner_of(node: &PTransformNode) -> (r: FlareRunnerTransform)
    requires
        node.wf(),
        is_runners(urn_of_transform(node.transform.model())),
    ensures
        r.wf(),
        is_runner_of(node.model(), ExecutableV::Runner(r.model())),
{
    let urn: &str = get_urn(node);
    let inputs = duplicate_text_map(&node.transform.inputs);
    let outputs = duplicate_text_map(&node.transform.outputs);
    let name: String = node.transform.unique_name.clone();
    if same_text(urn, urns::FLATTEN_TRANSFORM) {
        FlareRunnerTransform::Flatten(Flatten::with(random_id(), inputs, outputs, name))
    } else {
        from_urn(urn, name, inputs, outputs)
    }
}

/// How the elements of a collection get from one node to another.
fn metadata_of(components: &Components, producer: &str, pcollection: &str, consumer: &str) -> (r:
    ConsumerMetaData)
    requires
        components.wf(),
    ensures
        r.model() == meta_of(components.model(), producer@, pcollection@, consumer@),
{
    let ghost c = components.model();
    let coder_id: String = match components.pcollections.get(pcollection) {
        Some(p) => p.coder_id.clone(),
        None => {
            let none = String::new();
            assert(none@ =~= seq![]);
            none
        },
    };
    let component_coder: Option<Vec<String>> = match components.coders.get(coder_id.as_str()) {
        Some(coder) => {
            assert(c.coders.contains_key(coder_id@));
            assert(c.coders[coder_id@].component_coder_ids == texts(coder.component_coder_ids@));
            if coder.component_coder_ids.len() > 0 {
                Some(copy_texts(&coder.component_coder_ids))
            } else {
                None
            }
        },
        None => {
            assert(!c.coders.contains_key(coder_id@));
            None
        },
    };
    ConsumerMetaData {
        producer_transform_id: producer.to_string(),
        produced_pcol_id: pcollection.to_string(),
        coder_id,
        component_coder,
        consumer_transfrom_id: consumer.to_string(),
    }
}

/// A stage of a worker, with the collections that it reads and fills.
fn place_stage(stage: &ExecutableStage) -> (r: Placed)
    ensures
        r.stands_for(ExecutableV::Worker(stage.id@, stage.model())),
        r.ports() == stage_ports(*stage),
{
    let ghost v = ExecutableV::Worker(stage.id@, stage.model());
    let mut reads: Vec<String> = Vec::new();
    reads.push(stage.input_pcol.id.clone());
    let n: usize = stage.output_pcols.len();
    let mut fills: Vec<String> = Vec::new();
    let mut i: usize = 0;
    while i < n
        invariant
            n == stage.output_pcols@.len(),
            i <= n,
            fills@.len() == i,
            forall|k: int| 0 <= k < i ==> (#[trigger] fills@[k])@ == stage.output_pcols@[k].id@,
        decreases n - i,
    {
        fills.push(stage.output_pcols[i].id.clone());
        i = i + 1;
    }
    let r = Placed { id: stage.id.clone(), reads, fills };
    proof {
        assert(texts(r.reads@) =~= seq![stage.input_pcol.id@]);
        assert(seq![stage.input_pcol.id@][0] == stage.input_pcol.id@);
        assert(r.ports() =~= stage_ports(*stage));
        assert forall|p: Seq<char>| #[trigger] texts(r.reads@).contains(p) <==> node_reads(
            v,
            p,
        ) by {
            assert(seq![stage.input_pcol.id@][0] == stage.input_pcol.id@);
        }
        let outs = stage.model().output_pcols;
        assert forall|p: Seq<char>| #[trigger] texts(r.fills@).contains(p) <==> node_fills(
            v,
            p,
        ) by {
            if texts(r.fills@).contains(p) {
                let k = choose|k: int| 0 <= k < texts(r.fills@).len() && texts(r.fills@)[k] == p;
                assert(r.fills@[k]@ == p);
                assert(outs[k] == stage.output_pcols@[k].model());
                assert(v->Worker_1.output_pcols[k].id == p);
                assert(node_fills(v, p));
            }
            if node_fills(v, p) {
                let k = choose|k: int|
                    0 <= k < v->Worker_1.output_pcols.len() && (
                    #[trigger] v->Worker_1.output_pcols[k]).id == p;
                assert(outs[k] == stage.output_pcols@[k].model());
                assert(r.fills@[k]@ == p);
                assert(texts(r.fills@)[k] == p);
            }
        }
    }
    r
}

/// A transform of the runner under the id, with the collections that it reads and fills.
fn place_runner(node: &PTransformNode, id: String) -> (r: Placed)
    ensures
        r.id == id,
        texts(r.reads@) == entry_values(node.transform.inputs),
        texts(r.fills@) == entry_values(node.transform.outputs),
        r.ports() == runner_ports(*node),
{
    Placed {
        id,
        reads: values_in(&node.transform.inputs),
        fills: values_in(&node.transform.outputs),
    }
}

/// How many of the nodes read the collection.
fn count_readers(placed: &Vec<Placed>, pcollection: &str) -> (r: u64)
    requires
        placed@.len() <= u32::MAX,
    ensures
        r == readers(placed_ports(placed@), pcollection@),
        r <= placed@.len(),
{
    let ghost nodes = placed_ports(placed@);
    let n: usize = placed.len();
    let mut count: u64 = 0;
    let mut i: usize = 0;
    while i < n
        invariant
            n == placed@.len(),
            n <= u32::MAX,
            nodes == placed_ports(placed@),
            i <= n,
            count == readers(nodes.take(i as int), pcollection@),
            count <= i,
        decreases n - i,
    {
        proof {
            assert(nodes.take(i + 1).drop_last() =~= nodes.take(i as int));
            assert(nodes.take(i + 1).last() == placed@[i as int].ports());
        }
        if has_text(&placed[i].reads, pcollection) {
            count = count + 1;
        }
        i = i + 1;
    }
    assert(nodes.take(n as int) =~= nodes);
    count
}

/// Whether a graph has room for the edges between the nodes.
fn have_room(placed: &Vec<Placed>) -> (r: bool)
    requires
        placed@.len() <= u32::MAX,
    ensures
        r == (edges_out_of(placed_ports(placed@), placed_ports(placed@)) <= u32::MAX),
{
    let ghost nodes = placed_ports(placed@);
    let n: usize = placed.len();
    let mut total: u64 = 0;
    let mut i: usize = 0;
    while i < n
        invariant
            n == placed@.len(),
            n <= u32::MAX,
            nodes == placed_ports(placed@),
            i <= n,
            total <= u32::MAX,
            total == edges_out_of(nodes, nodes.take(i as int)),
        decreases n - i,
    {
        let fills: &Vec<String> = &placed[i].fills;
        let ghost done = total;
        let m: usize = fills.len();
        let mut k: usize = 0;
        while k < m
            invariant
                n == placed@.len(),
                n <= u32::MAX,
                nodes == placed_ports(placed@),
                i < n,
                *fills == placed@[i as int].fills,
                m == fills@.len(),
                k <= m,
                total <= u32::MAX,
                done == edges_out_of(nodes, nodes.take(i as int)),
                total == done + edges_for(nodes, nodes[i as int].fills.take(k as int)),
            decreases m - k,
        {
            proof {
                assert(nodes[i as int].fills[k as int] == fills@[k as int]@);
                edges_step(nodes, i as int, k as int);
            }
            total = total + count_readers(placed, fills[k].as_str());
            if total > 0xffff_ffff {
                return false;
            }
            k = k + 1;
        }
        proof {
            assert(nodes[i as int].fills.take(m as int) =~= nodes[i as int].fills);
            assert(nodes.take(i + 1).drop_last() =~= nodes.take(i as int));
            assert(nodes.take(i + 1).last() == nodes[i as int]);
        }
        i = i + 1;
    }
    assert(nodes.take(n as int) =~= nodes);
    true
}

/// Whether there is a graph of these stages.
pub fn can_build(sdk_stages: &Vec<ExecutableStage>, runner_stages: &Vec<PTransformNode>) -> (r:
    bool)
    ensures
        r == is_buildable(sdk_stages@, runner_stages@),
{
    let n: usize = sdk_stages.len();
    let m: usize = runner_stages.len();
    let count: u128 = n as u128 + m as u128;
    if count > 0xffff_ffff {
        return false;
    }
    let mut placed: Vec<Placed> = Vec::new();
    let mut i: usize = 0;
    while i < n
        invariant
            n == sdk_stages@.len(),
            i <= n,
            placed@.len() == i,
            forall|k: int|
                0 <= k < i ==> (#[trigger] placed@[k]).ports() == stage_ports(sdk_stages@[k]),
        decreases n - i,
    {
        placed.push(place_stage(&sdk_stages[i]));
        i = i + 1;
    }
    let mut j: usize = 0;
    let mut known: bool = true;
    while j < m
        invariant
            n == sdk_stages@.len(),
            m == runner_stages@.len(),
            j <= m,
            placed@.len() == n + j,
            forall|k: int|
                0 <= k < n ==> (#[trigger] placed@[k]).ports() == stage_ports(sdk_stages@[k]),
            forall|k: int|
                n <= k < n + j ==> (#[trigger] placed@[k]).ports() == runner_ports(
                    runner_stages@[k - n],
                ),
            known == forall|k: int|
                0 <= k < j ==> is_runners(
                    urn_of_transform((#[trigger] runner_stages@[k]).transform.model()),
                ),
        decreases m - j,
    {
        placed.push(place_runner(&runner_stages[j], String::new()));
        let urn: &str = get_urn(&runner_stages[j]);
        if !(same_text(urn, urns::IMPULSE_TRANSFORM) || same_text(urn, urns::GROUP_BY_KEY_TRANSFORM)
            || same_text(urn, urns::FLATTEN_TRANSFORM)) {
            known = false;
        }
        j = j + 1;
    }
    assert(placed_ports(placed@) =~= ports_of(sdk_stages@, runner_stages@));
    let room: bool = have_room(&placed);
    known && room
}

impl ExecutableGraph {
    /// The graph of some stages: an edge for every collection that one of them fills and
    /// another, or the same, reads.
    #[verifier::rlimit(60)]
    pub fn from(
        sdk_stages: &Vec<ExecutableStage>,
        runner_stages: &Vec<PTransformNode>,
        components: &Components,
    ) -> (r: ExecutableGraph)
        requires
            components.wf(),
            forall|i: int| 0 <= i < sdk_stages@.len() ==> (#[trigger] sdk_stages@[i]).wf(),
            forall|i: int| 0 <= i < runner_stages@.len() ==> (#[trigger] runner_stages@[i]).wf(),
            is_buildable(sdk_stages@, runner_stages@),
        ensures
            r.wf(),
            r.components.model() == components.model(),
            r.root() == meta_of(components.model(), seq![], seq![], seq![]),
            are_nodes_of(r.nodes(), sdk_stages@, runner_stages@),
            forall|e: (int, int, MetaV)| #[trigger]
                r.edges().contains(e) <==> is_edge(r.nodes(), components.model(), e),
            r.edges().len() == edge_count(sdk_stages@, runner_stages@),
    {
        let ghost c = components.model();
        proof {
            reveal_strlit("");
            assert(""@ =~= seq![]);
        }
        let root = metadata_of(components, "", "", "");
        let mut graph = ExecutableGraph::new(root, components.duplicate());
        let mut placed: Vec<Placed> = Vec::new();
        let n: usize = sdk_stages.len();
        let m: usize = runner_stages.len();
        let mut i: usize = 0;
        while i < n
            invariant
                n == sdk_stages@.len(),
                n + runner_stages@.len() <= u32::MAX,
                i <= n,
                forall|k: int| 0 <= k < sdk_stages@.len() ==> (#[trigger] sdk_stages@[k]).wf(),
                graph.wf(),
                graph.components.model() == c,
                graph.root() == meta_of(c, seq![], seq![], seq![]),
                graph.edges() == Seq::<(int, int, MetaV)>::empty(),
                graph.nodes().len() == i,
                placed@.len() == i,
                forall|k: int|
                    0 <= k < i ==> (#[trigger] placed@[k]).ports() == stage_ports(sdk_stages@[k]),
                forall|k: int|
                    0 <= k < i ==> #[trigger] graph.nodes()[k] == ExecutableV::Worker(
                        sdk_stages@[k].id@,
                        sdk_stages@[k].model(),
                    ),
                forall|k: int|
                    0 <= k < i ==> (#[trigger] placed@[k]).stands_for(graph.nodes()[k]),
            decreases n - i,
        {
            let place = place_stage(&sdk_stages[i]);
            placed.push(place);
            let node = ExecutableNode::Worker(sdk_stages[i].duplicate());
            let _ = graph.add_node(node);
            i = i + 1;
        }
        let mut j: usize = 0;
        while j < m
            invariant
                n == sdk_stages@.len(),
                m == runner_stages@.len(),
                n + m <= u32::MAX,
                j <= m,
                forall|k: int|
                    0 <= k < runner_stages@.len() ==> (#[trigger] runner_stages@[k]).wf(),
                forall|k: int|
                    0 <= k < runner_stages@.len() ==> is_runners(
                        urn_of_transform((#[trigger] runner_stages@[k]).transform.model()),
                    ),
                graph.wf(),
                graph.components.model() == c,
                graph.root() == meta_of(c, seq![], seq![], seq![]),
                graph.edges() == Seq::<(int, int, MetaV)>::empty(),
                graph.nodes().len() == n + j,
                placed@.len() == n + j,
                forall|k: int|
                    0 <= k < n ==> (#[trigger] placed@[k]).ports() == stage_ports(sdk_stages@[k]),
                forall|k: int|
                    n <= k < n + j ==> (#[trigger] placed@[k]).ports() == runner_ports(
                        runner_stages@[k - n],
                    ),
                forall|k: int|
                    0 <= k < n ==> #[trigger] graph.nodes()[k] == ExecutableV::Worker(
                        sdk_stages@[k].id@,
                        sdk_stages@[k].model(),
                    ),
                forall|k: int|
                    n <= k < n + j ==> is_runner_of(
                        runner_stages@[k - n].model(),
                        #[trigger] graph.nodes()[k],
                    ),
                forall|k: int|
                    0 <= k < n + j ==> (#[trigger] placed@[k]).stands_for(graph.nodes()[k]),
            decreases m - j,
        {
            let node: &PTransformNode = &runner_stages[j];
            let transform = runner_of(node);
            let place = place_runner(node, transform.id());
            proof {
                values_are(node.transform.inputs);
                values_are(node.transform.outputs);
                assert(place.stands_for(ExecutableV::Runner(transform.model())));
            }
            placed.push(place);
            let node = ExecutableNode::Runner(transform);
            let _ = graph.add_node(node);
            j = j + 1;
        }
        assert(placed_ports(placed@) =~= ports_of(sdk_stages@, runner_stages@));
        let ghost nodes = graph.nodes();
        graph.connect(&placed, components, Ghost(nodes));
        graph
    }

    /// Puts an edge for every collection that one of the nodes fills and one of them
    /// reads.
    #[verifier::rlimit(60)]
    fn connect(
        &mut self,
        placed: &Vec<Placed>,
        components: &Components,
        Ghost(nodes): Ghost<Seq<ExecutableV>>,
    )
        requires
            old(self).wf(),
            components.wf(),
            nodes == old(self).nodes(),
            old(self).edges() == Seq::<(int, int, MetaV)>::empty(),
            placed@.len() == nodes.len(),
            forall|k: int| 0 <= k < nodes.len() ==> (#[trigger] placed@[k]).stands_for(nodes[k]),
            edges_out_of(placed_ports(placed@), placed_ports(placed@)) <= u32::MAX,
        ensures
            final(self).wf(),
            final(self).nodes() == nodes,
            final(self).root() == old(self).root(),
            final(self).components == old(self).components,
            final(self).edges().len() == edges_out_of(
                placed_ports(placed@),
                placed_ports(placed@),
            ),
            forall|e: (int, int, MetaV)| #[trigger]
                final(self).edges().contains(e) <==> is_edge(nodes, components.model(), e),
    {
        let ghost start = *self;
        let ghost c = components.model();
        let n: usize = placed.len();
        let mut i: usize = 0;
        let ghost ports = placed_ports(placed@);
        while i < n
            invariant
                n == placed@.len(),
                n == nodes.len(),
                i <= n,
                components.wf(),
                c == components.model(),
                self.wf(),
                self.nodes() == nodes,
                self.root() == start.root(),
                self.components == start.components,
                forall|k: int|
                    0 <= k < nodes.len() ==> (#[trigger] placed@[k]).stands_for(nodes[k]),
                ports == placed_ports(placed@),
                edges_out_of(ports, ports) <= u32::MAX,
                self.edges().len() == edges_out_of(ports, ports.take(i as int)),
                forall|e: (int, int, MetaV)| #[trigger]
                    self.edges().contains(e) <==> is_edge(nodes, c, e) && e.0 < i,
            decreases n - i,
        {
            let fills: &Vec<String> = &placed[i].fills;
            let ghost done = edges_out_of(ports, ports.take(i as int));
            let ghost before = self.edges();
            let m: usize = fills.len();
            let mut k: usize = 0;
            while k < m
                invariant
                    n == placed@.len(),
                    n == nodes.len(),
                    i < n,
                    *fills == placed@[i as int].fills,
                    m == fills@.len(),
                    k <= m,
                    components.wf(),
                    c == components.model(),
                    self.wf(),
                    self.nodes() == nodes,
                    self.root() == start.root(),
                    self.components == start.components,
                    forall|x: int|
                        0 <= x < nodes.len() ==> (#[trigger] placed@[x]).stands_for(nodes[x]),
                    ports == placed_ports(placed@),
                    edges_out_of(ports, ports) <= u32::MAX,
                    done == edges_out_of(ports, ports.take(i as int)),
                    self.edges().len() == done + edges_for(
                        ports,
                        ports[i as int].fills.take(k as int),
                    ),
                    forall|e: (int, int, MetaV)| #[trigger]
                        before.contains(e) <==> is_edge(nodes, c, e) && e.0 < i,
                    forall|e: (int, int, MetaV)| #[trigger]
                        self.edges().contains(e) <==> before.contains(e) || filled_before(
                            nodes,
                            c,
                            e,
                            i as int,
                            texts(fills@),
                            k as int,
                        ),
                decreases m - k,
            {
                proof {
                    assert(placed@[i as int].stands_for(nodes[i as int]));
                    assert(texts(fills@)[k as int] == fills@[k as int]@);
                    assert(texts(fills@).contains(fills@[k as int]@));
                    assert(ports[i as int].fills == texts(fills@));
                    edges_step(ports, i as int, k as int);
                }
                self.connect_one(placed, i, fills[k].as_str(), components, Ghost(nodes));
                proof {
                    let p = fills@[k as int]@;
                    assert(texts(fills@)[k as int] == p);
                    assert forall|e: (int, int, MetaV)| #[trigger]
                        self.edges().contains(e) <==> before.contains(e) || filled_before(
                            nodes,
                            c,
                            e,
                            i as int,
                            texts(fills@),
                            k + 1,
                        ) by {
                        filled_one_more(nodes, c, e, i as int, texts(fills@), k as int);
                    }
                }
                k = k + 1;
            }
            proof {
                assert(ports[i as int].fills.take(m as int) =~= ports[i as int].fills);
                assert(ports.take(i + 1).drop_last() =~= ports.take(i as int));
                assert(ports.take(i + 1).last() == ports[i as int]);
                assert forall|e: (int, int, MetaV)| #[trigger]
                    self.edges().contains(e) <==> is_edge(nodes, c, e) && e.0 < i + 1 by {
                    assert(placed@[i as int].stands_for(nodes[i as int]));
                    if filled_before(nodes, c, e, i as int, texts(fills@), m as int) {
                        let x = choose|x: int|
                            0 <= x < m && #[trigger] is_edge_for(nodes, c, e, texts(fills@)[x]);
                        assert(is_edge_for(nodes, c, e, texts(fills@)[x]));
                    }
                    if is_edge(nodes, c, e) && e.0 == i {
                        let p = choose|p: Seq<char>| #[trigger] is_edge_for(nodes, c, e, p);
                        assert(texts(fills@).contains(p));
                        let x = choose|x: int| 0 <= x < texts(fills@).len() && texts(fills@)[x] == p;
                        assert(is_edge_for(nodes, c, e, texts(fills@)[x]));
                    }
                }
            }
            i = i + 1;
        }
        proof {
            assert(ports.take(n as int) =~= ports);
            assert forall|e: (int, int, MetaV)| #[trigger]
                self.edges().contains(e) <==> is_edge(nodes, c, e) by {
                if is_edge(nodes, c, e) {
                    let p = choose|p: Seq<char>| #[trigger] is_edge_for(nodes, c, e, p);
                }
            }
        }
    }

    /// Puts an edge to every node that reads the collection.
    #[verifier::rlimit(60)]
    fn connect_one(
        &mut self,
        placed: &Vec<Placed>,
        from: usize,
        pcollection: &str,
        components: &Components,
        Ghost(nodes): Ghost<Seq<ExecutableV>>,
    )
        requires
            old(self).wf(),
            components.wf(),
            nodes == old(self).nodes(),
            from < nodes.len(),
            placed@.len() == nodes.len(),
            forall|k: int| 0 <= k < nodes.len() ==> (#[trigger] placed@[k]).stands_for(nodes[k]),
            node_fills(nodes[from as int], pcollection@),
            old(self).edges().len() + readers(placed_ports(placed@), pcollection@) <= u32::MAX,
        ensures
            final(self).wf(),
            final(self).nodes() == nodes,
            final(self).root() == old(self).root(),
            final(self).components == old(self).components,
            final(self).edges().len() == old(self).edges().len() + readers(
                placed_ports(placed@),
                pcollection@,
            ),
            forall|e: (int, int, MetaV)| #[trigger]
                final(self).edges().contains(e) <==> old(self).edges().contains(e) || (e.0 == from
                    && is_edge_for(nodes, components.model(), e, pcollection@)),
    {
        let ghost start = *self;
        let ghost c = components.model();
        let ghost p = pcollection@;
        let ghost ports = placed_ports(placed@);
        let n: usize = placed.len();
        let mut j: usize = 0;
        while j < n
            invariant
                n == placed@.len(),
                n == nodes.len(),
                j <= n,
                from < n,
                p == pcollection@,
                components.wf(),
                c == components.model(),
                self.wf(),
                self.nodes() == nodes,
                self.root() == start.root(),
                self.components == start.components,
                forall|k: int|
                    0 <= k < nodes.len() ==> (#[trigger] placed@[k]).stands_for(nodes[k]),
                node_fills(nodes[from as int], p),
                ports == placed_ports(placed@),
                start.edges().len() + readers(ports, p) <= u32::MAX,
                self.edges().len() == start.edges().len() + readers(ports.take(j as int), p),
                forall|e: (int, int, MetaV)| #[trigger]
                    self.edges().contains(e) <==> start.edges().contains(e) || (e.0 == from && e.1
                        < j && is_edge_for(nodes, c, e, p)),
            decreases n - j,
        {
            let ghost before = self.edges();
            proof {
                assert(ports.take(j + 1).drop_last() =~= ports.take(j as int));
                assert(ports.take(j + 1).last() == placed@[j as int].ports());
                readers_grow(ports, p, j + 1);
            }
            assert(placed@[j as int].stands_for(nodes[j as int]));
            assert(placed@[from as int].stands_for(nodes[from as int]));
            let ghost new = (
                from as int,
                j as int,
                meta_of(c, node_id(nodes[from as int]), p, node_id(nodes[j as int])),
            );
            if has_text(&placed[j].reads, pcollection) {
                let metadata = metadata_of(
                    components,
                    placed[from].id.as_str(),
                    pcollection,
                    placed[j].id.as_str(),
                );
                self.add_edge(from, j, metadata);
                proof {
                    assert(is_edge_for(nodes, c, new, p));
                    assert forall|e: (int, int, MetaV)| #[trigger]
                        self.edges().contains(e) <==> start.edges().contains(e) || (e.0 == from
                            && e.1 < j + 1 && is_edge_for(nodes, c, e, p)) by {
                        pushed_contains(before, new, e);
                        if e.0 == from && e.1 == j && is_edge_for(nodes, c, e, p) {
                            assert(e == new);
                        }
                    }
                }
            } else {
                assert(!node_reads(nodes[j as int], p));
            }
            j = j + 1;
        }
        assert(ports.take(n as int) =~= ports);
    }
}

/// Whether there is to be an edge out of the node for one of the first so many
/// collections.
spec fn filled_before(
    nodes: Seq<ExecutableV>,
    c: ComponentsV,
    e: (int, int, MetaV),
    from: int,
    fills: Seq<Seq<char>>,
    k: int,
) -> bool {
    e.0 == from && exists|x: int| 0 <= x < k && #[trigger] is_edge_for(nodes, c, e, fills[x])
}

proof fn filled_one_more(
    nodes: Seq<ExecutableV>,
    c: ComponentsV,
    e: (int, int, MetaV),
    from: int,
    fills: Seq<Seq<char>>,
    k: int,
)
    requires
        0 <= k,
    ensures
        filled_before(nodes, c, e, from, fills, k + 1) <==> filled_before(
            nodes,
            c,
            e,
            from,
            fills,
            k,
        ) || (e.0 == from && is_edge_for(nodes, c, e, fills[k])),
{
}

proof fn pushed_contains(s: Seq<(int, int, MetaV)>, new: (int, int, MetaV), e: (int, int, MetaV))
    ensures
        s.push(new).contains(e) <==> s.contains(e) || e == new,
{
    if s.contains(e) {
        let i = choose|i: int| 0 <= i < s.len() && s[i] == e;
        assert(s.push(new)[i] == e);
    }
    assert(s.push(new)[s.len() as int] == new);
}

} // verus!
