//! What running the stages of a pipeline comes to.
use crate::engine::building::{are_nodes_of, is_edge, is_edge_for, is_runner_of, node_id};
use crate::engine::digraph::digraph_edges;
use crate::engine::dispatcher::{launches, Launch};
use crate::engine::executor::{
    is_input, is_output, worker_steps, BundleEvent, InputTask, OutputOutcome, OutputState, OutputTask,
    WorkerEvent, WorkerRun, WorkerState, WorkerStep,
};
use crate::engine::graph::{edge_into, edge_out_of, precedes, ExecutableV, MetaV};
use crate::engine::harness::control::{
    ControlResponse, DelayedApplication, ProcessBundleResponse,
};
use crate::engine::harness::data::{
    message_keys, parts_stay_apart, DataChunk, ElementStreamMultiplexer, TimerChunk,
};
use crate::engine::runtime::{
    describes, port_bytes, with_edges, with_sinks, with_windowed, ProcessBundleDescriptor,
};
use crate::engine::scheduler::NodeScheduler;
use crate::engine::sdf::{
    residual_bytes, splittable_steps, SplittableEvent, SplittableRun, SplittableState,
    SplittableStep,
};
use crate::fusion::stage::{map_of_nodes, ExecutableStage};
use crate::model::{
    coder_map, environment_map, pcollection_map, strategy_map, transform_map, CoderV, ComponentsV,
    PCollectionNode, PTransformNode, TransformV,
};
use crate::store::record::{record_model, BeamRecord};
use crate::transforms::flatten::merged;
use vstd::prelude::*;
use vstd::string::*;

verus! {

// ---------------------------------------------------------------------------
// Scheduling
// ---------------------------------------------------------------------------
/// Whether the metadata is that of an edge into the node behind which no other leads there.
pub open spec fn is_last_into(edges: Seq<(int, int, MetaV)>, node: int, m: MetaV) -> bool {
    exists|k: int|
        0 <= k < edges.len() && (#[trigger] edges[k]).1 == node && edges[k].2 == m && forall|l: int|
            k < l < edges.len() ==> (#[trigger] edges[l]).1 != node
}

/// Whether the metadata is that of an edge out of the node behind which no other leads out.
pub open spec fn is_last_out_of(edges: Seq<(int, int, MetaV)>, node: int, m: MetaV) -> bool {
    exists|k: int|
        0 <= k < edges.len() && (#[trigger] edges[k]).0 == node && edges[k].2 == m && forall|l: int|
            k < l < edges.len() ==> (#[trigger] edges[l]).0 != node
}

proof fn last_into_is_last(edges: Seq<(int, int, MetaV)>, node: int)
    ensures
        match edge_into(edges, node) {
            Some(m) => is_last_into(edges, node, m),
            None => forall|k: int| 0 <= k < edges.len() ==> (#[trigger] edges[k]).1 != node,
        },
    decreases edges.len(),
{
    if edges.len() > 0 {
        let last = edges.len() - 1;
        if edges.last().1 == node {
            assert(edges[last].1 == node);
        } else {
            let most = edges.drop_last();
            last_into_is_last(most, node);
            assert forall|k: int| 0 <= k < last implies most[k] == #[trigger] edges[k] by {}
            if let Some(m) = edge_into(most, node) {
                let k = choose|k: int|
                    0 <= k < most.len() && (#[trigger] most[k]).1 == node && most[k].2 == m
                        && forall|l: int| k < l < most.len() ==> (#[trigger] most[l]).1 != node;
                assert(edges[k].1 == node);
            }
        }
    }
}

proof fn last_out_of_is_last(edges: Seq<(int, int, MetaV)>, node: int)
    ensures
        match edge_out_of(edges, node) {
            Some(m) => is_last_out_of(edges, node, m),
            None => forall|k: int| 0 <= k < edges.len() ==> (#[trigger] edges[k]).0 != node,
        },
    decreases edges.len(),
{
    if edges.len() > 0 {
        let last = edges.len() - 1;
        if edges.last().0 == node {
            assert(edges[last].0 == node);
        } else {
            let most = edges.drop_last();
            last_out_of_is_last(most, node);
            assert forall|k: int| 0 <= k < last implies most[k] == #[trigger] edges[k] by {}
            if let Some(m) = edge_out_of(most, node) {
                let k = choose|k: int|
                    0 <= k < most.len() && (#[trigger] most[k]).0 == node && most[k].2 == m
                        && forall|l: int| k < l < most.len() ==> (#[trigger] most[l]).0 != node;
                assert(edges[k].0 == node);
            }
        }
    }
}

/// What is launched is a node of the graph that waits for no other, with the last edge into
/// it, or the root where there is none, and the last edge out of it, if there is one.
pub proof fn launches_are_wired(s: NodeScheduler, l: Launch)
    requires
        s.wf(),
        launches(s, l),
    ensures
        l.index < s.graph.nodes().len(),
        !s.executed@.contains(l.index),
        !s.in_flight@.contains(l.index),
        l.node.model() == s.graph.nodes()[l.index as int],
        forall|k: int|
            0 <= k < s.graph.edges().len() && (#[trigger] s.graph.edges()[k]).1 == l.index
                ==> exists|j: usize| #[trigger]
                s.executed@.contains(j) && j == s.graph.edges()[k].0,
        l.input_metadata is Some,
        is_last_into(s.graph.edges(), l.index as int, l.input_metadata->0.model()) || (
        l.input_metadata->0.model() == s.graph.root() && forall|k: int|
            0 <= k < s.graph.edges().len() ==> (#[trigger] s.graph.edges()[k]).1 != l.index),
        match l.output_metadata {
            Some(m) => is_last_out_of(s.graph.edges(), l.index as int, m.model()),
            None => forall|k: int|
                0 <= k < s.graph.edges().len() ==> (#[trigger] s.graph.edges()[k]).0 != l.index,
        },
{
    ready_is_free(s, l.index);
    last_into_is_last(s.graph.edges(), l.index as int);
    last_out_of_is_last(s.graph.edges(), l.index as int);
}

/// The elements of a message go to one stream just when they are of one instruction and one
/// transform, timers when they are of one instruction, and no timers go where elements go.
pub proof fn messages_are_sorted(
    before: ElementStreamMultiplexer,
    after: ElementStreamMultiplexer,
    data: Seq<DataChunk>,
    timers: Seq<TimerChunk>,
    streams: Seq<usize>,
)
    requires
        after.routed(before, message_keys(data, timers), streams),
    ensures
        streams.len() == data.len() + timers.len(),
        forall|i: int, j: int|
            0 <= i < data.len() && 0 <= j < data.len() ==> (#[trigger] streams[i]
                == #[trigger] streams[j] <==> data[i].key.instruction_id@
                == data[j].key.instruction_id@ && data[i].key.transform_id@
                == data[j].key.transform_id@),
        forall|i: int, j: int|
            0 <= i < timers.len() && 0 <= j < timers.len() ==> (streams[data.len() + i]
                == streams[data.len() + j] <==> (#[trigger] timers[i]).key.instruction_id@ == (
            #[trigger] timers[j]).key.instruction_id@),
        forall|i: int, j: int|
            #![trigger data[i], timers[j]]
            0 <= i < data.len() && 0 <= j < timers.len() ==> streams[i] != streams[data.len() + j],
{
    let keys = message_keys(data, timers);
    assert forall|i: int, j: int| 0 <= i < data.len() && 0 <= j < data.len() implies (
    #[trigger] streams[i] == #[trigger] streams[j] <==> data[i].key.instruction_id@
        == data[j].key.instruction_id@ && data[i].key.transform_id@
        == data[j].key.transform_id@) by {
        parts_stay_apart(before, after, keys, streams, i, j);
    }
    assert forall|i: int, j: int| 0 <= i < timers.len() && 0 <= j < timers.len() implies (
    streams[data.len() + i] == streams[data.len() + j] <==> (
    #[trigger] timers[i]).key.instruction_id@ == (#[trigger] timers[j]).key.instruction_id@) by {
        parts_stay_apart(before, after, keys, streams, data.len() + i, data.len() + j);
    }
    assert forall|i: int, j: int|
        #![trigger data[i], timers[j]]
        0 <= i < data.len() && 0 <= j < timers.len() implies streams[i] != streams[data.len()
        + j] by {
        parts_stay_apart(before, after, keys, streams, i, data.len() + j);
    }
}

/// A node can run just when it is of the graph, has not begun, and every edge into it
/// comes from a node that was executed.
pub proof fn ready_is_free(s: NodeScheduler, i: usize)
    requires
        s.wf(),
    ensures
        s.is_ready(i) <==> i < s.graph.nodes().len() && !s.executed@.contains(i)
            && !s.in_flight@.contains(i) && forall|k: int|
            0 <= k < s.graph.edges().len() && (#[trigger] s.graph.edges()[k]).1 == i
                ==> exists|j: usize| #[trigger]
                s.executed@.contains(j) && j == s.graph.edges()[k].0,
{
    let edges = s.graph.edges();
    crate::coders::row::vec_len_bound(s.graph.nodes);
    if s.is_ready(i) {
        assert forall|k: int|
            0 <= k < s.graph.edges().len() && (#[trigger] s.graph.edges()[k]).1
                == i implies exists|j: usize| #[trigger]
            s.executed@.contains(j) && j == s.graph.edges()[k].0 by {
            assert(edges[k].0 == digraph_edges(s.graph.graph)[k].0);
            let j = edges[k].0 as usize;
            assert(j == edges[k].0);
            assert(precedes(edges, j as int, i as int));
            assert(s.executed@.contains(j));
        }
    }
    if i < s.graph.nodes().len() && !s.executed@.contains(i) && !s.in_flight@.contains(i)
        && !s.is_ready(i) {
        let j = choose|j: usize| #[trigger]
            precedes(edges, j as int, i as int) && !s.executed@.contains(j);
        let k = choose|k: int|
            0 <= k < edges.len() && (#[trigger] edges[k]).0 == j as int && edges[k].1 == i as int;
        assert(s.graph.edges()[k].1 == i);
    }
}

/// Whether no node begins before all nodes with an edge to it were executed.
pub open spec fn is_in_order(s: NodeScheduler) -> bool {
    forall|k: int, i: usize, j: usize|
        0 <= k < s.graph.edges().len() && (#[trigger] s.graph.edges()[k]) == (
            j as int,
            i as int,
            s.graph.edges()[k].2,
        ) && (#[trigger] s.executed@.contains(i) || s.in_flight@.contains(i))
            ==> #[trigger] s.executed@.contains(j)
}

/// A run that begins only nodes that can run, and is done only with nodes that it began,
/// stays in order.
pub proof fn order_is_kept(before: NodeScheduler, after: NodeScheduler)
    requires
        before.wf(),
        is_in_order(before),
        after.graph == before.graph,
        forall|i: usize| #[trigger]
            after.in_flight@.contains(i) ==> before.in_flight@.contains(i) || before.is_ready(i),
        forall|i: usize| #[trigger] before.executed@.contains(i) ==> after.executed@.contains(i),
        forall|i: usize| #[trigger]
            after.executed@.contains(i) ==> before.executed@.contains(i)
                || before.in_flight@.contains(i),
    ensures
        is_in_order(after),
{
    assert forall|k: int, i: usize, j: usize|
        0 <= k < after.graph.edges().len() && (#[trigger] after.graph.edges()[k]) == (
            j as int,
            i as int,
            after.graph.edges()[k].2,
        ) && (#[trigger] after.executed@.contains(i) || after.in_flight@.contains(
            i,
        )) implies #[trigger] after.executed@.contains(j) by {
        assert(before.graph.edges()[k] == after.graph.edges()[k]);
        if before.executed@.contains(i) || before.in_flight@.contains(i) {
            assert(before.executed@.contains(j));
        } else {
            ready_is_free(before, i);
            assert(before.graph.edges()[k].1 == i);
            assert(before.executed@.contains(j));
        }
    }
}

// ---------------------------------------------------------------------------
// The graph of the stages
// ---------------------------------------------------------------------------
/// Whether the node is under the id and elements get into it by the collection.
pub open spec fn takes_in(n: ExecutableV, p: Seq<char>) -> bool {
    match n {
        ExecutableV::Worker(_, s) => s.input_pcol.id == p,
        ExecutableV::Runner(r) => exists|name: Seq<char>| #[trigger]
            r.parts.inputs.contains_key(name) && r.parts.inputs[name] == p,
        ExecutableV::Splittable(s) => s.stages.len() > 0 && s.stages[0].1.input_pcol.id == p,
    }
}

/// Whether elements get out of the node by the collection.
pub open spec fn gives_out(n: ExecutableV, p: Seq<char>) -> bool {
    match n {
        ExecutableV::Worker(_, s) => exists|k: int|
            0 <= k < s.output_pcols.len() && (#[trigger] s.output_pcols[k]).id == p,
        ExecutableV::Runner(r) => exists|name: Seq<char>| #[trigger]
            r.parts.outputs.contains_key(name) && r.parts.outputs[name] == p,
        ExecutableV::Splittable(s) => s.output_pcols.contains(p),
    }
}

/// The id of a node.
pub open spec fn goes_by(n: ExecutableV) -> Seq<char> {
    match n {
        ExecutableV::Worker(id, _) => id,
        ExecutableV::Runner(r) => r.parts.id,
        ExecutableV::Splittable(s) => s.id,
    }
}

/// Whether an edge carries the collection from one node to another: it names both, the
/// collection, the coder that the pipeline gives the collection, and the components that
/// the pipeline gives this coder, if any.
pub open spec fn carries_along(
    nodes: Seq<ExecutableV>,
    c: ComponentsV,
    from: int,
    to: int,
    m: MetaV,
    p: Seq<char>,
) -> bool {
    &&& 0 <= from < nodes.len()
    &&& 0 <= to < nodes.len()
    &&& gives_out(nodes[from], p)
    &&& takes_in(nodes[to], p)
    &&& m.pcol == p
    &&& m.producer == goes_by(nodes[from])
    &&& m.consumer == goes_by(nodes[to])
    &&& m.coder == (if c.pcollections.contains_key(p) {
        c.pcollections[p].coder_id
    } else {
        Seq::<char>::empty()
    })
    &&& match m.components {
        Some(ids) => c.coders.contains_key(m.coder) && ids == c.coders[m.coder].component_coder_ids
            && ids.len() > 0,
        None => c.coders.contains_key(m.coder) ==> c.coders[m.coder].component_coder_ids.len() == 0,
    }
}

/// There is an edge for every collection by which elements get out of one node and into
/// another, and there is no other.
pub proof fn edges_carry_collections(nodes: Seq<ExecutableV>, c: ComponentsV, e: (int, int, MetaV))
    ensures
        is_edge(nodes, c, e) <==> exists|p: Seq<char>| #[trigger]
            carries_along(nodes, c, e.0, e.1, e.2, p),
{
    assert forall|p: Seq<char>| #[trigger] is_edge_for(nodes, c, e, p) <==> carries_along(
        nodes,
        c,
        e.0,
        e.1,
        e.2,
        p,
    ) by {
        if carries_along(nodes, c, e.0, e.1, e.2, p) {
            assert(e.2 =~= crate::engine::building::meta_of(
                c,
                node_id(nodes[e.0]),
                p,
                node_id(nodes[e.1]),
            ));
        }
    }
    if is_edge(nodes, c, e) {
        let p = choose|p: Seq<char>| #[trigger] is_edge_for(nodes, c, e, p);
        assert(carries_along(nodes, c, e.0, e.1, e.2, p));
    }
    if exists|p: Seq<char>| #[trigger] carries_along(nodes, c, e.0, e.1, e.2, p) {
        let p = choose|p: Seq<char>| #[trigger] carries_along(nodes, c, e.0, e.1, e.2, p);
        assert(is_edge_for(nodes, c, e, p));
    }
}

/// The nodes of a graph are the stages of workers, each with its id, and behind them the
/// runner's transforms, each with what it does, its inputs and its outputs.
pub proof fn nodes_are_the_stages(
    nodes: Seq<ExecutableV>,
    sdk: Seq<ExecutableStage>,
    runner: Seq<PTransformNode>,
    i: int,
)
    requires
        are_nodes_of(nodes, sdk, runner),
        0 <= i < nodes.len(),
    ensures
        nodes.len() == sdk.len() + runner.len(),
        i < sdk.len() ==> nodes[i] == ExecutableV::Worker(sdk[i].id@, sdk[i].model()),
        i >= sdk.len() ==> {
            let t = runner[i - sdk.len()].transform.model();
            nodes[i] matches ExecutableV::Runner(r) && (t.spec matches Some(s) ==> r.urn == s.urn)
                && r.parts.name == t.unique_name && r.parts.inputs == t.inputs && r.parts.outputs
                == t.outputs
        },
{
    if i >= sdk.len() {
        assert(is_runner_of(runner[i - sdk.len()].model(), nodes[i]));
    }
}

// ---------------------------------------------------------------------------
// What a worker is told
// ---------------------------------------------------------------------------
/// Whether the descriptor holds, under the windowed id of the collection, a coder of
/// elements in their windows: of the elements' coder, and of that of the global window.
pub open spec fn has_windowed(
    coders: Map<Seq<char>, CoderV>,
    stage: Seq<char>,
    p: Seq<char>,
    element: Seq<char>,
) -> bool {
    let id = stage + "/windowed_value/"@ + p;
    &&& coders.contains_key(id)
    &&& coders[id].spec is Some
    &&& coders[id].spec->0.urn == "beam:coder:windowed_value:v1"@
    &&& coders[id].component_coder_ids.len() == 2
    &&& coders[id].component_coder_ids[0] == element
    &&& coders.contains_key(coders[id].component_coder_ids[1])
    &&& coders[coders[id].component_coder_ids[1]].spec is Some
    &&& coders[coders[id].component_coder_ids[1]].spec->0.urn == "beam:coder:global_window:v1"@
    &&& coders[coders[id].component_coder_ids[1]].component_coder_ids.len() == 0
}

/// The ids at the edges of a stage differ.
proof fn edge_ids_differ(stage: Seq<char>, p: Seq<char>, q: Seq<char>)
    ensures
        stage + "/windowed_value/"@ + p != stage + "/global_window"@,
        stage + "/windowed_value/"@ + p == stage + "/windowed_value/"@ + q ==> p == q,
        stage + "/sink/"@ + p != stage + "/source"@,
        stage + "/sink/"@ + p == stage + "/sink/"@ + q ==> p == q,
{
    reveal_strlit("/windowed_value/");
    reveal_strlit("/global_window");
    reveal_strlit("/sink/");
    reveal_strlit("/source");
    let a = stage + "/windowed_value/"@ + p;
    let b = stage + "/windowed_value/"@ + q;
    let g = stage + "/global_window"@;
    let n = stage.len() as int;
    assert(a[n + 1] == 'w');
    assert(g[n + 1] == 'g');
    assert(a.skip(n + 16) =~= p);
    assert(b.skip(n + 16) =~= q);
    let s = stage + "/sink/"@ + p;
    let t = stage + "/sink/"@ + q;
    let u = stage + "/source"@;
    assert(s[n + 2] == 'i');
    assert(u[n + 2] == 'o');
    assert(s.skip(n + 6) =~= p);
    assert(t.skip(n + 6) =~= q);
}

/// Adding the coder of a collection leaves those that are there for others.
proof fn windowed_stays(
    coders: Map<Seq<char>, CoderV>,
    stage: Seq<char>,
    pcols: Seq<PCollectionNode>,
    p: Seq<char>,
    element: Seq<char>,
)
    requires
        has_windowed(coders, stage, p, element),
        coders[stage + "/windowed_value/"@ + p].component_coder_ids[1] == stage
            + "/global_window"@,
        forall|i: int|
            0 <= i < pcols.len() && (#[trigger] pcols[i]).id@ == p ==> pcols[i].collection.coder_id@
                == element,
    ensures
        has_windowed(with_edges(coders, stage, pcols), stage, p, element),
        with_edges(coders, stage, pcols)[stage + "/windowed_value/"@ + p].component_coder_ids[1]
            == stage + "/global_window"@,
    decreases pcols.len(),
{
    if pcols.len() > 0 {
        let most = pcols.drop_last();
        assert forall|i: int| 0 <= i < most.len() && (#[trigger] most[i]).id@ == p implies
            most[i].collection.coder_id@ == element by {
            assert(most[i] == pcols[i]);
        }
        windowed_stays(coders, stage, most, p, element);
        edge_ids_differ(stage, p, pcols.last().id@);
        edge_ids_differ(stage, pcols.last().id@, p);
        assert(pcols[pcols.len() - 1] == pcols.last());
    }
}

proof fn windowed_comes(
    coders: Map<Seq<char>, CoderV>,
    stage: Seq<char>,
    pcols: Seq<PCollectionNode>,
    i: int,
)
    requires
        0 <= i < pcols.len(),
        coders.contains_key(stage + "/global_window"@),
        coders[stage + "/global_window"@].spec is Some,
        coders[stage + "/global_window"@].spec->0.urn == "beam:coder:global_window:v1"@,
        coders[stage + "/global_window"@].component_coder_ids.len() == 0,
        forall|j: int|
            0 <= j < pcols.len() && (#[trigger] pcols[j]).id@ == pcols[i].id@
                ==> pcols[j].collection.coder_id@ == pcols[i].collection.coder_id@,
    ensures
        has_windowed(
            with_edges(coders, stage, pcols),
            stage,
            pcols[i].id@,
            pcols[i].collection.coder_id@,
        ),
        with_edges(coders, stage, pcols)[stage + "/windowed_value/"@
            + pcols[i].id@].component_coder_ids[1] == stage + "/global_window"@,
    decreases pcols.len(),
{
    let most = pcols.drop_last();
    let p = pcols[i].id@;
    let last = pcols.last();
    assert(pcols[pcols.len() - 1] == last);
    edge_ids_differ(stage, p, last.id@);
    edge_ids_differ(stage, last.id@, p);
    window_stays(coders, stage, most);
    if i < most.len() {
        assert forall|j: int| 0 <= j < most.len() && (#[trigger] most[j]).id@ == most[i].id@ implies
            most[j].collection.coder_id@ == most[i].collection.coder_id@ by {
            assert(most[j] == pcols[j]);
        }
        windowed_comes(coders, stage, most, i);
    }
}

proof fn window_stays(
    coders: Map<Seq<char>, CoderV>,
    stage: Seq<char>,
    pcols: Seq<PCollectionNode>,
)
    requires
        coders.contains_key(stage + "/global_window"@),
    ensures
        with_edges(coders, stage, pcols).contains_key(stage + "/global_window"@),
        with_edges(coders, stage, pcols)[stage + "/global_window"@] == coders[stage
            + "/global_window"@],
    decreases pcols.len(),
{
    if pcols.len() > 0 {
        window_stays(coders, stage, pcols.drop_last());
        edge_ids_differ(stage, pcols.last().id@, pcols.last().id@);
    }
}

/// Whether the collections at the edges of a stage that have one id have one coder.
pub open spec fn edges_agree(stage: ExecutableStage) -> bool {
    &&& forall|i: int|
        0 <= i < stage.output_pcols@.len() && (#[trigger] stage.output_pcols@[i]).id@
            == stage.input_pcol.id@ ==> stage.output_pcols@[i].collection.coder_id@
            == stage.input_pcol.collection.coder_id@
    &&& forall|i: int, j: int|
        0 <= i < stage.output_pcols@.len() && 0 <= j < stage.output_pcols@.len() && (
        #[trigger] stage.output_pcols@[i]).id@ == (#[trigger] stage.output_pcols@[j]).id@
            ==> stage.output_pcols@[i].collection.coder_id@
            == stage.output_pcols@[j].collection.coder_id@
}

/// A worker is told, for the input and for every output of a stage, a coder of its elements
/// in the global window, and by that coder elements get in at the source and out at the
/// sinks.
pub proof fn boundaries_are_windowed(d: ProcessBundleDescriptor, stage: ExecutableStage, i: int)
    requires
        describes(d, stage),
        edges_agree(stage),
        !stage.components.model().coders.contains_key(stage.id@ + "/global_window"@),
    ensures
        has_windowed(
            coder_map(d.coders),
            stage.id@,
            stage.input_pcol.id@,
            stage.input_pcol.collection.coder_id@,
        ),
        0 <= i < stage.output_pcols@.len() ==> has_windowed(
            coder_map(d.coders),
            stage.id@,
            stage.output_pcols@[i].id@,
            stage.output_pcols@[i].collection.coder_id@,
        ),
{
    let coders = stage.components.model().coders;
    let id = stage.id@;
    let p = stage.input_pcol.id@;
    edge_ids_differ(id, p, p);
    let first = with_windowed(
        coders,
        id + "/windowed_value/"@ + p,
        stage.input_pcol.collection.coder_id@,
        id + "/global_window"@,
    );
    assert(has_windowed(first, id, p, stage.input_pcol.collection.coder_id@));
    windowed_stays(
        first,
        id,
        stage.output_pcols@,
        p,
        stage.input_pcol.collection.coder_id@,
    );
    if 0 <= i < stage.output_pcols@.len() {
        windowed_comes(first, id, stage.output_pcols@, i);
    }
}

/// Whether this is the transform by which the elements of a collection get into or out of a
/// stage: it names what it does, and in its payload the address and the coder.
pub open spec fn is_port(
    t: TransformV,
    urn: Seq<char>,
    url: Seq<char>,
    coder: Seq<char>,
) -> bool {
    &&& t.spec is Some
    &&& t.spec->0.urn == urn
    &&& t.spec->0.payload == port_bytes(url, coder)
    &&& t.subtransforms.len() == 0
}

proof fn sinks_keep(
    m: Map<Seq<char>, TransformV>,
    stage: Seq<char>,
    pcols: Seq<PCollectionNode>,
    url: Seq<char>,
    id: Seq<char>,
)
    requires
        m.contains_key(id),
        forall|i: int|
            0 <= i < pcols.len() ==> id != stage + "/sink/"@ + (#[trigger] pcols[i]).id@,
    ensures
        with_sinks(m, stage, pcols, url).contains_key(id),
        with_sinks(m, stage, pcols, url)[id] == m[id],
    decreases pcols.len(),
{
    if pcols.len() > 0 {
        let most = pcols.drop_last();
        assert forall|i: int| 0 <= i < most.len() implies id != stage + "/sink/"@ + (
        #[trigger] most[i]).id@ by {
            assert(most[i] == pcols[i]);
        }
        sinks_keep(m, stage, most, url, id);
        assert(pcols[pcols.len() - 1] == pcols.last());
    }
}

proof fn sinks_come(
    m: Map<Seq<char>, TransformV>,
    stage: Seq<char>,
    pcols: Seq<PCollectionNode>,
    url: Seq<char>,
    i: int,
)
    requires
        0 <= i < pcols.len(),
    ensures
        with_sinks(m, stage, pcols, url).contains_key(stage + "/sink/"@ + pcols[i].id@),
        ({
            let t = with_sinks(m, stage, pcols, url)[stage + "/sink/"@ + pcols[i].id@];
            &&& is_port(
                t,
                "beam:runner:sink:v1"@,
                url,
                stage + "/windowed_value/"@ + pcols[i].id@,
            )
            &&& t.inputs == Map::<Seq<char>, Seq<char>>::empty().insert(
                "local_input"@,
                pcols[i].id@,
            )
            &&& t.outputs == Map::<Seq<char>, Seq<char>>::empty()
        }),
    decreases pcols.len(),
{
    let most = pcols.drop_last();
    let p = pcols[i].id@;
    edge_ids_differ(stage, p, pcols.last().id@);
    if i < most.len() {
        sinks_come(m, stage, most, url, i);
    }
}

proof fn nodes_are_mapped(s: Seq<PTransformNode>, i: int)
    requires
        0 <= i < s.len(),
        forall|j: int| 0 <= j < s.len() && j != i ==> (#[trigger] s[j]).id@ != s[i].id@,
    ensures
        map_of_nodes(s).contains_key(s[i].id@),
        map_of_nodes(s)[s[i].id@] == s[i].transform.model(),
    decreases s.len(),
{
    if i < s.len() - 1 {
        let most = s.drop_last();
        assert forall|j: int| 0 <= j < most.len() && j != i implies (#[trigger] most[j]).id@
            != most[i].id@ by {
            assert(most[j] == s[j]);
        }
        nodes_are_mapped(most, i);
        assert(s[s.len() - 1].id@ != s[i].id@);
    }
}

/// A worker is told where elements get into a stage and where those of each output get out
/// of it: at a source that fills the input collection and at a sink for each output, each
/// with the coder of the collection's elements in their windows.
pub proof fn boundaries_are_ports(d: ProcessBundleDescriptor, stage: ExecutableStage, i: int)
    requires
        describes(d, stage),
    ensures
        d.id@ == stage.id@,
        d.url@ == "127.0.0.1:8099"@,
        transform_map(d.transforms).contains_key(stage.id@ + "/source"@),
        ({
            let t = transform_map(d.transforms)[stage.id@ + "/source"@];
            &&& is_port(
                t,
                "beam:runner:source:v1"@,
                "127.0.0.1:8099"@,
                stage.id@ + "/windowed_value/"@ + stage.input_pcol.id@,
            )
            &&& t.inputs == Map::<Seq<char>, Seq<char>>::empty()
            &&& t.outputs == Map::<Seq<char>, Seq<char>>::empty().insert(
                "local_output"@,
                stage.input_pcol.id@,
            )
        }),
        0 <= i < stage.output_pcols@.len() ==> transform_map(d.transforms).contains_key(
            stage.id@ + "/sink/"@ + stage.output_pcols@[i].id@,
        ) && ({
            let t = transform_map(d.transforms)[stage.id@ + "/sink/"@
                + stage.output_pcols@[i].id@];
            &&& is_port(
                t,
                "beam:runner:sink:v1"@,
                "127.0.0.1:8099"@,
                stage.id@ + "/windowed_value/"@ + stage.output_pcols@[i].id@,
            )
            &&& t.inputs == Map::<Seq<char>, Seq<char>>::empty().insert(
                "local_input"@,
                stage.output_pcols@[i].id@,
            )
            &&& t.outputs == Map::<Seq<char>, Seq<char>>::empty()
        }),
{
    let url = "127.0.0.1:8099"@;
    let m = map_of_nodes(stage.transforms@).insert(
        stage.id@ + "/source"@,
        crate::engine::runtime::source_transform(stage.id@, stage.input_pcol.id@, url),
    );
    assert forall|k: int| 0 <= k < stage.output_pcols@.len() implies stage.id@ + "/source"@
        != stage.id@ + "/sink/"@ + (#[trigger] stage.output_pcols@[k]).id@ by {
        edge_ids_differ(stage.id@, stage.output_pcols@[k].id@, stage.output_pcols@[k].id@);
    }
    sinks_keep(m, stage.id@, stage.output_pcols@, url, stage.id@ + "/source"@);
    if 0 <= i < stage.output_pcols@.len() {
        sinks_come(m, stage.id@, stage.output_pcols@, url, i);
    }
}

/// A worker is told every transform of a stage as it is, and all that it may ask for by id.
pub proof fn transforms_are_told(d: ProcessBundleDescriptor, stage: ExecutableStage, k: int)
    requires
        describes(d, stage),
        0 <= k < stage.transforms@.len(),
        forall|j: int|
            0 <= j < stage.transforms@.len() && j != k ==> (#[trigger] stage.transforms@[j]).id@
                != stage.transforms@[k].id@,
        stage.transforms@[k].id@ != stage.id@ + "/source"@,
        forall|i: int|
            0 <= i < stage.output_pcols@.len() ==> stage.transforms@[k].id@ != stage.id@
                + "/sink/"@ + (#[trigger] stage.output_pcols@[i]).id@,
    ensures
        transform_map(d.transforms).contains_key(stage.transforms@[k].id@),
        transform_map(d.transforms)[stage.transforms@[k].id@]
            == stage.transforms@[k].transform.model(),
        pcollection_map(d.pcollections) == stage.components.model().pcollections,
        strategy_map(d.windowing_strategies) == stage.components.model().windowing_strategies,
        environment_map(d.environments) == stage.components.model().environments,
{
    let url = "127.0.0.1:8099"@;
    nodes_are_mapped(stage.transforms@, k);
    let m = map_of_nodes(stage.transforms@).insert(
        stage.id@ + "/source"@,
        crate::engine::runtime::source_transform(stage.id@, stage.input_pcol.id@, url),
    );
    sinks_keep(m, stage.id@, stage.output_pcols@, url, stage.transforms@[k].id@);
}

// ---------------------------------------------------------------------------
// Executing a stage
// ---------------------------------------------------------------------------
/// The elements for a stage are sent to the source that the worker was told of, and are
/// those of the collection that it fills, in the coder that it reads them by.
pub proof fn input_goes_to_the_source(
    d: ProcessBundleDescriptor,
    stage: ExecutableStage,
    instruction: Seq<char>,
    t: InputTask,
)
    requires
        describes(d, stage),
        edges_agree(stage),
        !stage.components.model().coders.contains_key(stage.id@ + "/global_window"@),
        is_input(stage, instruction, t),
    ensures
        t.instruction_id@ == instruction,
        transform_map(d.transforms).contains_key(t.transform_id@),
        transform_map(d.transforms)[t.transform_id@].spec is Some,
        transform_map(d.transforms)[t.transform_id@].spec->0.urn == "beam:runner:source:v1"@,
        exists|n: Seq<char>| #[trigger]
            transform_map(d.transforms)[t.transform_id@].outputs.contains_key(n)
                && transform_map(d.transforms)[t.transform_id@].outputs[n] == t.pcollection_id@,
        exists|windowed: Seq<char>| #[trigger]
            coder_map(d.coders).contains_key(windowed)
                && transform_map(d.transforms)[t.transform_id@].spec->0.payload == port_bytes(
                "127.0.0.1:8099"@,
                windowed,
            ) && coder_map(d.coders)[windowed].component_coder_ids.len() == 2 && coder_map(
                d.coders,
            )[windowed].component_coder_ids[0] == t.coder_id@,
{
    boundaries_are_ports(d, stage, -1);
    boundaries_are_windowed(d, stage, -1);
    let windowed = stage.id@ + "/windowed_value/"@ + stage.input_pcol.id@;
    assert(transform_map(d.transforms)[t.transform_id@].outputs.contains_key("local_output"@));
    assert(coder_map(d.coders).contains_key(windowed));
}

/// The elements that an edge carries out of a stage are taken from the sink that the worker
/// was told of for their collection.
pub proof fn output_comes_from_the_sink(
    d: ProcessBundleDescriptor,
    stage: ExecutableStage,
    instruction: Seq<char>,
    m: MetaV,
    t: Option<OutputTask>,
    i: int,
)
    requires
        describes(d, stage),
        is_output(stage, instruction, Some(m), t),
        0 <= i < stage.output_pcols@.len(),
        stage.output_pcols@[i].id@ == m.pcol,
    ensures
        t is Some,
        t->0.key.instruction_id@ == instruction,
        t->0.metadata.model() == m,
        transform_map(d.transforms).contains_key(t->0.key.transform_id@),
        transform_map(d.transforms)[t->0.key.transform_id@].spec is Some,
        transform_map(d.transforms)[t->0.key.transform_id@].spec->0.urn == "beam:runner:sink:v1"@,
        exists|n: Seq<char>| #[trigger]
            transform_map(d.transforms)[t->0.key.transform_id@].inputs.contains_key(n)
                && transform_map(d.transforms)[t->0.key.transform_id@].inputs[n] == m.pcol,
{
    boundaries_are_ports(d, stage, i);
    assert(transform_map(d.transforms)[t->0.key.transform_id@].inputs.contains_key(
        "local_input"@,
    ));
}

/// A stage that is executed without faults: it is registered, a bundle of it is begun under
/// the worker's instruction, and the worker's answer is its outcome, at once where it has
/// no output.
pub proof fn execution_without_output(
    r0: WorkerRun,
    r1: WorkerRun,
    r2: WorkerRun,
    r3: WorkerRun,
    s1: WorkerStep,
    s2: WorkerStep,
    s3: WorkerStep,
    id: String,
    answer: ControlResponse,
)
    requires
        r0.state is Registering,
        r0.output_metadata is None,
        r1.stage == r0.stage && r1.output_metadata == r0.output_metadata,
        r2.stage == r0.stage && r2.output_metadata == r0.output_metadata,
        worker_steps(r0, WorkerEvent::Registered(Ok(ControlResponse::BundleRegistered)), r1, s1),
        worker_steps(r1, WorkerEvent::Started(Ok(id)), r2, s2),
        worker_steps(r2, WorkerEvent::Bundle(BundleEvent::Response(Ok(answer))), r3, s3),
    ensures
        s1 matches WorkerStep::Process(stage) && stage@ == r0.stage.id@,
        s2 matches WorkerStep::Begin(input, output) && input.instruction_id@ == id@ && output is None,
        s3 == WorkerStep::Finish(Ok(answer)),
        r3.state is Done,
{
}

/// A stage with output is done when the worker has answered and its output is decoded,
/// whichever comes first, and the answer is its outcome.
pub proof fn execution_with_output(
    r0: WorkerRun,
    r1: WorkerRun,
    r2: WorkerRun,
    s1: WorkerStep,
    s2: WorkerStep,
    first: BundleEvent,
    second: BundleEvent,
    answer: ControlResponse,
)
    requires
        r0.state matches WorkerState::Running { wait, .. } && wait.response is None && wait.output
            == OutputState::Decoding,
        worker_steps(r0, WorkerEvent::Bundle(first), r1, s1),
        worker_steps(r1, WorkerEvent::Bundle(second), r2, s2),
        (first == BundleEvent::Response(Ok(answer)) && second == BundleEvent::Output(
            OutputOutcome::Done,
        )) || (second == BundleEvent::Response(Ok(answer)) && first == BundleEvent::Output(
            OutputOutcome::Done,
        )),
    ensures
        s1 is Wait,
        s2 == WorkerStep::Finish(Ok(answer)),
{
}

/// Whatever fails first while a stage runs is its outcome.
pub proof fn failures_end_the_execution(
    r0: WorkerRun,
    r1: WorkerRun,
    event: BundleEvent,
    s: WorkerStep,
)
    requires
        r0.state is Running,
        worker_steps(r0, WorkerEvent::Bundle(event), r1, s),
        match event {
            BundleEvent::TimedOut => true,
            BundleEvent::Response(r) => r is Err,
            BundleEvent::Output(o) => !(o is Done),
        },
    ensures
        s matches WorkerStep::Finish(r) && r is Err,
        event matches BundleEvent::Response(Err(e)) ==> s == WorkerStep::Finish(Err(e)),
        event matches BundleEvent::Output(OutputOutcome::Failed(e)) ==> s == WorkerStep::Finish(
            Err(e),
        ),
        r1.state is Done,
{
}

/// The runner's flatten hands on every element of every input once, in their order: one
/// more input adds its elements, and no input gives none.
pub proof fn flatten_hands_on_all(inputs: Seq<Vec<BeamRecord>>, more: Vec<BeamRecord>)
    ensures
        merged(Seq::<Vec<BeamRecord>>::empty()).len() == 0,
        merged(inputs.push(more)).len() == merged(inputs).len() + more@.len(),
        forall|i: int|
            0 <= i < merged(inputs).len() ==> #[trigger] merged(inputs.push(more))[i] == merged(
                inputs,
            )[i],
        forall|i: int|
            0 <= i < more@.len() ==> merged(inputs.push(more))[merged(inputs).len() + i]
                == record_model(#[trigger] more@[i]),
{
    assert(inputs.push(more).drop_last() =~= inputs);
    assert(inputs.push(more).last() == more);
}

// ---------------------------------------------------------------------------
// Executing a splittable stage
// ---------------------------------------------------------------------------
/// What is left of a bundle is sent one element behind the other: one more that has an
/// element adds its bytes at the end, and one that has none adds nothing.
pub proof fn residuals_follow_each_other(s: Seq<DelayedApplication>, d: DelayedApplication)
    ensures
        residual_bytes(Seq::<DelayedApplication>::empty()).len() == 0,
        d.element matches Some(e) ==> residual_bytes(s.push(d)) == residual_bytes(s) + e@,
        d.element is None ==> residual_bytes(s.push(d)) == residual_bytes(s),
{
    assert(s.push(d).drop_last() =~= s);
    assert(s.push(d).last() == d);
    assert(residual_bytes(s) + Seq::<u8>::empty() =~= residual_bytes(s));
}

/// What the first part of a splittable stage gives out is what the second part is fed, at
/// its source, whichever of the answer and the output of the first comes first.
pub proof fn output_of_the_first_feeds_the_second(
    r: Seq<SplittableRun>,
    s: Seq<SplittableStep>,
    first: SplittableEvent,
    second: SplittableEvent,
    answer: ProcessBundleResponse,
    collected: Vec<u8>,
    id: String,
)
    requires
        r.len() == 5,
        s.len() == 5,
        forall|i: int| 0 < i < 5 ==> (#[trigger] r[i]).plan == r[0].plan,
        forall|i: int| 2 < i < 5 ==> (#[trigger] r[i]).captured == r[2].captured,
        r[0].state == (SplittableState::Initializing { response: None, collected: None }),
        splittable_steps(r[0], first, r[1], s[1]),
        splittable_steps(r[1], second, r[2], s[2]),
        (first == SplittableEvent::Bundle(
            BundleEvent::Response(Ok(ControlResponse::ProcessBundleSuccess(answer))),
        ) && second == SplittableEvent::Collected(Ok(collected))) || (second
            == SplittableEvent::Bundle(
            BundleEvent::Response(Ok(ControlResponse::ProcessBundleSuccess(answer))),
        ) && first == SplittableEvent::Collected(Ok(collected))),
        splittable_steps(
            r[2],
            SplittableEvent::Registered(Ok(ControlResponse::BundleRegistered)),
            r[3],
            s[3],
        ),
        splittable_steps(r[3], SplittableEvent::Started(Ok(id)), r[4], s[4]),
    ensures
        s[1] is Wait,
        s[2] matches SplittableStep::Register(d) && describes(d, r[0].plan.process_stage),
        s[3] matches SplittableStep::Process(stage) && stage@ == r[0].plan.process_stage.id@,
        s[4] matches SplittableStep::Send { instruction_id, transform_id, data, .. }
            && instruction_id@ == id@ && transform_id@ == r[0].plan.process_stage.id@ + "/source"@
            && data@ == collected@,
{
    assert(r[1].plan == r[0].plan && r[2].plan == r[0].plan && r[3].plan == r[0].plan);
    assert(r[3].captured == r[2].captured);
}

/// What a bundle leaves is what the next one is fed; and where it leaves nothing, its
/// answer is the outcome.
pub proof fn rest_is_fed_again(
    r0: SplittableRun,
    r1: SplittableRun,
    r2: SplittableRun,
    s1: SplittableStep,
    s2: SplittableStep,
    answer: ProcessBundleResponse,
    id: String,
)
    requires
        r0.state matches SplittableState::Processing { wait, .. } && wait.output
            == OutputState::Nothing,
        r1.plan == r0.plan,
        splittable_steps(
            r0,
            SplittableEvent::Bundle(
                BundleEvent::Response(Ok(ControlResponse::ProcessBundleSuccess(answer))),
            ),
            r1,
            s1,
        ),
        splittable_steps(r1, SplittableEvent::Started(Ok(id)), r2, s2),
    ensures
        answer.residual_roots@.len() == 0 ==> s1 == SplittableStep::Finish(
            Ok(ControlResponse::ProcessBundleSuccess(answer)),
        ),
        answer.residual_roots@.len() > 0 ==> (s1 matches SplittableStep::Process(stage) && stage@
            == r0.plan.process_stage.id@) && (s2 matches SplittableStep::Send {
            instruction_id,
            transform_id,
            data,
            ..
        } && instruction_id@ == id@ && transform_id@ == r0.plan.process_stage.id@ + "/source"@
            && data@ == residual_bytes(answer.residual_roots@)),
{
}

} // verus!
