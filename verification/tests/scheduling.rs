use flaredb::engine::graph::{ConsumerMetaData, ExecutableGraph, ExecutableNode};
use flaredb::engine::scheduler::NodeScheduler;
use flaredb::jobservice::urns;
use flaredb::model::Components;
use flaredb::named::NamedMap;
use flaredb::transforms::from_urn;
use std::collections::HashSet;

fn runner_node(name: &str) -> ExecutableNode {
    ExecutableNode::Runner(from_urn(
        urns::IMPULSE_TRANSFORM,
        name.to_string(),
        NamedMap::new(),
        NamedMap::new(),
    ))
}

fn dummy_metadata(name: &str) -> ConsumerMetaData {
    ConsumerMetaData {
        producer_transform_id: format!("producer-{}", name),
        produced_pcol_id: format!("pcol-{}", name),
        coder_id: format!("coder-{}", name),
        component_coder: None,
        consumer_transfrom_id: format!("consumer-{}", name),
    }
}

fn empty_graph() -> ExecutableGraph {
    ExecutableGraph::new(dummy_metadata("root"), Components::empty())
}

#[test]
fn next_nodes_linear_chain() {
    let mut graph = empty_graph();
    let a = graph.add_node(runner_node("A"));
    let b = graph.add_node(runner_node("B"));
    let c = graph.add_node(runner_node("C"));

    graph.add_edge(a, b, dummy_metadata("ab"));
    graph.add_edge(b, c, dummy_metadata("bc"));

    let mut scheduler = NodeScheduler::new(graph);

    let ready = scheduler.next_nodes();
    assert_eq!(ready.len(), 1);
    assert_eq!(ready[0].0, a);

    scheduler.mark_complete(a);
    let ready = scheduler.next_nodes();
    assert_eq!(ready.len(), 1);
    assert_eq!(ready[0].0, b);

    scheduler.mark_complete(b);
    let ready = scheduler.next_nodes();
    assert_eq!(ready.len(), 1);
    assert_eq!(ready[0].0, c);
}

#[test]
fn next_nodes_fan_out() {
    let mut graph = empty_graph();
    let a = graph.add_node(runner_node("A"));
    let b = graph.add_node(runner_node("B"));
    let c = graph.add_node(runner_node("C"));

    graph.add_edge(a, b, dummy_metadata("ab"));
    graph.add_edge(a, c, dummy_metadata("ac"));

    let mut scheduler = NodeScheduler::new(graph);

    let ready = scheduler.next_nodes();
    assert_eq!(ready.len(), 1);
    assert_eq!(ready[0].0, a);

    scheduler.mark_complete(a);
    let ready = scheduler.next_nodes();
    assert_eq!(ready.len(), 2);
    let ready_indices: HashSet<_> = ready.into_iter().map(|(idx, _)| idx).collect();
    assert!(ready_indices.contains(&b));
    assert!(ready_indices.contains(&c));
}

#[test]
fn next_nodes_fan_in_requires_both_parents() {
    let mut graph = empty_graph();
    let a = graph.add_node(runner_node("A"));
    let b = graph.add_node(runner_node("B"));
    let c = graph.add_node(runner_node("C"));

    graph.add_edge(a, c, dummy_metadata("ac"));
    graph.add_edge(b, c, dummy_metadata("bc"));

    let mut scheduler = NodeScheduler::new(graph);

    let ready = scheduler.next_nodes();
    assert_eq!(ready.len(), 2);
    let ready_indices: HashSet<_> = ready.into_iter().map(|(idx, _)| idx).collect();
    assert!(ready_indices.contains(&a));
    assert!(ready_indices.contains(&b));

    scheduler.mark_complete(a);
    let ready = scheduler.next_nodes();
    assert_eq!(ready.len(), 0);

    scheduler.mark_complete(b);
    let ready = scheduler.next_nodes();
    assert_eq!(ready.len(), 1);
    assert_eq!(ready[0].0, c);
}

#[test]
fn a_graph_is_complete_once_every_node_is() {
    let mut graph = empty_graph();
    let a = graph.add_node(runner_node("A"));
    let b = graph.add_node(runner_node("B"));
    graph.add_edge(a, b, dummy_metadata("ab"));

    let mut scheduler = NodeScheduler::new(graph);
    assert!(!scheduler.is_complete());
    scheduler.next_nodes();
    scheduler.mark_complete(a);
    assert!(!scheduler.is_complete());
    scheduler.next_nodes();
    scheduler.mark_complete(b);
    assert!(scheduler.is_complete());
}

#[test]
fn edges_are_found_by_their_ends() {
    let mut graph = empty_graph();
    let a = graph.add_node(runner_node("A"));
    let b = graph.add_node(runner_node("B"));
    let c = graph.add_node(runner_node("C"));
    graph.add_edge(a, b, dummy_metadata("ab"));
    graph.add_edge(a, c, dummy_metadata("ac"));
    assert_eq!(graph.node_count(), 3);
    assert_eq!(graph.predecessors(c), vec![a]);

    let scheduler = NodeScheduler::new(graph);
    let into_b = scheduler.input_edge_metadata(b).unwrap();
    assert_eq!(into_b.produced_pcol_id, "pcol-ab");
    let out_of_a = scheduler.output_edge_metadata(a).unwrap();
    assert_eq!(out_of_a.produced_pcol_id, "pcol-ac");
    let into_root = scheduler.input_edge_metadata(a).unwrap();
    assert_eq!(into_root.produced_pcol_id, "pcol-root");
    assert!(scheduler.output_edge_metadata(c).is_none());
    assert_eq!(scheduler.root_metadata().coder_id, "coder-root");
}

#[test]
fn a_duplicate_is_scheduled_like_its_graph() {
    let mut graph = empty_graph();
    let a = graph.add_node(runner_node("A"));
    let b = graph.add_node(runner_node("B"));
    graph.add_edge(a, b, dummy_metadata("ab"));

    let mut scheduler = NodeScheduler::new(graph.duplicate());
    assert_eq!(graph.node_count(), 2);
    assert_eq!(scheduler.graph.node_count(), 2);
    assert_eq!(scheduler.next_nodes()[0].0, a);
    scheduler.mark_complete(a);
    assert_eq!(scheduler.next_nodes()[0].0, b);
    assert_eq!(
        scheduler.input_edge_metadata(b).unwrap().produced_pcol_id,
        "pcol-ab"
    );
}
