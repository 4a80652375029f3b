//! What a worker is told of a stage.
use crate::engine::graph::ConsumerMetaData;
use crate::fusion::stage::{map_of_nodes, pcol_ids, ExecutableStage};
use crate::jobservice::urns;
use crate::model::{
    coder_map, duplicate_coders, duplicate_environments, duplicate_pcollections,
    duplicate_strategies, environment_map, insert_transform, pcollection_map, strategy_map,
    text_map, transform_map, transforms_wf, Coder, CoderV, Environment, FunctionSpec, PCollection,
    PCollectionNode, PTransform, SpecV, TransformV, WindowingStrategy,
};
use crate::named::{texts, NamedMap};
use crate::text::{join2, join3};
use crate::transforms::{has_value, FlareRunnerTransform};
use crate::DEFAULT_API_SERVICE_URL;
use beam_model_rs::v1 as beam;
use prost::Message;
use vstd::prelude::*;
use vstd::string::*;

verus! {

// ---------------------------------------------------------------------------
// Ids
// ---------------------------------------------------------------------------
/// The transform by which elements get into a stage.
pub open spec fn source_id(stage: Seq<char>) -> Seq<char> {
    stage + "/source"@
}

/// The transform by which the elements of a collection get out of a stage.
pub open spec fn sink_id(stage: Seq<char>, pcol: Seq<char>) -> Seq<char> {
    stage + "/sink/"@ + pcol
}

/// The coder of the window in which all elements are.
pub open spec fn window_id(stage: Seq<char>) -> Seq<char> {
    stage + "/global_window"@
}

/// The coder of the elements of a collection in their windows.
pub open spec fn windowed_id(stage: Seq<char>, pcol: Seq<char>) -> Seq<char> {
    stage + "/windowed_value/"@ + pcol
}

pub fn stage_source_transform_id(stage: &ExecutableStage) -> (r: String)
    ensures
        r@ == source_id(stage.id@),
{
    join2(stage.id.as_str(), "/source")
}

pub fn stage_sink_transform_id(stage: &ExecutableStage, pcollection_id: &str) -> (r: String)
    ensures
        r@ == sink_id(stage.id@, pcollection_id@),
{
    join3(stage.id.as_str(), "/sink/", pcollection_id)
}

pub fn global_window_coder_id(stage: &ExecutableStage) -> (r: String)
    ensures
        r@ == window_id(stage.id@),
{
    join2(stage.id.as_str(), "/global_window")
}

pub fn windowed_value_coder_id(stage: &ExecutableStage, pcollection_id: &str) -> (r: String)
    ensures
        r@ == windowed_id(stage.id@, pcollection_id@),
{
    join3(stage.id.as_str(), "/windowed_value/", pcollection_id)
}

/// The collection that an edge carries. There must be an edge.
pub fn metadata_pcollection_id(metadata: Option<&ConsumerMetaData>) -> (r: String)
    requires
        metadata is Some,
    ensures
        r@ == metadata->0.produced_pcol_id@,
{
    match metadata {
        Some(m) => m.produced_pcol_id.clone(),
        None => String::new(),
    }
}

/// Where a transform of the runner puts its elements: into the collection that the edge
/// out of it carries; without an edge, into one of its outputs.
pub fn runner_output_pcollection_id(
    runner_transform: &FlareRunnerTransform,
    output_metadata: Option<&ConsumerMetaData>,
) -> (r: String)
    requires
        runner_transform.wf(),
        output_metadata is Some || exists|p: Seq<char>|
            has_value(runner_transform.model().parts.outputs, p),
    ensures
        match output_metadata {
            Some(m) => r@ == m.produced_pcol_id@,
            None => has_value(runner_transform.model().parts.outputs, r@),
        },
{
    match output_metadata {
        Some(m) => m.produced_pcol_id.clone(),
        None => {
            let ids: Vec<String> = runner_transform.output_pcol_ids();
            proof {
                let p = choose|p: Seq<char>| has_value(runner_transform.model().parts.outputs, p);
                assert(texts(ids@).contains(p));
                assert(texts(ids@)[0] == ids@[0]@);
                assert(texts(ids@).contains(ids@[0]@));
            }
            ids[0].clone()
        },
    }
}

/// The transform that consumes what a transform of the runner gives out, by the edge out
/// of it or else by the edge into it. There must be one of the two.
pub fn runner_consumer_transform_id(
    input_metadata: Option<&ConsumerMetaData>,
    output_metadata: Option<&ConsumerMetaData>,
) -> (r: String)
    requires
        input_metadata is Some || output_metadata is Some,
    ensures
        r@ == (match output_metadata {
            Some(m) => m.consumer_transfrom_id@,
            None => input_metadata->0.consumer_transfrom_id@,
        }),
{
    match output_metadata {
        Some(m) => m.consumer_transfrom_id.clone(),
        None => match input_metadata {
            Some(m) => m.consumer_transfrom_id.clone(),
            None => String::new(),
        },
    }
}

// ---------------------------------------------------------------------------
// Coders at the edges of a stage
// ---------------------------------------------------------------------------
/// The coder of the global window.
pub open spec fn window_coder() -> CoderV {
    CoderV {
        spec: Some(SpecV { urn: urns::GLOBAL_WINDOW_CODER@, payload: seq![] }),
        component_coder_ids: seq![],
    }
}

/// The coder of elements in their windows.
pub open spec fn windowed_coder(element: Seq<char>, window: Seq<char>) -> CoderV {
    CoderV {
        spec: Some(SpecV { urn: urns::WINDOWED_VALUE_CODER@, payload: seq![] }),
        component_coder_ids: seq![element, window],
    }
}

/// The coders with one more for elements in their windows.
pub open spec fn with_windowed(
    coders: Map<Seq<char>, CoderV>,
    windowed: Seq<char>,
    element: Seq<char>,
    window: Seq<char>,
) -> Map<Seq<char>, CoderV> {
    let with_window = if coders.contains_key(window) {
        coders
    } else {
        coders.insert(window, window_coder())
    };
    with_window.insert(windowed, windowed_coder(element, window))
}

/// Adds the coder of elements in their windows, and that of the window where it is not
/// there yet.
pub fn insert_windowed_value_coder(
    coders: &mut NamedMap<Coder>,
    windowed_value_coder_id: String,
    element_coder_id: String,
    global_window_coder_id: String,
)
    requires
        old(coders).wf(),
    ensures
        final(coders).wf(),
        coder_map(*final(coders)) == with_windowed(
            coder_map(*old(coders)),
            windowed_value_coder_id@,
            element_coder_id@,
            global_window_coder_id@,
        ),
{
    let ghost before = coder_map(*coders);
    if !coders.contains_key(global_window_coder_id.as_str()) {
        let coder = Coder {
            spec: Some(
                FunctionSpec { urn: urns::GLOBAL_WINDOW_CODER.to_owned(), payload: Vec::new() },
            ),
            component_coder_ids: Vec::new(),
        };
        assert(coder.model() =~= window_coder());
        coders.insert(global_window_coder_id.clone(), coder);
        assert(coder_map(*coders) =~= before.insert(global_window_coder_id@, window_coder()));
    }
    let ghost mid = coder_map(*coders);
    let mut components: Vec<String> = Vec::new();
    let ghost (element, window) = (element_coder_id@, global_window_coder_id@);
    components.push(element_coder_id);
    components.push(global_window_coder_id);
    let coder = Coder {
        spec: Some(
            FunctionSpec { urn: urns::WINDOWED_VALUE_CODER.to_owned(), payload: Vec::new() },
        ),
        component_coder_ids: components,
    };
    assert(texts(coder.component_coder_ids@) =~= seq![element, window]);
    assert(coder.model() =~= windowed_coder(element, window));
    coders.insert(windowed_value_coder_id, coder);
    assert(coder_map(*coders) =~= mid.insert(
        windowed_value_coder_id@,
        windowed_coder(element, window),
    ));
}

/// The coders with those of some collections at the edge of a stage.
pub open spec fn with_edges(
    coders: Map<Seq<char>, CoderV>,
    stage: Seq<char>,
    pcols: Seq<PCollectionNode>,
) -> Map<Seq<char>, CoderV>
    decreases pcols.len(),
{
    if pcols.len() == 0 {
        coders
    } else {
        with_windowed(
            with_edges(coders, stage, pcols.drop_last()),
            windowed_id(stage, pcols.last().id@),
            pcols.last().collection.coder_id@,
            window_id(stage),
        )
    }
}

/// The coders with those at the edges of a stage.
pub open spec fn with_stage_edges(
    coders: Map<Seq<char>, CoderV>,
    stage: ExecutableStage,
) -> Map<Seq<char>, CoderV> {
    with_edges(
        with_windowed(
            coders,
            windowed_id(stage.id@, stage.input_pcol.id@),
            stage.input_pcol.collection.coder_id@,
            window_id(stage.id@),
        ),
        stage.id@,
        stage.output_pcols@,
    )
}

/// Adds the coders of the elements that get into and out of a stage.
pub fn add_stage_data_boundary_coders(stage: &ExecutableStage, coders: &mut NamedMap<Coder>)
    requires
        old(coders).wf(),
    ensures
        final(coders).wf(),
        coder_map(*final(coders)) == with_stage_edges(coder_map(*old(coders)), *stage),
{
    let ghost start = coder_map(*coders);
    insert_windowed_value_coder(
        coders,
        windowed_value_coder_id(stage, stage.input_pcol.id.as_str()),
        stage.input_pcol.collection.coder_id.clone(),
        global_window_coder_id(stage),
    );
    let ghost first = coder_map(*coders);
    let ghost outs = stage.output_pcols@;
    let n: usize = stage.output_pcols.len();
    let mut i: usize = 0;
    assert(outs.take(0) =~= seq![]);
    while i < n
        invariant
            outs == stage.output_pcols@,
            n == outs.len(),
            i <= n,
            coders.wf(),
            coder_map(*coders) == with_edges(first, stage.id@, outs.take(i as int)),
        decreases n - i,
    {
        proof {
            assert(outs.take(i + 1).drop_last() =~= outs.take(i as int));
            assert(outs.take(i + 1).last() == outs[i as int]);
        }
        insert_windowed_value_coder(
            coders,
            windowed_value_coder_id(stage, stage.output_pcols[i].id.as_str()),
            stage.output_pcols[i].collection.coder_id.clone(),
            global_window_coder_id(stage),
        );
        i = i + 1;
    }
    assert(outs.take(n as int) =~= outs);
}

// ---------------------------------------------------------------------------
// Transforms at the edges of a stage
// ---------------------------------------------------------------------------
/// Where elements are sent to, and by which coder they are written.
#[derive(Debug)]
pub struct RemoteGrpcPort {
    pub url: String,
    pub coder_id: String,
}

pub fn remote_grpc_port(url: &str, coder_id: String) -> (r: RemoteGrpcPort)
    ensures
        r.url@ == url@,
        r.coder_id == coder_id,
{
    RemoteGrpcPort { url: url.to_owned(), coder_id }
}

/// The protobuf form of a port.
pub uninterp spec fn port_bytes(url: Seq<char>, coder_id: Seq<char>) -> Seq<u8>;

/// `prost::Message::encode_to_vec` of a `RemoteGrpcPort` with this address, without
/// authentication, and this coder: the bytes are known by the two alone.
#[verifier::external_body]
fn encode_port(url: &str, coder_id: &str) -> (r: Vec<u8>)
    ensures
        r@ == port_bytes(url@, coder_id@),
{
    let endpoint = beam::ApiServiceDescriptor { url: url.to_string(), authentication: None };
    beam::RemoteGrpcPort {
        api_service_descriptor: Some(endpoint),
        coder_id: coder_id.to_string(),
    }.encode_to_vec()
}

impl RemoteGrpcPort {
    /// The port in its protobuf form.
    pub fn encode_to_vec(&self) -> (r: Vec<u8>)
        ensures
            r@ == port_bytes(self.url@, self.coder_id@),
    {
        encode_port(self.url.as_str(), self.coder_id.as_str())
    }
}

/// The transform by which elements get into a stage.
pub open spec fn source_transform(
    stage: Seq<char>,
    pcol: Seq<char>,
    url: Seq<char>,
) -> TransformV {
    TransformV {
        unique_name: source_id(stage),
        spec: Some(
            SpecV { urn: urns::BEAM_SOURCE@, payload: port_bytes(url, windowed_id(stage, pcol)) },
        ),
        subtransforms: seq![],
        inputs: Map::empty(),
        outputs: map!["local_output"@ => pcol],
        environment_id: seq![],
    }
}

/// The transform by which the elements of a collection get out of a stage.
pub open spec fn sink_transform(stage: Seq<char>, pcol: Seq<char>, url: Seq<char>) -> TransformV {
    TransformV {
        unique_name: sink_id(stage, pcol),
        spec: Some(
            SpecV { urn: urns::BEAM_SINK@, payload: port_bytes(url, windowed_id(stage, pcol)) },
        ),
        subtransforms: seq![],
        inputs: map!["local_input"@ => pcol],
        outputs: Map::empty(),
        environment_id: seq![],
    }
}

/// The transforms with the sinks of some collections.
pub open spec fn with_sinks(
    transforms: Map<Seq<char>, TransformV>,
    stage: Seq<char>,
    pcols: Seq<PCollectionNode>,
    url: Seq<char>,
) -> Map<Seq<char>, TransformV>
    decreases pcols.len(),
{
    if pcols.len() == 0 {
        transforms
    } else {
        with_sinks(transforms, stage, pcols.drop_last(), url).insert(
            sink_id(stage, pcols.last().id@),
            sink_transform(stage, pcols.last().id@, url),
        )
    }
}

/// The transforms of a stage with its source and its sinks.
pub open spec fn with_boundaries(stage: ExecutableStage, url: Seq<char>) -> Map<
    Seq<char>,
    TransformV,
> {
    with_sinks(
        map_of_nodes(stage.transforms@).insert(
            source_id(stage.id@),
            source_transform(stage.id@, stage.input_pcol.id@, url),
        ),
        stage.id@,
        stage.output_pcols@,
        url,
    )
}

/// A map of one entry.
fn one_entry(name: &str, value: &str) -> (r: NamedMap<String>)
    ensures
        r.wf(),
        text_map(r) == map![name@ => value@],
{
    let mut m: NamedMap<String> = NamedMap::new();
    m.insert(name.to_owned(), value.to_owned());
    assert(text_map(m) =~= map![name@ => value@]);
    m
}

/// The transforms of a stage, and those by which elements get into it and out of it:
/// these tell the worker where the stage begins and ends.
pub fn stage_transforms_with_data_boundaries(stage: &ExecutableStage, url: &str) -> (r: NamedMap<
    PTransform,
>)
    requires
        stage.wf(),
    ensures
        transforms_wf(r),
        transform_map(r) == with_boundaries(*stage, url@),
{
    let ghost id = stage.id@;
    let mut transforms: NamedMap<PTransform> = stage.ptmap();
    let none: NamedMap<String> = NamedMap::new();
    assert(text_map(none) =~= Map::<Seq<char>, Seq<char>>::empty());
    let port: RemoteGrpcPort = remote_grpc_port(
        url,
        windowed_value_coder_id(stage, stage.input_pcol.id.as_str()),
    );
    let source = PTransform {
        unique_name: stage_source_transform_id(stage),
        spec: Some(
            FunctionSpec { urn: urns::BEAM_SOURCE.to_owned(), payload: port.encode_to_vec() },
        ),
        subtransforms: Vec::new(),
        inputs: none,
        outputs: one_entry("local_output", stage.input_pcol.id.as_str()),
        environment_id: String::new(),
    };
    assert(source.model() =~= source_transform(id, stage.input_pcol.id@, url@));
    insert_transform(&mut transforms, stage_source_transform_id(stage), source);
    let ghost first = transform_map(transforms);
    let ghost outs = stage.output_pcols@;
    let n: usize = stage.output_pcols.len();
    let mut i: usize = 0;
    assert(outs.take(0) =~= seq![]);
    while i < n
        invariant
            stage.wf(),
            id == stage.id@,
            outs == stage.output_pcols@,
            n == outs.len(),
            i <= n,
            transforms_wf(transforms),
            transform_map(transforms) == with_sinks(first, id, outs.take(i as int), url@),
        decreases n - i,
    {
        let pcol: &str = stage.output_pcols[i].id.as_str();
        let none: NamedMap<String> = NamedMap::new();
        assert(text_map(none) =~= Map::<Seq<char>, Seq<char>>::empty());
        let port: RemoteGrpcPort = remote_grpc_port(url, windowed_value_coder_id(stage, pcol));
        let sink = PTransform {
            unique_name: stage_sink_transform_id(stage, pcol),
            spec: Some(
                FunctionSpec { urn: urns::BEAM_SINK.to_owned(), payload: port.encode_to_vec() },
            ),
            subtransforms: Vec::new(),
            inputs: one_entry("local_input", pcol),
            outputs: none,
            environment_id: String::new(),
        };
        proof {
            assert(sink.model() =~= sink_transform(id, pcol@, url@));
            assert(outs.take(i + 1).drop_last() =~= outs.take(i as int));
            assert(outs.take(i + 1).last() == outs[i as int]);
        }
        insert_transform(&mut transforms, stage_sink_transform_id(stage, pcol), sink);
        i = i + 1;
    }
    assert(outs.take(n as int) =~= outs);
    transforms
}

/// What a worker is told of a stage.
#[derive(Debug)]
pub struct ProcessBundleDescriptor {
    pub id: String,
    pub transforms: NamedMap<PTransform>,
    pub pcollections: NamedMap<PCollection>,
    pub windowing_strategies: NamedMap<WindowingStrategy>,
    pub coders: NamedMap<Coder>,
    pub environments: NamedMap<Environment>,
    /// Where states and timers are asked for.
    pub url: String,
}

/// Whether this is what a worker is told of the stage: its transforms with their
/// boundaries, its collections, its coders with those at the edges.
pub open spec fn describes(d: ProcessBundleDescriptor, stage: ExecutableStage) -> bool {
    &&& d.id@ == stage.id@
    &&& d.url@ == DEFAULT_API_SERVICE_URL@
    &&& transforms_wf(d.transforms)
    &&& transform_map(d.transforms) == with_boundaries(stage, DEFAULT_API_SERVICE_URL@)
    &&& d.pcollections.wf()
    &&& pcollection_map(d.pcollections) == stage.components.model().pcollections
    &&& d.windowing_strategies.wf()
    &&& strategy_map(d.windowing_strategies) == stage.components.model().windowing_strategies
    &&& d.coders.wf()
    &&& coder_map(d.coders) == with_stage_edges(stage.components.model().coders, stage)
    &&& d.environments.wf()
    &&& environment_map(d.environments) == stage.components.model().environments
}

/// What a worker is told of a stage.
pub fn bundle_descriptor(stage: &ExecutableStage) -> (r: ProcessBundleDescriptor)
    requires
        stage.wf(),
    ensures
        describes(r, *stage),
{
    let transforms: NamedMap<PTransform> = stage_transforms_with_data_boundaries(
        stage,
        DEFAULT_API_SERVICE_URL,
    );
    let mut coders: NamedMap<Coder> = duplicate_coders(&stage.components.coders);
    add_stage_data_boundary_coders(stage, &mut coders);
    ProcessBundleDescriptor {
        id: stage.id.clone(),
        transforms,
        pcollections: duplicate_pcollections(&stage.components.pcollections),
        windowing_strategies: duplicate_strategies(&stage.components.windowing_strategies),
        coders,
        environments: duplicate_environments(&stage.components.environments),
        url: DEFAULT_API_SERVICE_URL.to_owned(),
    }
}

// ---------------------------------------------------------------------------
// Laws
// ---------------------------------------------------------------------------
proof fn edges_stay(
    coders: Map<Seq<char>, CoderV>,
    stage: Seq<char>,
    pcols: Seq<PCollectionNode>,
    id: Seq<char>,
)
    requires
        coders.contains_key(id),
    ensures
        with_edges(coders, stage, pcols).contains_key(id),
    decreases pcols.len(),
{
    if pcols.len() > 0 {
        edges_stay(coders, stage, pcols.drop_last(), id);
    }
}

proof fn outputs_have_coders(
    coders: Map<Seq<char>, CoderV>,
    stage: Seq<char>,
    pcols: Seq<PCollectionNode>,
    p: Seq<char>,
)
    requires
        pcol_ids(pcols).contains(p),
    ensures
        with_edges(coders, stage, pcols).contains_key(windowed_id(stage, p)),
    decreases pcols.len(),
{
    let i = choose|i: int| 0 <= i < pcol_ids(pcols).len() && pcol_ids(pcols)[i] == p;
    if i < pcols.len() - 1 {
        assert(pcol_ids(pcols.drop_last())[i] == p);
        outputs_have_coders(coders, stage, pcols.drop_last(), p);
    } else {
        assert(pcols.last().id@ == p);
    }
}

/// The coders that the source and the sinks of a stage name are there, and so is that
/// of the window.
pub proof fn boundaries_have_coders(
    coders: Map<Seq<char>, CoderV>,
    stage: ExecutableStage,
    p: Seq<char>,
)
    requires
        p == stage.input_pcol.id@ || pcol_ids(stage.output_pcols@).contains(p),
    ensures
        with_stage_edges(coders, stage).contains_key(windowed_id(stage.id@, p)),
        with_stage_edges(coders, stage).contains_key(window_id(stage.id@)),
{
    let first = with_windowed(
        coders,
        windowed_id(stage.id@, stage.input_pcol.id@),
        stage.input_pcol.collection.coder_id@,
        window_id(stage.id@),
    );
    edges_stay(first, stage.id@, stage.output_pcols@, window_id(stage.id@));
    if p == stage.input_pcol.id@ {
        edges_stay(first, stage.id@, stage.output_pcols@, windowed_id(stage.id@, p));
    } else {
        outputs_have_coders(first, stage.id@, stage.output_pcols@, p);
    }
}

} // verus!
