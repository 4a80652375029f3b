use beam_model_rs::v1::RemoteGrpcPort as PortMessage;
use flaredb::coders::primitives::{
    BoolCoder, DoubleCoder, NullableCoder, StringUtf8Coder, TupleCoder, VarInt32Coder, VarIntCoder,
    WindowedValueCoder,
};
use flaredb::coders::StandardBeamCoders;
use flaredb::engine::building::can_build;
use flaredb::engine::dispatcher::{launch, next_step, DispatchStep};
use flaredb::engine::executor::{
    runner_plan, runner_registered, BundleEvent, BundleWait, OutputOutcome, RunnerStep, Waited,
    WorkerEvent, WorkerRun, WorkerStep,
};
use flaredb::engine::graph::{ConsumerMetaData, ExecutableGraph, ExecutableNode};
use flaredb::engine::harness::control::{
    bundle_outcome, register_outcome, ControlResponse, DelayedApplication, InstructionReply,
    ProcessBundleResponse, ReplyBody,
};
use flaredb::engine::harness::data::{
    DataChunk, DataKey, ElementKey, ElementStreamMultiplexer, TimerChunk, TimersKey,
};
use flaredb::engine::output::{
    encode_elements, is_streamable, OutputError, OutputStep, OutputStream,
};
use flaredb::engine::runtime::{bundle_descriptor, remote_grpc_port};
use flaredb::engine::scheduler::NodeScheduler;
use flaredb::engine::sdf::{
    encode_residuals, SplittableEvent, SplittablePlan, SplittableRun, SplittableStep,
};
use flaredb::fusion::stage::ExecutableStage;
use flaredb::jobservice::urns;
use flaredb::model::{
    Coder, Components, Environment, FunctionSpec, PCollection, PCollectionNode, PTransform,
    PTransformNode,
};
use flaredb::named::NamedMap;
use flaredb::store::record::{BeamKV, BeamRecord, PrimitiveValue, TupleValue};
use flaredb::transforms::flatten::Flatten;
use flaredb::transforms::from_urn;
use prost::Message;

fn number(v: i64) -> BeamRecord {
    BeamRecord::PRIMITIVE(PrimitiveValue::Int64(v))
}

fn int_coder() -> WindowedValueCoder {
    WindowedValueCoder::new(StandardBeamCoders::VarInt(VarIntCoder))
}

fn pcol(id: &str) -> PCollectionNode {
    PCollectionNode {
        id: id.to_string(),
        collection: PCollection {
            unique_name: id.to_string(),
            coder_id: "ints".to_string(),
            is_bounded: 1,
            windowing_strategy_id: String::new(),
        },
    }
}

fn named(name: &str, value: &str) -> NamedMap<String> {
    let mut map = NamedMap::new();
    map.insert(name.to_string(), value.to_string());
    map
}

/// A stage with one transform from one collection to another.
fn stage(input: &str, output: &str) -> ExecutableStage {
    let transform = PTransform {
        unique_name: "t".to_string(),
        spec: Some(FunctionSpec {
            urn: urns::PAR_DO_TRANSFORM.to_string(),
            payload: vec![],
        }),
        subtransforms: vec![],
        inputs: named("in", input),
        outputs: named("out", output),
        environment_id: "e".to_string(),
    };
    let mut components = Components::empty();
    components.transforms.insert("t".to_string(), transform.duplicate());
    components.pcollections.insert(input.to_string(), pcol(input).collection);
    components.pcollections.insert(output.to_string(), pcol(output).collection);
    components.coders.insert(
        "ints".to_string(),
        Coder {
            spec: Some(FunctionSpec {
                urn: urns::VARINT_CODER.to_string(),
                payload: vec![],
            }),
            component_coder_ids: vec![],
        },
    );
    ExecutableStage::from(
        components,
        Environment::new("env".to_string(), vec![]),
        vec![],
        pcol(input),
        vec![],
        vec![],
        vec![],
        vec![pcol(output)],
        vec![PTransformNode {
            id: "t".to_string(),
            transform,
        }],
    )
}

fn metadata(name: &str) -> ConsumerMetaData {
    ConsumerMetaData {
        producer_transform_id: format!("producer-{name}"),
        produced_pcol_id: format!("pcol-{name}"),
        coder_id: "ints".to_string(),
        component_coder: None,
        consumer_transfrom_id: format!("consumer-{name}"),
    }
}

fn success(residuals: Vec<DelayedApplication>) -> ControlResponse {
    ControlResponse::ProcessBundleSuccess(ProcessBundleResponse {
        residual_roots: residuals,
    })
}

// output

/// All that a stream hands out for some pieces, the last of which says so.
fn take_all(pieces: &[&[u8]], target: usize) -> Vec<Vec<BeamRecord>> {
    let mut stream = OutputStream::new(int_coder(), target);
    let mut out = Vec::new();
    for (i, piece) in pieces.iter().enumerate() {
        stream.push(&piece.to_vec(), i + 1 == pieces.len());
        loop {
            match stream.step() {
                OutputStep::Write(batch) => out.push(batch),
                OutputStep::NeedMore => break,
                OutputStep::Finished(rest) => {
                    out.push(rest);
                    return out;
                }
                OutputStep::Failed(e) => panic!("{e:?}"),
            }
        }
    }
    panic!("the stream did not end");
}

#[test]
fn elements_are_read_back_in_batches() {
    let elements: Vec<BeamRecord> = (0..5).map(number).collect();
    let wire = encode_elements(&int_coder(), elements.clone());
    let batches = take_all(&[&wire], 2);
    let sizes: Vec<usize> = batches.iter().map(|b| b.len()).collect();
    assert_eq!(sizes, vec![2, 2, 1]);
    assert_eq!(batches.concat(), elements);
}

#[test]
fn pieces_do_not_change_the_elements() {
    let elements: Vec<BeamRecord> = vec![number(1), number(300), number(-1)];
    let wire = encode_elements(&int_coder(), elements.clone());
    for cut in 0..wire.len() {
        let batches = take_all(&[&wire[..cut], &wire[cut..]], 10);
        assert_eq!(batches.concat(), elements, "cut at {cut}");
    }
}

#[test]
fn a_stream_that_ends_within_an_element_is_refused() {
    let wire = encode_elements(&int_coder(), vec![number(1)]);
    let mut stream = OutputStream::new(int_coder(), 10);
    stream.push(&wire[..wire.len() - 1].to_vec(), true);
    match stream.step() {
        OutputStep::Failed(e) => {
            assert!(matches!(e, OutputError::Leftover { .. }));
            let text = e.message().unwrap();
            let bytes = wire.len() - 1;
            assert_eq!(
                text,
                format!("decode panic with {bytes} leftover bytes after end of stream")
            );
        }
        other => panic!("expected a failure, got {other:?}"),
    }

    let mut stream = OutputStream::new(int_coder(), 10);
    stream.push(&wire[..3].to_vec(), false);
    assert!(matches!(stream.step(), OutputStep::NeedMore));
    stream.close();
    match stream.step() {
        OutputStep::Failed(OutputError::Undecoded { bytes, batched }) => {
            assert_eq!((bytes, batched), (3, 0));
        }
        other => panic!("expected a failure, got {other:?}"),
    }
}

#[test]
fn a_refusal_of_the_coder_ends_the_stream() {
    let coder = WindowedValueCoder::new(StandardBeamCoders::VarInt32(VarInt32Coder));
    let mut wire = encode_elements(&coder, vec![number(1)]);
    // a number that does not fit in 32 bits
    wire.pop();
    wire.extend([0x80, 0x80, 0x80, 0x80, 0x10]);
    let mut stream = OutputStream::new(coder, 10);
    stream.push(&wire, true);
    assert!(matches!(stream.step(), OutputStep::Failed(OutputError::Refused(_))));
}

#[test]
fn a_double_may_span_pieces() {
    let doubles = || {
        WindowedValueCoder::new(StandardBeamCoders::Kv(
            Box::new(StandardBeamCoders::VarInt(VarIntCoder)),
            Box::new(StandardBeamCoders::Double(DoubleCoder)),
        ))
    };
    let kv = |k: i64, v: f64| {
        BeamRecord::KV(BeamKV {
            key: PrimitiveValue::Int64(k),
            value: Box::new(BeamRecord::PRIMITIVE(PrimitiveValue::Float64(v.to_bits()))),
        })
    };
    let elements = vec![kv(1, 0.5), kv(2, -3.25)];
    let wire = encode_elements(&doubles(), elements.clone());
    for cut in 0..wire.len() {
        let mut stream = OutputStream::new(doubles(), 10);
        stream.push(&wire[..cut].to_vec(), false);
        assert!(matches!(stream.step(), OutputStep::NeedMore), "cut at {cut}");
        stream.push(&wire[cut..].to_vec(), true);
        match stream.step() {
            OutputStep::Finished(all) => assert_eq!(all, elements, "cut at {cut}"),
            other => panic!("cut at {cut}: {other:?}"),
        }
    }

    // behind the last piece it is refused
    let mut stream = OutputStream::new(doubles(), 10);
    stream.push(&wire[..wire.len() - 3].to_vec(), true);
    match stream.step() {
        OutputStep::Failed(OutputError::Refused(e)) => assert_eq!(
            e.message(),
            "Error while decoding: DoubleCoder: insufficient bytes"
        ),
        other => panic!("{other:?}"),
    }
    let mut stream = OutputStream::new(doubles(), 10);
    stream.push(&wire[..wire.len() - 3].to_vec(), false);
    assert!(matches!(stream.step(), OutputStep::NeedMore));
    stream.close();
    match stream.step() {
        OutputStep::Failed(OutputError::Undecoded { bytes, batched }) => {
            assert_eq!((bytes, batched), (wire.len() / 2 - 3, 1));
        }
        other => panic!("{other:?}"),
    }
}

// workers

#[test]
fn a_stage_is_registered_processed_and_finished() {
    let stage = stage("in", "out");
    let id = stage.id();
    let (mut run, descriptor) = WorkerRun::start(stage, Some(metadata("m")));
    assert_eq!(descriptor.id, id);
    match run.next(WorkerEvent::Registered(Ok(ControlResponse::BundleRegistered))) {
        WorkerStep::Process(bundle) => assert_eq!(bundle, id),
        other => panic!("{other:?}"),
    }
    match run.next(WorkerEvent::Started(Ok("7".to_string()))) {
        WorkerStep::Begin(input, Some(output)) => {
            assert_eq!(input.instruction_id, "7");
            assert_eq!(input.pcollection_id, "in");
            assert_eq!(input.coder_id, "ints");
            assert_eq!(output.key.instruction_id, "7");
            assert_eq!(output.metadata.produced_pcol_id, "pcol-m");
        }
        other => panic!("{other:?}"),
    }
    // the answer waits for the output
    let answered = run.next(WorkerEvent::Bundle(BundleEvent::Response(Ok(success(vec![])))));
    assert!(matches!(answered, WorkerStep::Wait));
    let decoded = run.next(WorkerEvent::Bundle(BundleEvent::Output(OutputOutcome::Done)));
    assert!(matches!(
        decoded,
        WorkerStep::Finish(Ok(ControlResponse::ProcessBundleSuccess(_)))
    ));
}

#[test]
fn a_stage_that_is_not_registered_is_an_error() {
    let (mut run, _) = WorkerRun::start(stage("in", "out"), None);
    match run.next(WorkerEvent::Registered(Ok(ControlResponse::BundleDone))) {
        WorkerStep::Finish(Ok(ControlResponse::ProcessBundleError(m))) => {
            assert_eq!(m, "Error wile registring bundle");
        }
        other => panic!("{other:?}"),
    }
    let (mut run, _) = WorkerRun::start(stage("in", "out"), None);
    match run.next(WorkerEvent::Registered(Err("gone".to_string()))) {
        WorkerStep::Finish(Err(m)) => assert_eq!(m, "Error while processing bundle gone"),
        other => panic!("{other:?}"),
    }
}

#[test]
fn a_bundle_that_takes_too_long_is_an_error() {
    for (output, text) in [
        (
            Some(metadata("m")),
            "timed out waiting for SDK bundle 7 output data and control response",
        ),
        (None, "timed out waiting for SDK bundle 7 control response"),
    ] {
        let (mut run, _) = WorkerRun::start(stage("in", "out"), output);
        run.next(WorkerEvent::Registered(Ok(ControlResponse::BundleRegistered)));
        run.next(WorkerEvent::Started(Ok("7".to_string())));
        match run.next(WorkerEvent::Bundle(BundleEvent::TimedOut)) {
            WorkerStep::Finish(Err(m)) => assert_eq!(m, text),
            other => panic!("{other:?}"),
        }
    }
}

#[test]
fn a_bundle_waits_for_both_ends() {
    let mut wait = BundleWait::new(true);
    assert!(matches!(wait.on(BundleEvent::Output(OutputOutcome::Done)), Waited::Pending));
    assert!(matches!(
        wait.on(BundleEvent::Response(Ok(success(vec![])))),
        Waited::Ready(Ok(_))
    ));
    let mut wait = BundleWait::new(true);
    match wait.on(BundleEvent::Output(OutputOutcome::Lost("panic".to_string()))) {
        Waited::Ready(Err(m)) => assert_eq!(m, "output decode task failed: panic"),
        other => panic!("{other:?}"),
    }
    let mut wait = BundleWait::new(false);
    assert!(matches!(
        wait.on(BundleEvent::Response(Ok(success(vec![])))),
        Waited::Ready(Ok(_))
    ));
}

#[test]
fn runner_transforms_are_described_and_registered() {
    let impulse = from_urn(
        urns::IMPULSE_TRANSFORM,
        "impulse".to_string(),
        NamedMap::new(),
        named("out", "p0"),
    );
    let plan = runner_plan(
        &impulse,
        &Some(metadata("root")),
        &Some(metadata("m")),
        &Components::empty(),
    );
    assert_eq!(plan.input_pcollection_id, "pcol-root");
    assert_eq!(plan.output_pcollection_id, "pcol-m");
    assert_eq!(plan.consumer_transfrom_id, "consumer-m");
    assert_eq!(plan.descriptor.transforms.len(), 1);

    let step = runner_registered(Ok(ControlResponse::BundleRegistered));
    assert!(matches!(step, RunnerStep::Execute));
    assert!(matches!(runner_registered(Ok(ControlResponse::BundleDone)), RunnerStep::Skip));
    assert!(matches!(runner_registered(Err("x".to_string())), RunnerStep::Fail(_)));
}

// splittable stages

fn residual(bytes: &[u8]) -> DelayedApplication {
    DelayedApplication {
        element: Some(bytes.to_vec()),
    }
}

#[test]
fn what_is_left_is_sent_again_until_nothing_is() {
    let plan = SplittablePlan {
        initialization_stage: stage("in", "mid"),
        process_stage: stage("mid", "out"),
    };
    let process_id = plan.process_stage.id();
    let (mut run, first) = SplittableRun::start(plan, None);
    assert!(matches!(first, SplittableStep::Register(_)));
    let registered = || SplittableEvent::Registered(Ok(ControlResponse::BundleRegistered));
    let started = |id: &str| SplittableEvent::Started(Ok(id.to_string()));
    let answered = |r: Vec<DelayedApplication>| {
        SplittableEvent::Bundle(BundleEvent::Response(Ok(success(r))))
    };
    assert!(matches!(run.next(registered()), SplittableStep::Process(_)));
    assert!(matches!(run.next(started("1")), SplittableStep::Initialize(_, _)));
    assert!(matches!(run.next(answered(vec![])), SplittableStep::Wait));
    let collected = SplittableEvent::Collected(Ok(vec![1, 2, 3]));
    assert!(matches!(run.next(collected), SplittableStep::Register(_)));
    match run.next(registered()) {
        SplittableStep::Process(id) => assert_eq!(id, process_id),
        other => panic!("{other:?}"),
    }
    match run.next(started("2")) {
        SplittableStep::Send { instruction_id, data, .. } => {
            assert_eq!(instruction_id, "2");
            assert_eq!(data, vec![1, 2, 3]);
        }
        other => panic!("{other:?}"),
    }
    let left = vec![residual(&[9]), residual(&[8, 7])];
    assert!(matches!(run.next(answered(left)), SplittableStep::Process(_)));
    match run.next(started("3")) {
        SplittableStep::Send { data, .. } => assert_eq!(data, vec![9, 8, 7]),
        other => panic!("{other:?}"),
    }
    assert!(matches!(
        run.next(answered(vec![])),
        SplittableStep::Finish(Ok(_))
    ));
}

#[test]
fn residuals_are_written_one_behind_the_other() {
    let none = DelayedApplication { element: None };
    assert_eq!(encode_residuals(&vec![residual(&[1]), none, residual(&[2, 3])]), vec![1, 2, 3]);
}

// descriptors

#[test]
fn a_port_is_the_message_of_its_parts() {
    let port = remote_grpc_port("127.0.0.1:8099", "c".to_string());
    let message = PortMessage::decode(port.encode_to_vec().as_slice()).unwrap();
    assert_eq!(message.coder_id, "c");
    assert_eq!(message.api_service_descriptor.unwrap().url, "127.0.0.1:8099");
}

#[test]
fn a_descriptor_has_the_edges_of_its_stage() {
    let stage = stage("in", "out");
    let descriptor = bundle_descriptor(&stage);
    assert_eq!(descriptor.id, stage.id());
    assert_eq!(descriptor.url, "127.0.0.1:8099");
    assert_eq!(descriptor.transforms.len(), 3);
    // every port of the edges has a coder that is described
    let mut ports = 0;
    for (_, transform) in &descriptor.transforms.entries {
        let spec = transform.spec.as_ref().unwrap();
        if spec.urn == urns::BEAM_SOURCE || spec.urn == urns::BEAM_SINK {
            let port = PortMessage::decode(spec.payload.as_slice()).unwrap();
            let coder = descriptor.coders.get(&port.coder_id).unwrap();
            assert_eq!(coder.spec.as_ref().unwrap().urn, urns::WINDOWED_VALUE_CODER);
            assert_eq!(coder.component_coder_ids[0], "ints");
            ports += 1;
        }
    }
    assert_eq!(ports, 2);
}

#[test]
fn a_first_stage_without_output_fails_once_its_input_is_sent() {
    let mut first = stage("in", "mid");
    first.output_pcols.clear();
    let plan = SplittablePlan {
        initialization_stage: first,
        process_stage: stage("mid", "out"),
    };
    let (mut run, _) = SplittableRun::start(plan, None);
    run.next(SplittableEvent::Registered(Ok(ControlResponse::BundleRegistered)));
    match run.next(SplittableEvent::Started(Ok("1".to_string()))) {
        SplittableStep::InitializeInVain(input, e) => {
            assert_eq!(input.instruction_id, "1");
            assert_eq!(input.pcollection_id, "in");
            assert_eq!(e, "SDF initialization stage missing output PCollection");
        }
        other => panic!("{other:?}"),
    }
}

// graphs

fn runner_node(id: &str, urn: &str, input: &str, output: &str) -> PTransformNode {
    PTransformNode {
        id: id.to_string(),
        transform: PTransform {
            unique_name: id.to_string(),
            spec: Some(FunctionSpec {
                urn: urn.to_string(),
                payload: Vec::new(),
            }),
            subtransforms: Vec::new(),
            inputs: named("in", input),
            outputs: named("out", output),
            environment_id: String::new(),
        },
    }
}

#[test]
fn an_edge_for_every_collection_that_is_filled_and_read() {
    let mut components = Components::empty();
    components
        .pcollections
        .insert("b".to_string(), pcol("b").collection);
    components.coders.insert(
        "ints".to_string(),
        Coder {
            spec: None,
            component_coder_ids: vec!["part".to_string()],
        },
    );
    let stages = vec![stage("a", "b"), stage("c", "d")];
    let runners = vec![runner_node("gbk", urns::GROUP_BY_KEY_TRANSFORM, "b", "c")];
    assert!(can_build(&stages, &runners));
    let graph = ExecutableGraph::from(&stages, &runners, &components);
    assert_eq!(graph.node_count(), 3);
    assert_eq!(graph.predecessors(2), vec![0]);
    assert_eq!(graph.predecessors(1), vec![2]);
    assert!(graph.predecessors(0).is_empty());
    let edge = graph.last_edge_into(2).unwrap();
    assert_eq!(edge.producer_transform_id, stages[0].id());
    assert_eq!(edge.produced_pcol_id, "b");
    assert_eq!(edge.coder_id, "ints");
    assert_eq!(edge.component_coder, Some(vec!["part".to_string()]));
    // a collection that the pipeline does not list has no coder
    let edge = graph.last_edge_into(1).unwrap();
    assert_eq!(edge.produced_pcol_id, "c");
    assert_eq!(edge.coder_id, "");
    assert_eq!(edge.component_coder, None);
    assert!(graph.last_edge_out_of(1).is_none());

    // one edge to each node that reads the collection, also from the node itself
    let stages = vec![stage("a", "b"), stage("b", "b"), stage("b", "d")];
    assert!(can_build(&stages, &vec![]));
    let graph = ExecutableGraph::from(&stages, &vec![], &components);
    assert_eq!(graph.predecessors(1), vec![1, 0]);
    assert_eq!(graph.predecessors(2), vec![1, 0]);

    let unknown = vec![runner_node("x", "beam:transform:unknown", "b", "c")];
    assert!(!can_build(&stages, &unknown));
}

// harness

fn reply(id: &str, error: &str, body: ReplyBody) -> InstructionReply {
    InstructionReply {
        instruction_id: id.to_string(),
        error: error.to_string(),
        body,
        shown: "Some(Split(..))".to_string(),
    }
}

#[test]
fn answers_are_held_against_what_was_asked() {
    let ok = register_outcome("1", reply("1", "", ReplyBody::Registered));
    assert!(matches!(ok, Ok(ControlResponse::BundleRegistered)));
    let e = register_outcome("1", reply("2", "", ReplyBody::Registered)).unwrap_err();
    assert_eq!(e, "register ack id mismatch: expected 1 got 2");
    let e = register_outcome("1", reply("1", "boom", ReplyBody::Other)).unwrap_err();
    assert_eq!(e, "register failed at worker: boom");
    let e = register_outcome("1", reply("1", "", ReplyBody::Other)).unwrap_err();
    assert_eq!(e, "unexpected register response: Some(Split(..))");
    let e = bundle_outcome("1", reply("1", "", ReplyBody::Registered)).unwrap_err();
    assert_eq!(e, "unexpected bundle response: Some(Split(..))");

    let body = ReplyBody::Processed(ProcessBundleResponse {
        residual_roots: vec![residual(&[5])],
    });
    match bundle_outcome("3", reply("3", "", body)) {
        Ok(ControlResponse::ProcessBundleSuccess(r)) => assert_eq!(r.residual_roots.len(), 1),
        other => panic!("{other:?}"),
    }
    let e = bundle_outcome("3", reply("4", "", ReplyBody::Registered)).unwrap_err();
    assert_eq!(e, "bundle response id mismatch: expected 3 got 4");
}

#[test]
fn every_key_has_its_stream() {
    let data = |i: &str, t: &str| {
        ElementKey::Data(DataKey {
            instruction_id: i.to_string(),
            transform_id: t.to_string(),
        })
    };
    let timers = |i: &str| {
        ElementKey::Timers(TimersKey {
            instruction_id: i.to_string(),
        })
    };
    let mut streams = ElementStreamMultiplexer::new();
    assert_eq!(streams.get_or_create_stream(data("1", "a")), (0, true));
    assert_eq!(streams.get_or_create_stream(data("1", "b")), (1, true));
    assert_eq!(streams.get_or_create_stream(timers("1")), (2, true));
    assert_eq!(streams.get_or_create_stream(data("1", "b")), (1, false));
    assert_eq!(streams.find(&timers("2")), None);
    streams.clear();
    assert_eq!(streams.find(&data("1", "a")), None);
}

// the graph

#[test]
fn ready_nodes_are_launched_with_their_edges() {
    let node = |name: &str| {
        ExecutableNode::Runner(from_urn(
            urns::IMPULSE_TRANSFORM,
            name.to_string(),
            NamedMap::new(),
            NamedMap::new(),
        ))
    };
    let mut graph = ExecutableGraph::new(metadata("root"), Components::empty());
    let a = graph.add_node(node("a"));
    let b = graph.add_node(node("b"));
    graph.add_edge(a, b, metadata("ab"));
    let mut scheduler = NodeScheduler::new(graph);

    let launches = launch(&mut scheduler);
    assert_eq!(launches.len(), 1);
    assert_eq!(launches[0].index, a);
    let input = launches[0].input_metadata.as_ref().unwrap();
    let output = launches[0].output_metadata.as_ref().unwrap();
    assert_eq!(input.produced_pcol_id, "pcol-root");
    assert_eq!(output.produced_pcol_id, "pcol-ab");
    assert_eq!(next_step(&scheduler, 1), DispatchStep::Wait);
    // nothing runs and nothing was completed
    assert_eq!(next_step(&scheduler, 0), DispatchStep::Deadlocked);
    scheduler.mark_complete(a);
    assert_eq!(launch(&mut scheduler)[0].index, b);
    scheduler.mark_complete(b);
    assert_eq!(next_step(&scheduler, 0), DispatchStep::Done);
}

#[test]
fn flatten_puts_its_inputs_together() {
    assert_eq!(
        Flatten::merge(vec![vec![number(1), number(2)], vec![], vec![number(3)]]),
        Some(vec![number(1), number(2), number(3)])
    );
    assert_eq!(Flatten::merge(vec![vec![], vec![]]), None);
}

#[test]
fn parts_of_a_message_go_to_their_streams() {
    fn chunk(instruction: &str, transform: &str) -> DataChunk {
        DataChunk {
            key: DataKey {
                instruction_id: instruction.to_string(),
                transform_id: transform.to_string(),
            },
            data: vec![1],
            is_last: false,
        }
    }
    let timers = vec![TimerChunk {
        key: TimersKey {
            instruction_id: "i1".to_string(),
        },
        transform_id: "t".to_string(),
        timer_family_id: "f".to_string(),
        timers: vec![],
        is_last: true,
    }];
    let mut streams = ElementStreamMultiplexer::new();
    let data = vec![chunk("i1", "a"), chunk("i1", "b"), chunk("i1", "a"), chunk("i2", "a")];
    assert_eq!(streams.route(&data, &timers), vec![0, 1, 0, 2, 3]);
    assert_eq!(streams.len(), 4);
    assert_eq!(streams.route(&vec![chunk("i2", "a"), chunk("i3", "a")], &timers), vec![2, 4, 3]);
}

#[test]
fn elements_that_a_coder_cannot_write_are_found() {
    let text = |s: &str| BeamRecord::PRIMITIVE(PrimitiveValue::String(s.to_string()));
    assert!(is_streamable(&int_coder(), &vec![number(1), number(2)]));
    assert!(!is_streamable(&int_coder(), &vec![number(1), text("two")]));

    let small = WindowedValueCoder::new(StandardBeamCoders::VarInt32(VarInt32Coder));
    assert!(is_streamable(&small, &vec![number(i32::MAX as i64)]));
    assert!(!is_streamable(&small, &vec![number(i32::MAX as i64 + 1)]));

    let pair = WindowedValueCoder::new(StandardBeamCoders::Kv(
        Box::new(StandardBeamCoders::StringUtf8(StringUtf8Coder)),
        Box::new(StandardBeamCoders::Nullable(NullableCoder::new(
            StandardBeamCoders::VarInt(VarIntCoder),
        ))),
    ));
    let kv = |value: BeamRecord| {
        BeamRecord::KV(BeamKV {
            key: PrimitiveValue::String("k".to_string()),
            value: Box::new(value),
        })
    };
    assert!(is_streamable(&pair, &vec![kv(number(1))]));
    assert!(is_streamable(&pair, &vec![kv(BeamRecord::PRIMITIVE(PrimitiveValue::Void))]));
    assert!(!is_streamable(&pair, &vec![kv(text("one"))]));

    let tuple = WindowedValueCoder::new(StandardBeamCoders::Tuple(TupleCoder::new(vec![
        StandardBeamCoders::Bool(BoolCoder),
        StandardBeamCoders::VarInt(VarIntCoder),
    ])));
    let both = |values: Vec<PrimitiveValue>| BeamRecord::TUPLE(TupleValue { values });
    assert!(is_streamable(
        &tuple,
        &vec![both(vec![PrimitiveValue::Bool(true), PrimitiveValue::Int64(1)])]
    ));
    assert!(!is_streamable(&tuple, &vec![both(vec![PrimitiveValue::Bool(true)])]));
}
