//! Executing one node of the graph: what is asked of the worker, and what its answers
//! lead to.
use crate::engine::graph::{ConsumerMetaData, MetaV};
use crate::engine::harness::control::ControlResponse;
use crate::engine::harness::data::DataKey;
use crate::engine::runtime::{
    bundle_descriptor, describes, metadata_pcollection_id, runner_consumer_transform_id,
    runner_output_pcollection_id, sink_id, source_id, stage_sink_transform_id,
    stage_source_transform_id, ProcessBundleDescriptor,
};
use crate::fusion::stage::ExecutableStage;
use crate::model::{
    coder_map, environment_map, pcollection_map, strategy_map, transform_map, CoderV, Components,
    EnvironmentV,
};
use crate::named::NamedMap;
use crate::text::{join2, join3};
use crate::transforms::{has_value, told, touches, FlareRunnerTransform};
use crate::DEFAULT_API_SERVICE_URL;
use vstd::prelude::*;
use vstd::string::*;

verus! {

// ---------------------------------------------------------------------------
// Waiting for a bundle
// ---------------------------------------------------------------------------
/// How far the output of a bundle is.
#[derive(Debug, Clone, Copy, PartialEq, Eq, Structural)]
pub enum OutputState {
    /// There is none to be decoded.
    Nothing,
    Decoding,
    Decoded,
}

/// What came of decoding the output of a bundle.
#[derive(Debug)]
pub enum OutputOutcome {
    Done,
    Failed(String),
    /// The one who decoded is gone.
    Lost(String),
}

/// What can happen while a bundle is being processed.
#[derive(Debug)]
pub enum BundleEvent {
    Response(Result<ControlResponse, String>),
    Output(OutputOutcome),
    TimedOut,
}

/// Where the waiting for a bundle stands.
#[derive(Debug)]
pub enum Waited {
    Pending,
    Ready(Result<ControlResponse, String>),
    TimedOut,
}

/// A bundle that is being processed: it is done when the worker has answered and its
/// output is decoded.
#[derive(Debug)]
pub struct BundleWait {
    pub output: OutputState,
    pub response: Option<ControlResponse>,
}

impl BundleWait {
    pub fn new(has_output: bool) -> (r: BundleWait)
        ensures
            r.response is None,
            r.output == (if has_output {
                OutputState::Decoding
            } else {
                OutputState::Nothing
            }),
    {
        BundleWait {
            output: if has_output {
                OutputState::Decoding
            } else {
                OutputState::Nothing
            },
            response: None,
        }
    }

    /// What an event leads to. A failure ends the waiting at once; an answer waits for
    /// the output, and the output for the answer.
    pub fn on(&mut self, event: BundleEvent) -> (r: Waited)
        ensures
            match event {
                BundleEvent::TimedOut => r is TimedOut,
                BundleEvent::Response(Err(e)) => r matches Waited::Ready(Err(m)) && m == e,
                BundleEvent::Response(Ok(a)) => if old(self).output == OutputState::Decoding {
                    r is Pending && final(self).response == Some(a) && final(self).output == old(self).output
                } else {
                    r matches Waited::Ready(Ok(x)) && x == a
                },
                BundleEvent::Output(OutputOutcome::Failed(e)) => r matches Waited::Ready(Err(m))
                    && m == e,
                BundleEvent::Output(OutputOutcome::Lost(e)) => r matches Waited::Ready(Err(m))
                    && m@ == "output decode task failed: "@ + e@,
                BundleEvent::Output(OutputOutcome::Done) => match old(self).response {
                    Some(a) => r matches Waited::Ready(Ok(x)) && x == a,
                    None => r is Pending && final(self).output == OutputState::Decoded && final(self).response is None,
                },
            },
    {
        match event {
            BundleEvent::TimedOut => Waited::TimedOut,
            BundleEvent::Response(Err(e)) => Waited::Ready(Err(e)),
            BundleEvent::Response(Ok(a)) => match self.output {
                OutputState::Decoding => {
                    self.response = Some(a);
                    Waited::Pending
                },
                _ => Waited::Ready(Ok(a)),
            },
            BundleEvent::Output(OutputOutcome::Failed(e)) => Waited::Ready(Err(e)),
            BundleEvent::Output(OutputOutcome::Lost(e)) => Waited::Ready(
                Err(join2("output decode task failed: ", e.as_str())),
            ),
            BundleEvent::Output(OutputOutcome::Done) => {
                let mut response: Option<ControlResponse> = None;
                std::mem::swap(&mut response, &mut self.response);
                match response {
                    Some(a) => Waited::Ready(Ok(a)),
                    None => {
                        self.output = OutputState::Decoded;
                        Waited::Pending
                    },
                }
            },
        }
    }
}

// ---------------------------------------------------------------------------
// Stages of a worker
// ---------------------------------------------------------------------------
/// The elements to be sent into a stage.
#[derive(Debug)]
pub struct InputTask {
    pub instruction_id: String,
    pub transform_id: String,
    pub pcollection_id: String,
    pub coder_id: String,
}

/// The elements to be taken out of a stage.
#[derive(Debug)]
pub struct OutputTask {
    pub key: DataKey,
    pub metadata: ConsumerMetaData,
}

/// Whether these are the elements of the stage's input.
pub open spec fn is_input(stage: ExecutableStage, instruction: Seq<char>, t: InputTask) -> bool {
    &&& t.instruction_id@ == instruction
    &&& t.transform_id@ == source_id(stage.id@)
    &&& t.pcollection_id@ == stage.input_pcol.id@
    &&& t.coder_id@ == stage.input_pcol.collection.coder_id@
}

/// Whether these are the elements that the edge out of the stage carries.
pub open spec fn is_output(
    stage: ExecutableStage,
    instruction: Seq<char>,
    m: Option<MetaV>,
    t: Option<OutputTask>,
) -> bool {
    match m {
        Some(meta) => t matches Some(t) && t.key.instruction_id@ == instruction
            && t.key.transform_id@ == sink_id(stage.id@, meta.pcol) && t.metadata.model() == meta,
        None => t is None,
    }
}

pub open spec fn meta_model(m: Option<ConsumerMetaData>) -> Option<MetaV> {
    match m {
        Some(m) => Some(m.model()),
        None => None,
    }
}

/// The elements of a stage's input.
pub fn input_task(stage: &ExecutableStage, instruction_id: &str) -> (r: InputTask)
    ensures
        is_input(*stage, instruction_id@, r),
{
    InputTask {
        instruction_id: instruction_id.to_owned(),
        transform_id: stage_source_transform_id(stage),
        pcollection_id: stage.input_pcol.id.clone(),
        coder_id: stage.input_pcol.collection.coder_id.clone(),
    }
}

/// The elements that the edge out of a stage carries, if there is one.
pub fn output_task(
    stage: &ExecutableStage,
    instruction_id: &str,
    metadata: &Option<ConsumerMetaData>,
) -> (r: Option<OutputTask>)
    ensures
        is_output(*stage, instruction_id@, meta_model(*metadata), r),
{
    match metadata {
        Some(m) => Some(
            OutputTask {
                key: DataKey {
                    instruction_id: instruction_id.to_owned(),
                    transform_id: stage_sink_transform_id(stage, m.produced_pcol_id.as_str()),
                },
                metadata: m.duplicate(),
            },
        ),
        None => None,
    }
}

/// How far the execution of a stage is.
#[derive(Debug)]
pub enum WorkerState {
    /// The worker was asked to register the stage.
    Registering,
    /// The worker was asked to process a bundle.
    Starting,
    Running { instruction_id: String, wait: BundleWait },
    Done,
}

/// What can happen to the execution of a stage.
#[derive(Debug)]
pub enum WorkerEvent {
    Registered(Result<ControlResponse, String>),
    Started(Result<String, String>),
    Bundle(BundleEvent),
}

/// What the execution of a stage does next.
#[derive(Debug)]
pub enum WorkerStep {
    /// Ask the worker to process a bundle of the stage with this id.
    Process(String),
    /// Send the input, and take the output.
    Begin(InputTask, Option<OutputTask>),
    Wait,
    Finish(Result<ControlResponse, String>),
}

/// The execution of a stage by a worker.
#[derive(Debug)]
pub struct WorkerRun {
    pub stage: ExecutableStage,
    pub output_metadata: Option<ConsumerMetaData>,
    pub state: WorkerState,
}

/// The error of a bundle that takes too long.
pub open spec fn timeout_text(
    what: Seq<char>,
    instruction: Seq<char>,
    has_output: bool,
) -> Seq<char> {
    what + instruction + (if has_output {
        " output data and control response"@
    } else {
        " control response"@
    })
}

pub fn timeout_message(what: &str, instruction_id: &str, has_output: bool) -> (r: String)
    ensures
        r@ == timeout_text(what@, instruction_id@, has_output),
{
    if has_output {
        join3(what, instruction_id, " output data and control response")
    } else {
        join3(what, instruction_id, " control response")
    }
}

/// What an event leads to.
pub open spec fn worker_steps(
    run: WorkerRun,
    event: WorkerEvent,
    after: WorkerRun,
    step: WorkerStep,
) -> bool {
    match (run.state, event) {
        (
            WorkerState::Registering,
            WorkerEvent::Registered(Ok(ControlResponse::BundleRegistered)),
        ) => after.state is Starting && (step matches WorkerStep::Process(id) && id@
            == run.stage.id@),
        (WorkerState::Registering, WorkerEvent::Registered(Ok(_))) => after.state is Done && (
        step matches WorkerStep::Finish(Ok(ControlResponse::ProcessBundleError(m))) && m@
            == "Error wile registring bundle"@),
        (WorkerState::Registering, WorkerEvent::Registered(Err(e))) => after.state is Done && (
        step matches WorkerStep::Finish(Err(m)) && m@ == "Error while processing bundle "@ + e@),
        (WorkerState::Starting, WorkerEvent::Started(Ok(id))) => (after.state
            matches WorkerState::Running { instruction_id, wait } && instruction_id@ == id@
            && wait.response is None && wait.output == (if run.output_metadata is Some {
            OutputState::Decoding
        } else {
            OutputState::Nothing
        })) && (step matches WorkerStep::Begin(input, output) && is_input(run.stage, id@, input)
            && is_output(run.stage, id@, meta_model(run.output_metadata), output)),
        (WorkerState::Starting, WorkerEvent::Started(Err(e))) => after.state is Done && (
        step matches WorkerStep::Finish(Err(m)) && m == e),
        (WorkerState::Running { instruction_id, wait }, WorkerEvent::Bundle(b)) => match b {
            BundleEvent::TimedOut => after.state is Done && (step matches WorkerStep::Finish(Err(m))
                && m@ == timeout_text(
                "timed out waiting for SDK bundle "@,
                instruction_id@,
                run.output_metadata is Some,
            )),
            BundleEvent::Response(Err(e)) => after.state is Done && (
            step matches WorkerStep::Finish(Err(m)) && m == e),
            BundleEvent::Response(Ok(a)) => if wait.output == OutputState::Decoding {
                step is Wait && (after.state matches WorkerState::Running {
                    instruction_id: id,
                    wait: w,
                } && id == instruction_id && w.response == Some(a) && w.output == wait.output)
            } else {
                after.state is Done && (step matches WorkerStep::Finish(Ok(x)) && x == a)
            },
            BundleEvent::Output(OutputOutcome::Failed(e)) => after.state is Done && (
            step matches WorkerStep::Finish(Err(m)) && m == e),
            BundleEvent::Output(OutputOutcome::Lost(e)) => after.state is Done && (
            step matches WorkerStep::Finish(Err(m)) && m@ == "output decode task failed: "@ + e@),
            BundleEvent::Output(OutputOutcome::Done) => match wait.response {
                Some(a) => after.state is Done && (step matches WorkerStep::Finish(Ok(x)) && x
                    == a),
                None => step is Wait && (after.state matches WorkerState::Running {
                    instruction_id: id,
                    wait: w,
                } && id == instruction_id && w.response is None && w.output
                    == OutputState::Decoded),
            },
        },
        _ => step is Wait && after.state == run.state,
    }
}

impl WorkerRun {
    /// Begins with the registration of the stage.
    pub fn start(stage: ExecutableStage, output_metadata: Option<ConsumerMetaData>) -> (r: (
        WorkerRun,
        ProcessBundleDescriptor,
    ))
        requires
            stage.wf(),
        ensures
            r.0.stage == stage,
            r.0.output_metadata == output_metadata,
            r.0.state is Registering,
            describes(r.1, stage),
    {
        let descriptor: ProcessBundleDescriptor = bundle_descriptor(&stage);
        (WorkerRun { stage, output_metadata, state: WorkerState::Registering }, descriptor)
    }

    /// Goes on after an event.
    pub fn next(&mut self, event: WorkerEvent) -> (r: WorkerStep)
        ensures
            final(self).stage == old(self).stage,
            final(self).output_metadata == old(self).output_metadata,
            worker_steps(*old(self), event, *final(self), r),
    {
        let mut state: WorkerState = WorkerState::Done;
        std::mem::swap(&mut state, &mut self.state);
        match (state, event) {
            (
                WorkerState::Registering,
                WorkerEvent::Registered(Ok(ControlResponse::BundleRegistered)),
            ) => {
                self.state = WorkerState::Starting;
                WorkerStep::Process(self.stage.id.clone())
            },
            (WorkerState::Registering, WorkerEvent::Registered(Ok(_))) => WorkerStep::Finish(
                Ok(ControlResponse::ProcessBundleError("Error wile registring bundle".to_owned())),
            ),
            (WorkerState::Registering, WorkerEvent::Registered(Err(e))) => WorkerStep::Finish(
                Err(join2("Error while processing bundle ", e.as_str())),
            ),
            (WorkerState::Starting, WorkerEvent::Started(Ok(id))) => {
                let input: InputTask = input_task(&self.stage, id.as_str());
                let output: Option<OutputTask> = output_task(
                    &self.stage,
                    id.as_str(),
                    &self.output_metadata,
                );
                let wait: BundleWait = BundleWait::new(self.output_metadata.is_some());
                self.state = WorkerState::Running { instruction_id: id, wait };
                WorkerStep::Begin(input, output)
            },
            (WorkerState::Starting, WorkerEvent::Started(Err(e))) => WorkerStep::Finish(Err(e)),
            (WorkerState::Running { instruction_id, wait }, WorkerEvent::Bundle(b)) => {
                let mut waiting: BundleWait = wait;
                match waiting.on(b) {
                    Waited::Pending => {
                        self.state = WorkerState::Running { instruction_id, wait: waiting };
                        WorkerStep::Wait
                    },
                    Waited::Ready(r) => WorkerStep::Finish(r),
                    Waited::TimedOut => WorkerStep::Finish(
                        Err(
                            timeout_message(
                                "timed out waiting for SDK bundle ",
                                instruction_id.as_str(),
                                self.output_metadata.is_some(),
                            ),
                        ),
                    ),
                }
            },
            (state, _) => {
                self.state = state;
                WorkerStep::Wait
            },
        }
    }
}

/// A stage with output never finishes well before its output is decoded, and none before
/// the worker has answered.
pub proof fn finished_is_decoded(
    run: WorkerRun,
    event: WorkerEvent,
    after: WorkerRun,
    step: WorkerStep,
)
    requires
        worker_steps(run, event, after, step),
        step matches WorkerStep::Finish(Ok(ControlResponse::ProcessBundleSuccess(_))),
    ensures
        run.state matches WorkerState::Running { wait, .. } && match event {
            WorkerEvent::Bundle(BundleEvent::Response(Ok(_))) => wait.output
                != OutputState::Decoding,
            WorkerEvent::Bundle(BundleEvent::Output(OutputOutcome::Done)) => wait.response is Some,
            _ => false,
        },
{
}

// ---------------------------------------------------------------------------
// Transforms of the runner
// ---------------------------------------------------------------------------
/// What a transform of the runner reads, fills and feeds.
#[derive(Debug)]
pub struct RunnerPlan {
    pub descriptor: ProcessBundleDescriptor,
    pub input_pcollection_id: String,
    pub output_pcollection_id: String,
    pub consumer_transfrom_id: String,
}

/// What follows the registration of a transform of the runner.
#[derive(Debug)]
pub enum RunnerStep {
    Execute,
    /// The worker does not know it; there is nothing to do.
    Skip,
    Fail(String),
}

/// What is done for a transform of the runner.
pub fn runner_plan(
    transform: &FlareRunnerTransform,
    input_metadata: &Option<ConsumerMetaData>,
    output_metadata: &Option<ConsumerMetaData>,
    components: &Components,
) -> (r: RunnerPlan)
    requires
        transform.wf(),
        components.wf(),
        input_metadata is Some,
        output_metadata is Some || exists|p: Seq<char>|
            has_value(transform.model().parts.outputs, p),
    ensures
        r.input_pcollection_id@ == input_metadata->0.produced_pcol_id@,
        match *output_metadata {
            Some(m) => r.output_pcollection_id@ == m.produced_pcol_id@ && r.consumer_transfrom_id@
                == m.consumer_transfrom_id@,
            None => has_value(transform.model().parts.outputs, r.output_pcollection_id@)
                && r.consumer_transfrom_id@ == input_metadata->0.consumer_transfrom_id@,
        },
        r.descriptor.id@ == transform.parts_of().id@,
        r.descriptor.url@ == DEFAULT_API_SERVICE_URL@,
        transform_map(r.descriptor.transforms) == map![
            transform.parts_of().id@ => told(transform.model().parts, transform.model().urn)
        ],
        forall|p: Seq<char>|
            #[trigger]
            pcollection_map(r.descriptor.pcollections).contains_key(p) <==> touches(
                transform.model().parts,
                p,
            ) && components.model().pcollections.contains_key(p),
        forall|p: Seq<char>|
            #[trigger]
            pcollection_map(r.descriptor.pcollections).contains_key(p) ==> pcollection_map(
                r.descriptor.pcollections,
            )[p] == components.model().pcollections[p],
        strategy_map(r.descriptor.windowing_strategies) == Map::<Seq<char>, Seq<char>>::empty(),
        coder_map(r.descriptor.coders) == Map::<Seq<char>, CoderV>::empty(),
        environment_map(r.descriptor.environments) == Map::<Seq<char>, EnvironmentV>::empty(),
{
    let descriptor = ProcessBundleDescriptor {
        id: transform.id(),
        transforms: transform.transfrom_spec(),
        pcollections: transform.pcollections(components),
        windowing_strategies: NamedMap::new(),
        coders: NamedMap::new(),
        environments: NamedMap::new(),
        url: DEFAULT_API_SERVICE_URL.to_owned(),
    };
    proof {
        assert(strategy_map(descriptor.windowing_strategies) =~= Map::<
            Seq<char>,
            Seq<char>,
        >::empty());
        assert(coder_map(descriptor.coders) =~= Map::<Seq<char>, CoderV>::empty());
        assert(environment_map(descriptor.environments) =~= Map::<Seq<char>, EnvironmentV>::empty());
    }
    RunnerPlan {
        descriptor,
        input_pcollection_id: metadata_pcollection_id(input_metadata.as_ref()),
        output_pcollection_id: runner_output_pcollection_id(transform, output_metadata.as_ref()),
        consumer_transfrom_id: runner_consumer_transform_id(
            input_metadata.as_ref(),
            output_metadata.as_ref(),
        ),
    }
}

/// What follows the registration of a transform of the runner.
pub fn runner_registered(response: Result<ControlResponse, String>) -> (r: RunnerStep)
    ensures
        match response {
            Ok(ControlResponse::BundleRegistered) => r is Execute,
            Ok(_) => r is Skip,
            Err(e) => r matches RunnerStep::Fail(m) && m@ == "Error while processing bundle "@ + e@,
        },
{
    match response {
        Ok(ControlResponse::BundleRegistered) => RunnerStep::Execute,
        Ok(_) => RunnerStep::Skip,
        Err(e) => RunnerStep::Fail(join2("Error while processing bundle ", e.as_str())),
    }
}

} // verus!
