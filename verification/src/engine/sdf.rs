//! Executing a splittable stage: first the elements are paired with what is to be done
//! of them, then this is processed until nothing is left.
use crate::engine::executor::{
    input_task, is_input, is_output, meta_model, output_task, timeout_message, timeout_text,
    BundleEvent, BundleWait, InputTask, OutputOutcome, OutputState, OutputTask, Waited,
};
use crate::engine::graph::ConsumerMetaData;
use crate::engine::harness::control::{ControlResponse, DelayedApplication, ProcessBundleResponse};
use crate::engine::harness::data::DataKey;
use crate::engine::runtime::{
    bundle_descriptor, describes, sink_id, source_id, stage_sink_transform_id,
    stage_source_transform_id, ProcessBundleDescriptor,
};
use crate::fusion::stage::ExecutableStage;
use crate::text::join2;
use vstd::prelude::*;
use vstd::string::*;

verus! {

/// The two stages of a splittable stage.
#[derive(Debug)]
pub struct SplittablePlan {
    pub initialization_stage: ExecutableStage,
    pub process_stage: ExecutableStage,
}

/// What is left to be done, one element behind the other; what has no element is left
/// out.
pub open spec fn residual_bytes(s: Seq<DelayedApplication>) -> Seq<u8>
    decreases s.len(),
{
    if s.len() == 0 {
        seq![]
    } else {
        residual_bytes(s.drop_last()) + (match s.last().element {
            Some(e) => e@,
            None => seq![],
        })
    }
}

/// The elements of what is left to be done.
pub fn encode_residuals(residuals: &Vec<DelayedApplication>) -> (r: Vec<u8>)
    ensures
        r@ == residual_bytes(residuals@),
{
    let ghost all = residuals@;
    let n: usize = residuals.len();
    let mut out: Vec<u8> = Vec::new();
    let mut i: usize = 0;
    assert(all.take(0) =~= seq![]);
    while i < n
        invariant
            all == residuals@,
            n == all.len(),
            i <= n,
            out@ == residual_bytes(all.take(i as int)),
        decreases n - i,
    {
        let ghost before = out@;
        proof {
            assert(all.take(i + 1).drop_last() =~= all.take(i as int));
            assert(all.take(i + 1).last() == all[i as int]);
        }
        match &residuals[i].element {
            Some(e) => {
                let mut more: Vec<u8> = e.clone();
                assert(more@ =~= e@);
                out.append(&mut more);
            },
            None => {
                assert(before + Seq::<u8>::empty() =~= before);
            },
        }
        i = i + 1;
    }
    assert(all.take(n as int) =~= all);
    out
}

/// What is sent into the process stage first, or next.
pub open spec fn next_input(captured: Seq<u8>, pending: Option<Vec<DelayedApplication>>) -> Seq<
    u8,
> {
    match pending {
        None => captured,
        Some(r) => residual_bytes(r@),
    }
}

/// How far the execution is.
#[derive(Debug)]
pub enum SplittableState {
    /// The worker was asked to register the first stage.
    RegisteringInitialization,
    StartingInitialization,
    /// The first stage runs; its output is collected.
    Initializing { response: Option<ControlResponse>, collected: Option<Vec<u8>> },
    /// The worker was asked to register the second stage.
    RegisteringProcess,
    /// The worker was asked to process a bundle of the second stage, with what was
    /// collected or with what was left.
    StartingProcess { pending: Option<Vec<DelayedApplication>> },
    Processing { instruction_id: String, wait: BundleWait },
    Done,
}

/// What can happen to the execution.
#[derive(Debug)]
pub enum SplittableEvent {
    Registered(Result<ControlResponse, String>),
    Started(Result<String, String>),
    /// The bytes of the first stage's output, or why they were not collected.
    Collected(Result<Vec<u8>, String>),
    Bundle(BundleEvent),
}

/// What the execution does next.
#[derive(Debug)]
pub enum SplittableStep {
    Register(ProcessBundleDescriptor),
    /// Ask the worker to process a bundle of the stage with this id.
    Process(String),
    /// Send the input of the first stage, and collect the output under this key.
    Initialize(InputTask, DataKey),
    /// Send the input of the first stage, and end with this error: it gives out nothing.
    InitializeInVain(InputTask, String),
    /// Send these bytes to this transform under this instruction, and take the output.
    Send { instruction_id: String, transform_id: String, data: Vec<u8>, output: Option<OutputTask> },
    Wait,
    Finish(Result<ControlResponse, String>),
}

/// The execution of a splittable stage.
#[derive(Debug)]
pub struct SplittableRun {
    pub plan: SplittablePlan,
    pub output_metadata: Option<ConsumerMetaData>,
    pub captured: Vec<u8>,
    pub state: SplittableState,
}

/// What is said of an answer of a kind that was not expected.
pub open spec fn kind_text(r: ControlResponse) -> Seq<char> {
    match r {
        ControlResponse::BundleRegistered => "Discriminant(0)"@,
        ControlResponse::ProcessBundleSuccess(_) => "Discriminant(1)"@,
        ControlResponse::ProcessBundleError(_) => "Discriminant(2)"@,
        ControlResponse::BundleDone => "Discriminant(3)"@,
    }
}

fn kind_of(r: &ControlResponse) -> (t: &'static str)
    ensures
        t@ == kind_text(*r),
{
    match r {
        ControlResponse::BundleRegistered => "Discriminant(0)",
        ControlResponse::ProcessBundleSuccess(_) => "Discriminant(1)",
        ControlResponse::ProcessBundleError(_) => "Discriminant(2)",
        ControlResponse::BundleDone => "Discriminant(3)",
    }
}

/// Whether the step is a failure with this text.
pub open spec fn fails(step: SplittableStep, text: Seq<char>) -> bool {
    step matches SplittableStep::Finish(Err(m)) && m@ == text
}

/// Whether the step is the registration of a stage.
pub open spec fn registers(step: SplittableStep, stage: ExecutableStage) -> bool {
    step matches SplittableStep::Register(d) && describes(d, stage)
}

/// What follows when the first stage has answered and its output is collected.
pub open spec fn initialized(
    run: SplittableRun,
    response: ControlResponse,
    collected: Vec<u8>,
    after: SplittableRun,
    step: SplittableStep,
) -> bool {
    match response {
        ControlResponse::ProcessBundleSuccess(_) => after.state is RegisteringProcess
            && after.captured == collected && registers(step, run.plan.process_stage),
        ControlResponse::ProcessBundleError(e) => after.state is Done && fails(
            step,
            "SDF initialization stage failed: "@ + e@,
        ),
        other => after.state is Done && fails(
            step,
            "unexpected control response for SDF initialization stage: "@ + kind_text(other),
        ),
    }
}

/// What follows when a bundle of the second stage is done: the end, where nothing is
/// left; else the next bundle.
pub open spec fn processed(
    run: SplittableRun,
    response: ControlResponse,
    after: SplittableRun,
    step: SplittableStep,
) -> bool {
    match response {
        ControlResponse::ProcessBundleSuccess(s) => if s.residual_roots@.len() == 0 {
            after.state is Done && (step matches SplittableStep::Finish(
                Ok(ControlResponse::ProcessBundleSuccess(t)),
            ) && t == s)
        } else {
            (after.state matches SplittableState::StartingProcess { pending } && pending == Some(
                s.residual_roots,
            )) && (step matches SplittableStep::Process(id) && id@ == run.plan.process_stage.id@)
        },
        ControlResponse::ProcessBundleError(e) => after.state is Done && fails(
            step,
            "SDF process bundle failed: "@ + e@,
        ),
        other => after.state is Done && fails(
            step,
            "unexpected control response for SDF process bundle: "@ + kind_text(other),
        ),
    }
}

/// What an event leads to.
pub open spec fn splittable_steps(
    run: SplittableRun,
    event: SplittableEvent,
    after: SplittableRun,
    step: SplittableStep,
) -> bool {
    let init = run.plan.initialization_stage;
    let process = run.plan.process_stage;
    match (run.state, event) {
        (
            SplittableState::RegisteringInitialization,
            SplittableEvent::Registered(r),
        ) => match r {
            Ok(ControlResponse::BundleRegistered) => after.state is StartingInitialization && (
            step matches SplittableStep::Process(id) && id@ == init.id@),
            Ok(_) => after.state is Done && fails(
                step,
                "failed to register SDF initialization bundle "@ + init.id@,
            ),
            Err(e) => after.state is Done && fails(step, e@),
        },
        (SplittableState::StartingInitialization, SplittableEvent::Started(r)) => match r {
            Ok(id) => if init.output_pcols@.len() == 0 {
                after.state is Done && (step matches SplittableStep::InitializeInVain(input, e)
                    && is_input(init, id@, input) && e@
                    == "SDF initialization stage missing output PCollection"@)
            } else {
                (after.state matches SplittableState::Initializing { response, collected }
                    && response is None && collected is None) && (
                step matches SplittableStep::Initialize(input, key) && is_input(init, id@, input)
                    && key.instruction_id@ == id@ && key.transform_id@ == sink_id(
                    init.id@,
                    init.output_pcols@[0].id@,
                ))
            },
            Err(e) => after.state is Done && fails(step, e@),
        },
        (
            SplittableState::Initializing { response, collected },
            SplittableEvent::Bundle(BundleEvent::Response(r)),
        ) => match r {
            Ok(a) => match collected {
                Some(b) => initialized(run, a, b, after, step),
                None => step is Wait && (after.state matches SplittableState::Initializing {
                    response: x,
                    collected: y,
                } && x == Some(a) && y is None),
            },
            Err(e) => after.state is Done && fails(step, e@),
        },
        (
            SplittableState::Initializing { response, collected },
            SplittableEvent::Collected(r),
        ) => match r {
            Ok(b) => match response {
                Some(a) => initialized(run, a, b, after, step),
                None => step is Wait && (after.state matches SplittableState::Initializing {
                    response: x,
                    collected: y,
                } && x is None && y == Some(b)),
            },
            Err(e) => after.state is Done && fails(
                step,
                "initialization collect task failed: "@ + e@,
            ),
        },
        (
            SplittableState::Initializing { response, collected },
            SplittableEvent::Bundle(BundleEvent::TimedOut),
        ) => after.state is Done && fails(
            step,
            "timed out waiting for SDF initialization stage control response/data"@,
        ),
        (SplittableState::RegisteringProcess, SplittableEvent::Registered(r)) => match r {
            Ok(ControlResponse::BundleRegistered) => (after.state
                matches SplittableState::StartingProcess { pending } && pending is None) && (
            step matches SplittableStep::Process(id) && id@ == process.id@),
            Ok(_) => after.state is Done && fails(
                step,
                "failed to register SDF process bundle "@ + process.id@,
            ),
            Err(e) => after.state is Done && fails(step, e@),
        },
        (
            SplittableState::StartingProcess { pending },
            SplittableEvent::Started(r),
        ) => match r {
            Ok(id) => (after.state matches SplittableState::Processing { instruction_id, wait }
                && instruction_id@ == id@ && wait.response is None && wait.output == (
            if run.output_metadata is Some {
                OutputState::Decoding
            } else {
                OutputState::Nothing
            })) && (step matches SplittableStep::Send {
                instruction_id,
                transform_id,
                data,
                output,
            } && instruction_id@ == id@ && transform_id@ == source_id(process.id@) && data@
                == next_input(run.captured@, pending) && is_output(
                process,
                id@,
                meta_model(run.output_metadata),
                output,
            )),
            Err(e) => after.state is Done && fails(step, e@),
        },
        (
            SplittableState::Processing { instruction_id, wait },
            SplittableEvent::Bundle(b),
        ) => match b {
            BundleEvent::TimedOut => after.state is Done && fails(
                step,
                timeout_text(
                    "timed out waiting for SDF process bundle "@,
                    instruction_id@,
                    run.output_metadata is Some,
                ),
            ),
            BundleEvent::Response(Err(e)) => after.state is Done && fails(step, e@),
            BundleEvent::Response(Ok(a)) => if wait.output == OutputState::Decoding {
                step is Wait && (after.state matches SplittableState::Processing {
                    instruction_id: id,
                    wait: w,
                } && id == instruction_id && w.response == Some(a) && w.output == wait.output)
            } else {
                processed(run, a, after, step)
            },
            BundleEvent::Output(OutputOutcome::Failed(e)) => after.state is Done && fails(step, e@),
            BundleEvent::Output(OutputOutcome::Lost(e)) => after.state is Done && fails(
                step,
                "output decode task failed: "@ + e@,
            ),
            BundleEvent::Output(OutputOutcome::Done) => match wait.response {
                Some(a) => processed(run, a, after, step),
                None => step is Wait && (after.state matches SplittableState::Processing {
                    instruction_id: id,
                    wait: w,
                } && id == instruction_id && w.response is None && w.output
                    == OutputState::Decoded),
            },
        },
        _ => step is Wait && after.state == run.state,
    }
}

impl SplittableRun {
    pub open spec fn wf(self) -> bool {
        self.plan.initialization_stage.wf() && self.plan.process_stage.wf()
    }

    /// Begins with the registration of the first stage.
    pub fn start(plan: SplittablePlan, output_metadata: Option<ConsumerMetaData>) -> (r: (
        SplittableRun,
        SplittableStep,
    ))
        requires
            plan.initialization_stage.wf(),
            plan.process_stage.wf(),
        ensures
            r.0.wf(),
            r.0.plan == plan,
            r.0.output_metadata == output_metadata,
            r.0.state is RegisteringInitialization,
            registers(r.1, plan.initialization_stage),
    {
        let descriptor: ProcessBundleDescriptor = bundle_descriptor(&plan.initialization_stage);
        let run = SplittableRun {
            plan,
            output_metadata,
            captured: Vec::new(),
            state: SplittableState::RegisteringInitialization,
        };
        (run, SplittableStep::Register(descriptor))
    }

    /// The first stage has answered and its output is collected.
    fn finish_initialization(&mut self, response: ControlResponse, collected: Vec<u8>) -> (r:
        SplittableStep)
        requires
            old(self).wf(),
            old(self).state is Done,
        ensures
            final(self).plan == old(self).plan,
            final(self).output_metadata == old(self).output_metadata,
            initialized(*old(self), response, collected, *final(self), r),
            !(final(self).state is RegisteringProcess) ==> final(self).captured == old(self).captured,
    {
        match response {
            ControlResponse::ProcessBundleSuccess(_) => {
                self.captured = collected;
                self.state = SplittableState::RegisteringProcess;
                SplittableStep::Register(bundle_descriptor(&self.plan.process_stage))
            },
            ControlResponse::ProcessBundleError(e) => SplittableStep::Finish(
                Err(join2("SDF initialization stage failed: ", e.as_str())),
            ),
            other => SplittableStep::Finish(
                Err(
                    join2(
                        "unexpected control response for SDF initialization stage: ",
                        kind_of(&other),
                    ),
                ),
            ),
        }
    }

    /// A bundle of the second stage is done.
    fn finish_bundle(&mut self, response: ControlResponse) -> (r: SplittableStep)
        requires
            old(self).wf(),
            old(self).state is Done,
        ensures
            final(self).plan == old(self).plan,
            final(self).output_metadata == old(self).output_metadata,
            final(self).captured == old(self).captured,
            processed(*old(self), response, *final(self), r),
    {
        match response {
            ControlResponse::ProcessBundleSuccess(s) => {
                if s.residual_roots.len() == 0 {
                    SplittableStep::Finish(Ok(ControlResponse::ProcessBundleSuccess(s)))
                } else {
                    let ProcessBundleResponse { residual_roots } = s;
                    self.state = SplittableState::StartingProcess {
                        pending: Some(residual_roots),
                    };
                    SplittableStep::Process(self.plan.process_stage.id.clone())
                }
            },
            ControlResponse::ProcessBundleError(e) => SplittableStep::Finish(
                Err(join2("SDF process bundle failed: ", e.as_str())),
            ),
            other => SplittableStep::Finish(
                Err(
                    join2(
                        "unexpected control response for SDF process bundle: ",
                        kind_of(&other),
                    ),
                ),
            ),
        }
    }

    /// The worker has begun a bundle of the second stage.
    fn begin_process(&mut self, id: String, pending: Option<Vec<DelayedApplication>>) -> (r:
        SplittableStep)
        requires
            old(self).wf(),
        ensures
            final(self).plan == old(self).plan,
            final(self).output_metadata == old(self).output_metadata,
            final(self).captured == old(self).captured,
            final(self).state matches SplittableState::Processing { instruction_id, wait }
                && instruction_id@ == id@ && wait.response is None && wait.output == (if old(self).output_metadata is Some {
                OutputState::Decoding
            } else {
                OutputState::Nothing
            }),
            r matches SplittableStep::Send { instruction_id, transform_id, data, output }
                && instruction_id@ == id@ && transform_id@ == source_id(
                old(self).plan.process_stage.id@,
            ) && data@ == next_input(old(self).captured@, pending) && is_output(
                old(self).plan.process_stage,
                id@,
                meta_model(old(self).output_metadata),
                output,
            ),
    {
        let data: Vec<u8> = match &pending {
            None => {
                let copy: Vec<u8> = self.captured.clone();
                assert(copy@ =~= self.captured@);
                copy
            },
            Some(r) => encode_residuals(r),
        };
        let output: Option<OutputTask> = output_task(
            &self.plan.process_stage,
            id.as_str(),
            &self.output_metadata,
        );
        let transform_id: String = stage_source_transform_id(&self.plan.process_stage);
        let step = SplittableStep::Send {
            instruction_id: id.clone(),
            transform_id,
            data,
            output,
        };
        self.state = SplittableState::Processing {
            instruction_id: id,
            wait: BundleWait::new(self.output_metadata.is_some()),
        };
        step
    }

    /// The worker has begun the first stage.
    fn begin_initialization(&mut self, id: String) -> (r: SplittableStep)
        requires
            old(self).wf(),
            old(self).state is Done,
        ensures
            final(self).plan == old(self).plan,
            final(self).output_metadata == old(self).output_metadata,
            final(self).captured == old(self).captured,
            ({
                let init = old(self).plan.initialization_stage;
                if init.output_pcols@.len() == 0 {
                    final(self).state is Done && (r matches SplittableStep::InitializeInVain(
                        input,
                        e,
                    ) && is_input(init, id@, input) && e@
                        == "SDF initialization stage missing output PCollection"@)
                } else {
                    (final(self).state matches SplittableState::Initializing { response, collected }
                        && response is None && collected is None) && (
                    r matches SplittableStep::Initialize(input, key) && is_input(init, id@, input)
                        && key.instruction_id@ == id@ && key.transform_id@ == sink_id(
                        init.id@,
                        init.output_pcols@[0].id@,
                    ))
                }
            }),
    {
        let input: InputTask = input_task(&self.plan.initialization_stage, id.as_str());
        if self.plan.initialization_stage.output_pcols.len() == 0 {
            return SplittableStep::InitializeInVain(
                input,
                "SDF initialization stage missing output PCollection".to_owned(),
            );
        }
        let transform_id: String = stage_sink_transform_id(
            &self.plan.initialization_stage,
            self.plan.initialization_stage.output_pcols[0].id.as_str(),
        );
        self.state = SplittableState::Initializing { response: None, collected: None };
        SplittableStep::Initialize(input, DataKey { instruction_id: id, transform_id })
    }

    /// Goes on after an event.
    #[verifier::rlimit(60)]
    pub fn next(&mut self, event: SplittableEvent) -> (r: SplittableStep)
        requires
            old(self).wf(),
        ensures
            final(self).wf(),
            final(self).plan == old(self).plan,
            final(self).output_metadata == old(self).output_metadata,
            !(final(self).state is RegisteringProcess) ==> final(self).captured == old(self).captured,
            splittable_steps(*old(self), event, *final(self), r),
    {
        let mut state: SplittableState = SplittableState::Done;
        std::mem::swap(&mut state, &mut self.state);
        match (state, event) {
            (
                SplittableState::RegisteringInitialization,
                SplittableEvent::Registered(r),
            ) => match r {
                Ok(ControlResponse::BundleRegistered) => {
                    self.state = SplittableState::StartingInitialization;
                    SplittableStep::Process(self.plan.initialization_stage.id.clone())
                },
                Ok(_) => SplittableStep::Finish(
                    Err(
                        join2(
                            "failed to register SDF initialization bundle ",
                            self.plan.initialization_stage.id.as_str(),
                        ),
                    ),
                ),
                Err(e) => SplittableStep::Finish(Err(e)),
            },
            (SplittableState::StartingInitialization, SplittableEvent::Started(r)) => match r {
                Ok(id) => self.begin_initialization(id),
                Err(e) => SplittableStep::Finish(Err(e)),
            },
            (
                SplittableState::Initializing { response, collected },
                SplittableEvent::Bundle(BundleEvent::Response(r)),
            ) => match r {
                Ok(a) => match collected {
                    Some(b) => self.finish_initialization(a, b),
                    None => {
                        self.state = SplittableState::Initializing {
                            response: Some(a),
                            collected: None,
                        };
                        SplittableStep::Wait
                    },
                },
                Err(e) => SplittableStep::Finish(Err(e)),
            },
            (
                SplittableState::Initializing { response, collected },
                SplittableEvent::Collected(r),
            ) => match r {
                Ok(b) => match response {
                    Some(a) => self.finish_initialization(a, b),
                    None => {
                        self.state = SplittableState::Initializing {
                            response: None,
                            collected: Some(b),
                        };
                        SplittableStep::Wait
                    },
                },
                Err(e) => SplittableStep::Finish(
                    Err(join2("initialization collect task failed: ", e.as_str())),
                ),
            },
            (
                SplittableState::Initializing { response, collected },
                SplittableEvent::Bundle(BundleEvent::TimedOut),
            ) => SplittableStep::Finish(
                Err(
                    "timed out waiting for SDF initialization stage control response/data".to_owned(),
                ),
            ),
            (SplittableState::RegisteringProcess, SplittableEvent::Registered(r)) => match r {
                Ok(ControlResponse::BundleRegistered) => {
                    self.state = SplittableState::StartingProcess { pending: None };
                    SplittableStep::Process(self.plan.process_stage.id.clone())
                },
                Ok(_) => SplittableStep::Finish(
                    Err(
                        join2(
                            "failed to register SDF process bundle ",
                            self.plan.process_stage.id.as_str(),
                        ),
                    ),
                ),
                Err(e) => SplittableStep::Finish(Err(e)),
            },
            (
                SplittableState::StartingProcess { pending },
                SplittableEvent::Started(r),
            ) => match r {
                Ok(id) => self.begin_process(id, pending),
                Err(e) => SplittableStep::Finish(Err(e)),
            },
            (
                SplittableState::Processing { instruction_id, wait },
                SplittableEvent::Bundle(b),
            ) => {
                let mut waiting: BundleWait = wait;
                match waiting.on(b) {
                    Waited::Pending => {
                        self.state = SplittableState::Processing { instruction_id, wait: waiting };
                        SplittableStep::Wait
                    },
                    Waited::Ready(Ok(a)) => self.finish_bundle(a),
                    Waited::Ready(Err(e)) => SplittableStep::Finish(Err(e)),
                    Waited::TimedOut => SplittableStep::Finish(
                        Err(
                            timeout_message(
                                "timed out waiting for SDF process bundle ",
                                instruction_id.as_str(),
                                self.output_metadata.is_some(),
                            ),
                        ),
                    ),
                }
            },
            (state, _) => {
                self.state = state;
                SplittableStep::Wait
            },
        }
    }
}

// ---------------------------------------------------------------------------
// Laws
// ---------------------------------------------------------------------------
/// The execution ends well only when a bundle of the second stage left nothing to be
/// done.
pub proof fn ends_when_nothing_is_left(
    run: SplittableRun,
    event: SplittableEvent,
    after: SplittableRun,
    step: SplittableStep,
    response: ControlResponse,
)
    requires
        splittable_steps(run, event, after, step),
        step == SplittableStep::Finish(Ok(response)),
    ensures
        run.state is Processing,
        response matches ControlResponse::ProcessBundleSuccess(s) && s.residual_roots@.len() == 0,
{
}

/// The answer with which a bundle of the second stage is done, where the event ends it.
pub open spec fn answer(run: SplittableRun, event: SplittableEvent) -> Option<ControlResponse> {
    match (run.state, event) {
        (
            SplittableState::Processing { wait, .. },
            SplittableEvent::Bundle(BundleEvent::Response(Ok(a))),
        ) => if wait.output == OutputState::Decoding {
            None
        } else {
            Some(a)
        },
        (
            SplittableState::Processing { wait, .. },
            SplittableEvent::Bundle(BundleEvent::Output(OutputOutcome::Done)),
        ) => wait.response,
        _ => None,
    }
}

/// What a bundle leaves to be done is what the next bundle is sent.
pub proof fn residuals_are_sent(
    run: SplittableRun,
    event: SplittableEvent,
    left: ProcessBundleResponse,
    mid: SplittableRun,
    step: SplittableStep,
    id: String,
    after: SplittableRun,
    next: SplittableStep,
)
    requires
        answer(run, event) == Some(ControlResponse::ProcessBundleSuccess(left)),
        left.residual_roots@.len() > 0,
        mid.plan == run.plan,
        splittable_steps(run, event, mid, step),
        splittable_steps(mid, SplittableEvent::Started(Ok(id)), after, next),
    ensures
        step matches SplittableStep::Process(stage) && stage@ == run.plan.process_stage.id@,
        next matches SplittableStep::Send { instruction_id, transform_id, data, .. }
            && instruction_id@ == id@ && transform_id@ == source_id(run.plan.process_stage.id@)
            && data@ == residual_bytes(left.residual_roots@),
{
}

} // verus!
