//! The decisions of the job service.
use crate::engine::graph::ExecutableGraph;
use crate::jobservice::artifact::StagingTokens;
use crate::jobservice::job::{Job, JobStore};
use crate::jobservice::urns::PROCESS_ENVIRONMENT;
use crate::model::Environment;
use crate::named::NamedMap;
use crate::shared::{new_states, state_get, state_insert, states_in};
use crate::text::{around_decimal, contains_text, decimal, holds_text, join2, join3, same_text};
use crate::utils::path::text_option;
use crate::worker::manager::WorkerRuntime;
use crate::DEFAULT_API_SERVICE_URL;
use beam_model_rs::v1::ProcessPayload;
use dashmap::DashMap;
use prost::Message;
use std::sync::Arc;
use vstd::prelude::*;
use vstd::string::*;

verus! {

/// Why a request is refused.
#[derive(Debug, Clone, Copy, PartialEq, Eq, Structural)]
pub enum StatusCode {
    InvalidArgument,
    NotFound,
    Internal,
}

/// A refusal.
#[derive(Debug, PartialEq, Eq)]
pub struct RpcStatus {
    pub code: StatusCode,
    pub message: String,
}

impl RpcStatus {
    pub fn invalid_argument(message: String) -> (r: RpcStatus)
        ensures
            r.code == StatusCode::InvalidArgument,
            r.message == message,
    {
        RpcStatus { code: StatusCode::InvalidArgument, message }
    }

    pub fn not_found(message: String) -> (r: RpcStatus)
        ensures
            r.code == StatusCode::NotFound,
            r.message == message,
    {
        RpcStatus { code: StatusCode::NotFound, message }
    }

    pub fn internal(message: String) -> (r: RpcStatus)
        ensures
            r.code == StatusCode::Internal,
            r.message == message,
    {
        RpcStatus { code: StatusCode::Internal, message }
    }
}

/// The state of a job.
#[derive(Debug, Clone, Copy, PartialEq, Eq, Structural)]
pub enum JobStateEnum {
    Unspecified,
    Stopped,
    Running,
    Done,
    Failed,
    Cancelled,
    Updated,
    Draining,
    Drained,
    Starting,
    Cancelling,
    Updating,
}

/// The number of a state on the wire.
pub open spec fn state_number(state: JobStateEnum) -> i32 {
    match state {
        JobStateEnum::Unspecified => 0,
        JobStateEnum::Stopped => 1,
        JobStateEnum::Running => 2,
        JobStateEnum::Done => 3,
        JobStateEnum::Failed => 4,
        JobStateEnum::Cancelled => 5,
        JobStateEnum::Updated => 6,
        JobStateEnum::Draining => 7,
        JobStateEnum::Drained => 8,
        JobStateEnum::Starting => 9,
        JobStateEnum::Cancelling => 10,
        JobStateEnum::Updating => 11,
    }
}

/// What is told of the state of a job.
#[derive(Debug, PartialEq, Eq)]
pub struct JobStateEvent {
    pub state: i32,
}

/// Whether a job in that state is over.
pub open spec fn is_terminal(state: JobStateEnum) -> bool {
    state == JobStateEnum::Done || state == JobStateEnum::Failed || state
        == JobStateEnum::Cancelled || state == JobStateEnum::Stopped || state
        == JobStateEnum::Drained
}

/// Whether a job in that state is over. A stream of states may close once it has
/// told of such a state.
pub fn is_terminal_state(state: JobStateEnum) -> (r: bool)
    ensures
        r == is_terminal(state),
{
    match state {
        JobStateEnum::Done => true,
        JobStateEnum::Failed => true,
        JobStateEnum::Cancelled => true,
        JobStateEnum::Stopped => true,
        JobStateEnum::Drained => true,
        _ => false,
    }
}

/// What is told of a state.
pub fn job_state_event(state: JobStateEnum) -> (r: JobStateEvent)
    ensures
        r.state == state_number(state),
{
    let state: i32 = match state {
        JobStateEnum::Unspecified => 0,
        JobStateEnum::Stopped => 1,
        JobStateEnum::Running => 2,
        JobStateEnum::Done => 3,
        JobStateEnum::Failed => 4,
        JobStateEnum::Cancelled => 5,
        JobStateEnum::Updated => 6,
        JobStateEnum::Draining => 7,
        JobStateEnum::Drained => 8,
        JobStateEnum::Starting => 9,
        JobStateEnum::Cancelling => 10,
        JobStateEnum::Updating => 11,
    };
    JobStateEvent { state }
}

/// What a stream of states does once it has told of a state.
#[derive(Debug, Clone, Copy, PartialEq, Eq, Structural)]
pub enum StreamStep {
    Close,
    AwaitChange,
}

/// What a stream of states does once it has told of a state.
pub fn stream_step(state: JobStateEnum) -> (r: StreamStep)
    ensures
        r == (if is_terminal(state) {
            StreamStep::Close
        } else {
            StreamStep::AwaitChange
        }),
{
    if is_terminal_state(state) {
        StreamStep::Close
    } else {
        StreamStep::AwaitChange
    }
}

/// The states of the jobs of an instance.
pub struct JobStates {
    states: DashMap<String, JobStateEnum>,
}

/// The states once a job is in that state; an unknown job stays unknown.
pub open spec fn with_state(
    states: Map<Seq<char>, JobStateEnum>,
    job_id: Seq<char>,
    state: JobStateEnum,
) -> Map<Seq<char>, JobStateEnum> {
    if states.contains_key(job_id) {
        states.insert(job_id, state)
    } else {
        states
    }
}

impl JobStates {
    /// The states by the ids of the jobs.
    pub closed spec fn known(self) -> Map<Seq<char>, JobStateEnum> {
        states_in(self.states)
    }

    pub fn new() -> (r: JobStates)
        ensures
            r.known() == Map::<Seq<char>, JobStateEnum>::empty(),
    {
        JobStates { states: new_states() }
    }

    /// The job is starting.
    pub fn init_job_state(&mut self, job_id: &str)
        ensures
            final(self).known() == old(self).known().insert(job_id@, JobStateEnum::Starting),
    {
        state_insert(&mut self.states, job_id.to_string(), JobStateEnum::Starting);
    }

    /// The job is in that state, if it is known.
    pub fn set_job_state(&mut self, job_id: &str, state: JobStateEnum)
        ensures
            final(self).known() == with_state(old(self).known(), job_id@, state),
    {
        if state_get(&self.states, job_id).is_some() {
            state_insert(&mut self.states, job_id.to_string(), state);
        }
    }

    /// The state of a job, if it is known.
    pub fn current_job_state(&self, job_id: &str) -> (r: Option<JobStateEnum>)
        ensures
            match r {
                Some(state) => self.known().contains_key(job_id@) && self.known()[job_id@]
                    == state,
                None => !self.known().contains_key(job_id@),
            },
    {
        state_get(&self.states, job_id)
    }
}

// Which worker a job needs.

/// The command in the bytes of a protobuf `ProcessPayload` message, if they are
/// one.
pub uninterp spec fn process_command(payload: Seq<u8>) -> Option<Seq<char>>;

/// `prost::Message::decode` for the `ProcessPayload` message: its command;
/// nothing where the bytes are no such message. The command is claimed to depend
/// on the bytes alone.
#[verifier::external_body]
pub(crate) fn decode_process_payload(payload: &[u8]) -> (r: Option<String>)
    ensures
        match r {
            Some(command) => process_command(payload@) == Some(command@),
            None => process_command(payload@) is None,
        },
{
    Some(ProcessPayload::decode(payload).ok()?.command)
}

/// A command that says something.
pub fn usable_command(command: Option<String>) -> (r: Option<String>)
    ensures
        text_option(r) == (match text_option(command) {
            Some(text) => if text.len() > 0 {
                Some(text)
            } else {
                None
            },
            None => None,
        }),
{
    match command {
        Some(text) => if text.as_str().unicode_len() > 0 {
            Some(text)
        } else {
            None
        },
        None => None,
    }
}

/// Whether an environment is a process that is started with that command.
pub open spec fn offers(env: Environment, command: Seq<char>) -> bool {
    env.urn@ == PROCESS_ENVIRONMENT@ && process_command(env.payload@) == Some(command)
        && command.len() > 0
}

/// Whether some environment is a process that is started with that command.
pub open spec fn some_offers(environments: Map<Seq<char>, Environment>, command: Seq<char>) -> bool {
    exists|id: Seq<char>|
        environments.contains_key(id) && offers(#[trigger] environments[id], command)
}

/// The interpreter of a Python worker: the command of a process environment of
/// the job, else the one that is configured. Where several environments have a
/// command, it is the command of one of them.
pub fn python_interpreter(environments: &NamedMap<Environment>, configured: &Option<String>) -> (r:
    Option<String>)
    requires
        environments.wf(),
    ensures
        match r {
            Some(command) => some_offers(environments@, command@) || ((forall|c: Seq<char>|
                !(#[trigger] some_offers(environments@, c))) && text_option(*configured) == Some(
                command@,
            )),
            None => (forall|c: Seq<char>| !(#[trigger] some_offers(environments@, c)))
                && configured is None,
        },
{
    let n: usize = environments.entries.len();
    let mut i: usize = 0;
    while i < n
        invariant
            n == environments.entries@.len(),
            environments.wf(),
            i <= n,
            forall|j: int, c: Seq<char>|
                0 <= j < i ==> !(#[trigger] offers(environments.entries@[j].1, c)),
        decreases n - i,
    {
        let env = &environments.entries[i].1;
        proof {
            environments.entry_at(i as int);
        }
        if same_text(env.urn.as_str(), PROCESS_ENVIRONMENT) {
            match usable_command(decode_process_payload(env.payload.as_slice())) {
                Some(command) => {
                    assert(offers(environments.entries@[i as int].1, command@));
                    assert(environments@.contains_key(environments.entries@[i as int].0@));
                    return Some(command);
                },
                None => {},
            }
        }
        i = i + 1;
    }
    assert forall|c: Seq<char>| !(#[trigger] some_offers(environments@, c)) by {
        if some_offers(environments@, c) {
            let id = choose|id: Seq<char>|
                environments@.contains_key(id) && offers(#[trigger] environments@[id], c);
            let j = environments.has_entry(id);
            assert(offers(environments.entries@[j].1, c));
        }
    }
    match configured {
        Some(command) => Some(command.clone()),
        None => None,
    }
}

/// Whether an environment is one of Python.
pub open spec fn is_python_environment(env: Environment) -> bool {
    env.urn@ == PROCESS_ENVIRONMENT@ || holds_text(env.urn@, "python"@)
}

/// Whether a job is one of Python: a session was pickled for it, or one of its
/// environments is one of Python.
pub open spec fn is_python_job(pickled: bool, environments: Map<Seq<char>, Environment>) -> bool {
    pickled || exists|id: Seq<char>|
        environments.contains_key(id) && is_python_environment(#[trigger] environments[id])
}

/// Whether a job is one of Python.
pub fn is_python(pickled: bool, environments: &NamedMap<Environment>) -> (r: bool)
    requires
        environments.wf(),
    ensures
        r == is_python_job(pickled, environments@),
{
    if pickled {
        return true;
    }
    let n: usize = environments.entries.len();
    let mut i: usize = 0;
    while i < n
        invariant
            n == environments.entries@.len(),
            environments.wf(),
            i <= n,
            forall|j: int|
                0 <= j < i ==> !is_python_environment((#[trigger] environments.entries@[j]).1),
        decreases n - i,
    {
        let env = &environments.entries[i].1;
        proof {
            environments.entry_at(i as int);
        }
        if same_text(env.urn.as_str(), PROCESS_ENVIRONMENT) || contains_text(
            env.urn.as_str(),
            "python",
        ) {
            assert(is_python_environment(environments@[environments.entries@[i as int].0@]));
            return true;
        }
        i = i + 1;
    }
    assert forall|id: Seq<char>| environments@.contains_key(id) implies !is_python_environment(
        #[trigger] environments@[id],
    ) by {
        let j = environments.has_entry(id);
        assert(!is_python_environment(environments.entries@[j].1));
    }
    false
}

/// Where the pickled session of a job is staged.
pub open spec fn pickled_path(staging_dir: Seq<char>) -> Seq<char> {
    staging_dir + "/staged/pickled_main_session"@
}

// Running a job.

/// What becomes of a step of a run.
#[derive(Debug, PartialEq, Eq)]
pub enum RunEvent {
    /// The file is there, or not.
    Exists(bool),
    Done,
    Failed(String),
    Refused(RpcStatus),
    TimedOut,
}

/// What is to be done next.
#[derive(Debug, PartialEq, Eq)]
pub enum RunAction {
    /// Look whether the file is there.
    Look(String),
    /// Write the job down.
    RecordState,
    /// Let a new worker connect.
    ResetChannels,
    /// Start the worker.
    SpawnWorker(WorkerRuntime),
    /// Open the store of the job.
    OpenStore,
    /// Wait for the worker, so many seconds at most.
    AwaitWorker(u64),
    /// Execute the stages of the job.
    RunPipeline,
    /// Stop the worker.
    StopWorker,
    /// Refuse the request.
    Refuse(RpcStatus),
    /// Answer with the id of the job.
    Answer(String),
}

/// How far a run has come: what it waits for.
#[derive(Debug, Clone, Copy, PartialEq, Eq, Structural)]
pub enum RunStage {
    Look,
    Record,
    Reset,
    Spawn,
    Store,
    Connect,
    Pipeline,
    Stop,
    Over,
}

/// A run of a job.
pub struct JobRun {
    pub stage: RunStage,
    pub job_id: String,
    pub graph: Arc<ExecutableGraph>,
    pub runtime_is_python: bool,
    pub staged_jar: String,
    pub python_bin: Option<String>,
    pub connect_timeout_secs: u64,
}

/// Whether a run at that stage waits for such an event.
pub open spec fn run_waits_for(stage: RunStage, event: RunEvent) -> bool {
    match stage {
        RunStage::Look => event is Exists,
        RunStage::Record => event is Done || event is Failed,
        RunStage::Reset => event is Done,
        RunStage::Spawn => event is Done || event is Refused,
        RunStage::Store => event is Done || event is Failed,
        RunStage::Connect => event is Done || event is Failed || event is TimedOut,
        RunStage::Pipeline => event is Done || event is Failed,
        RunStage::Stop => event is Done || event is Refused,
        RunStage::Over => false,
    }
}

/// The stage behind a step that went well.
pub open spec fn stage_behind(stage: RunStage) -> RunStage {
    match stage {
        RunStage::Look => RunStage::Record,
        RunStage::Record => RunStage::Reset,
        RunStage::Reset => RunStage::Spawn,
        RunStage::Spawn => RunStage::Store,
        RunStage::Store => RunStage::Connect,
        RunStage::Connect => RunStage::Pipeline,
        RunStage::Pipeline => RunStage::Stop,
        RunStage::Stop => RunStage::Over,
        RunStage::Over => RunStage::Over,
    }
}

/// Whether a step went well, or may go wrong without harm.
pub open spec fn went_well(stage: RunStage, event: RunEvent) -> bool {
    event is Done || event is Exists || stage == RunStage::Record
}

/// The refusal that a step which went wrong ends in.
pub open spec fn is_refusal(run: JobRun, event: RunEvent, status: RpcStatus) -> bool {
    match event {
        RunEvent::Refused(why) => status == why,
        RunEvent::Failed(why) => status.code == StatusCode::Internal && status.message@ == (
        match run.stage {
            RunStage::Store => "failed to set job store: "@ + why@,
            RunStage::Connect => "failed waiting for harness connection for job "@ + run.job_id@
                + ": "@ + why@,
            _ => "failed to execute pipeline for job "@ + run.job_id@ + ": "@ + why@,
        }),
        _ => status.code == StatusCode::Internal && status.message@
            == "harness did not connect within "@ + decimal(run.connect_timeout_secs as nat)
            + "s for job "@ + run.job_id@,
    }
}

/// Whether that is what a run does at a stage it has come to.
pub open spec fn is_action(run: JobRun, action: RunAction) -> bool {
    match run.stage {
        RunStage::Look => false,
        RunStage::Record => action is RecordState,
        RunStage::Reset => action is ResetChannels,
        RunStage::Spawn => action matches RunAction::SpawnWorker(runtime) && is_runtime(
            run,
            runtime,
        ),
        RunStage::Store => action is OpenStore,
        RunStage::Connect => action == RunAction::AwaitWorker(run.connect_timeout_secs),
        RunStage::Pipeline => action is RunPipeline,
        RunStage::Stop => action is StopWorker,
        RunStage::Over => action matches RunAction::Answer(id) && id@ == run.job_id@,
    }
}

/// Whether that is the worker of a run.
pub open spec fn is_runtime(run: JobRun, runtime: WorkerRuntime) -> bool {
    match runtime {
        WorkerRuntime::Java { staged_jar } => !run.runtime_is_python && staged_jar@
            == run.staged_jar@,
        WorkerRuntime::Python { python_bin } => run.runtime_is_python && match python_bin {
            Some(command) => some_offers(run.graph.components.environments@, command@) || ((
            forall|c: Seq<char>|
                !(#[trigger] some_offers(run.graph.components.environments@, c))) && text_option(
                run.python_bin,
            ) == Some(command@)),
            None => (forall|c: Seq<char>|
                !(#[trigger] some_offers(run.graph.components.environments@, c)))
                && run.python_bin is None,
        },
    }
}

impl JobRun {
    pub open spec fn wf(self) -> bool {
        self.graph.wf()
    }

    /// What the run does at the stage it has come to.
    fn action(&self) -> (r: RunAction)
        requires
            self.wf(),
            self.stage != RunStage::Look,
        ensures
            is_action(*self, r),
    {
        match self.stage {
            RunStage::Look => RunAction::RecordState,
            RunStage::Record => RunAction::RecordState,
            RunStage::Reset => RunAction::ResetChannels,
            RunStage::Spawn => {
                if self.runtime_is_python {
                    let python_bin = python_interpreter(
                        &self.graph.components.environments,
                        &self.python_bin,
                    );
                    RunAction::SpawnWorker(WorkerRuntime::Python { python_bin })
                } else {
                    RunAction::SpawnWorker(
                        WorkerRuntime::Java { staged_jar: self.staged_jar.clone() },
                    )
                }
            },
            RunStage::Store => RunAction::OpenStore,
            RunStage::Connect => RunAction::AwaitWorker(self.connect_timeout_secs),
            RunStage::Pipeline => RunAction::RunPipeline,
            RunStage::Stop => RunAction::StopWorker,
            RunStage::Over => RunAction::Answer(self.job_id.clone()),
        }
    }

    /// The refusal that a step which went wrong ends in.
    fn refusal(&self, event: RunEvent) -> (r: RpcStatus)
        ensures
            is_refusal(*self, event, r),
    {
        match event {
            RunEvent::Refused(why) => why,
            RunEvent::Failed(why) => {
                let start = match self.stage {
                    RunStage::Store => {
                        return RpcStatus::internal(
                            join2("failed to set job store: ", why.as_str()),
                        );
                    },
                    RunStage::Connect => join3(
                        "failed waiting for harness connection for job ",
                        self.job_id.as_str(),
                        ": ",
                    ),
                    _ => join3(
                        "failed to execute pipeline for job ",
                        self.job_id.as_str(),
                        ": ",
                    ),
                };
                RpcStatus::internal(join2(start.as_str(), why.as_str()))
            },
            _ => {
                let start = around_decimal(
                    "harness did not connect within ",
                    self.connect_timeout_secs,
                    "s for job ",
                );
                RpcStatus::internal(join2(start.as_str(), self.job_id.as_str()))
            },
        }
    }

    /// What the run does next. It ends in an answer once every step went well,
    /// and in a refusal with the first that did not; only that the job could not
    /// be written down is passed over. The job is done once its worker was
    /// stopped.
    pub fn next(&mut self, event: RunEvent, states: &mut JobStates) -> (r: RunAction)
        requires
            old(self).wf(),
            run_waits_for(old(self).stage, event),
        ensures
            final(self).wf(),
            final(self).job_id == old(self).job_id,
            final(self).graph == old(self).graph,
            final(self).staged_jar == old(self).staged_jar,
            final(self).python_bin == old(self).python_bin,
            final(self).connect_timeout_secs == old(self).connect_timeout_secs,
            final(self).runtime_is_python == (match event {
                RunEvent::Exists(pickled) => is_python_job(
                    pickled,
                    old(self).graph.components.environments@,
                ),
                _ => old(self).runtime_is_python,
            }),
            if went_well(old(self).stage, event) {
                &&& final(self).stage == stage_behind(old(self).stage)
                &&& is_action(*final(self), r)
            } else {
                &&& final(self).stage == RunStage::Over
                &&& r matches RunAction::Refuse(status) && is_refusal(*old(self), event, status)
            },
            final(states).known() == (if old(self).stage == RunStage::Stop && event is Done {
                with_state(old(states).known(), old(self).job_id@, JobStateEnum::Done)
            } else {
                old(states).known()
            }),
    {
        let well = match (self.stage, &event) {
            (RunStage::Record, _) => true,
            (_, RunEvent::Done) => true,
            (_, RunEvent::Exists(_)) => true,
            _ => false,
        };
        if !well {
            let status = self.refusal(event);
            self.stage = RunStage::Over;
            return RunAction::Refuse(status);
        }
        match event {
            RunEvent::Exists(pickled) => {
                self.runtime_is_python = is_python(pickled, &self.graph.components.environments);
            },
            _ => {},
        }
        let behind = match self.stage {
            RunStage::Look => RunStage::Record,
            RunStage::Record => RunStage::Reset,
            RunStage::Reset => RunStage::Spawn,
            RunStage::Spawn => RunStage::Store,
            RunStage::Store => RunStage::Connect,
            RunStage::Connect => RunStage::Pipeline,
            RunStage::Pipeline => RunStage::Stop,
            RunStage::Stop => RunStage::Over,
            RunStage::Over => RunStage::Over,
        };
        self.stage = behind;
        match behind {
            RunStage::Over => {
                states.set_job_state(self.job_id.as_str(), JobStateEnum::Done);
            },
            _ => {},
        }
        self.action()
    }
}

/// What a client is told of a job that was prepared.
#[derive(Debug, PartialEq, Eq)]
pub struct PrepareJobResponse {
    pub preparation_id: String,
    pub artifact_staging_endpoint: String,
    pub staging_session_token: String,
}

/// The jobs of an instance, and what is known of them.
pub struct FlareJobService {
    pub job_store: JobStore,
    pub staging_tokens: StagingTokens,
    pub job_states: JobStates,
    pub instance_id: String,
}

impl FlareJobService {
    /// Every graph is well formed.
    pub open spec fn wf(self) -> bool {
        self.job_store.wf()
    }

    /// A service without jobs.
    pub fn with(instance_id: String) -> (r: FlareJobService)
        ensures
            r.wf(),
            r.job_store.jobs() == Map::<Seq<char>, ExecutableGraph>::empty(),
            r.staging_tokens.promised() == Set::<Seq<char>>::empty(),
            r.job_states.known() == Map::<Seq<char>, JobStateEnum>::empty(),
            r.instance_id == instance_id,
    {
        FlareJobService {
            job_store: JobStore::new(),
            staging_tokens: StagingTokens::new(),
            job_states: JobStates::new(),
            instance_id,
        }
    }

    pub fn get_staging_tokens(&self) -> (r: &StagingTokens)
        ensures
            *r == self.staging_tokens,
    {
        &self.staging_tokens
    }

    /// Prepares a job for execution. The job, which is starting, goes by the id in
    /// the answer; the token there opens a staging session. Which id and which
    /// token that are is left to chance.
    pub fn prepare(&mut self, graph: Option<ExecutableGraph>) -> (r: Result<
        PrepareJobResponse,
        RpcStatus,
    >)
        requires
            old(self).wf(),
            graph matches Some(g) ==> g.wf(),
        ensures
            final(self).wf(),
            final(self).instance_id == old(self).instance_id,
            match (graph, r) {
                (Some(g), Ok(response)) => {
                    let id = response.preparation_id@;
                    &&& crate::jobservice::job::is_job_id(id)
                    &&& response.artifact_staging_endpoint@ == DEFAULT_API_SERVICE_URL@
                    &&& final(self).job_store.jobs() == old(self).job_store.jobs().insert(id, g)
                    &&& final(self).staging_tokens.promised() == old(
                        self,
                    ).staging_tokens.promised().insert(response.staging_session_token@)
                    &&& final(self).job_states.known() == old(self).job_states.known().insert(
                        id,
                        JobStateEnum::Starting,
                    )
                },
                (None, Err(e)) => {
                    &&& e.code == StatusCode::InvalidArgument
                    &&& e.message@ == "Pipeline is missing"@
                    &&& final(self).job_store.jobs() == old(self).job_store.jobs()
                    &&& final(self).staging_tokens.promised() == old(
                        self,
                    ).staging_tokens.promised()
                    &&& final(self).job_states.known() == old(self).job_states.known()
                },
                _ => false,
            },
    {
        let graph = match graph {
            Some(graph) => graph,
            None => {
                return Err(RpcStatus::invalid_argument("Pipeline is missing".to_string()));
            },
        };
        let job = Job::of(graph);
        let token = crate::fusion::stage::random_id();
        let response = PrepareJobResponse {
            preparation_id: job.job_id.clone(),
            artifact_staging_endpoint: DEFAULT_API_SERVICE_URL.to_string(),
            staging_session_token: token.clone(),
        };
        self.job_store.add_job(&job.job_id, job.graph);
        self.staging_tokens.insert(token);
        self.job_states.init_job_state(response.preparation_id.as_str());
        Ok(response)
    }

    /// Starts the run of a job that was prepared. `staging_dir` is where its
    /// artifacts are staged.
    pub fn run(
        &mut self,
        preparation_id: &str,
        staging_dir: &str,
        staged_jar: &str,
        python_bin: Option<String>,
        connect_timeout_secs: u64,
    ) -> (r: Result<(JobRun, RunAction), RpcStatus>)
        requires
            old(self).wf(),
        ensures
            final(self).wf(),
            final(self).instance_id == old(self).instance_id,
            final(self).job_store == old(self).job_store,
            final(self).staging_tokens == old(self).staging_tokens,
            match r {
                Ok((run, action)) => {
                    &&& preparation_id@.len() > 0
                    &&& old(self).job_store.jobs().contains_key(preparation_id@)
                    &&& run.wf()
                    &&& run.stage == RunStage::Look
                    &&& run.job_id@ == preparation_id@
                    &&& *run.graph == old(self).job_store.jobs()[preparation_id@]
                    &&& run.staged_jar@ == staged_jar@
                    &&& run.python_bin == python_bin
                    &&& run.connect_timeout_secs == connect_timeout_secs
                    &&& action matches RunAction::Look(path)
                    &&& path@ == pickled_path(staging_dir@)
                    &&& final(self).job_states.known() == with_state(
                        old(self).job_states.known(),
                        preparation_id@,
                        JobStateEnum::Running,
                    )
                },
                Err(e) => {
                    &&& final(self).job_states.known() == old(self).job_states.known()
                    &&& if preparation_id@.len() == 0 {
                        e.code == StatusCode::InvalidArgument && e.message@
                            == "preparation_id is required"@
                    } else {
                        &&& !old(self).job_store.jobs().contains_key(preparation_id@)
                        &&& e.code == StatusCode::NotFound
                        &&& e.message@ == "unknown preparation_id: "@ + preparation_id@
                    }
                },
            },
    {
        if preparation_id.unicode_len() == 0 {
            return Err(RpcStatus::invalid_argument("preparation_id is required".to_string()));
        }
        let id = preparation_id.to_string();
        let graph = match self.job_store.get_job(&id) {
            Some(graph) => graph,
            None => {
                return Err(RpcStatus::not_found(join2("unknown preparation_id: ", preparation_id)));
            },
        };
        self.job_states.set_job_state(preparation_id, JobStateEnum::Running);
        let run = JobRun {
            stage: RunStage::Look,
            job_id: id,
            graph,
            runtime_is_python: false,
            staged_jar: staged_jar.to_string(),
            python_bin,
            connect_timeout_secs,
        };
        let path = join2(staging_dir, "/staged/pickled_main_session");
        Ok((run, RunAction::Look(path)))
    }

    /// The state of a job.
    pub fn get_state(&self, job_id: &str) -> (r: Result<JobStateEvent, RpcStatus>)
        ensures
            match r {
                Ok(event) => self.job_states.known().contains_key(job_id@) && event.state
                    == state_number(self.job_states.known()[job_id@]),
                Err(e) => !self.job_states.known().contains_key(job_id@) && e.code
                    == StatusCode::NotFound && e.message@ == "unknown job_id: "@ + job_id@,
            },
    {
        match self.job_states.current_job_state(job_id) {
            Some(state) => Ok(job_state_event(state)),
            None => Err(RpcStatus::not_found(join2("unknown job_id: ", job_id))),
        }
    }

    /// What a client is told once the worker of its job was stopped.
    pub fn cancel(&self) -> (r: JobStateEvent)
        ensures
            r.state == state_number(JobStateEnum::Cancelled),
    {
        job_state_event(JobStateEnum::Cancelled)
    }
}

/// A job that was prepared is starting, one whose run began is running, and one
/// whose worker was stopped is done; what is known of other jobs stays.
pub proof fn a_run_ends_done(
    states: Map<Seq<char>, JobStateEnum>,
    job_id: Seq<char>,
    other: Seq<char>,
)
    requires
        other != job_id,
    ensures
        ({
            let prepared = states.insert(job_id, JobStateEnum::Starting);
            let running = with_state(prepared, job_id, JobStateEnum::Running);
            let done = with_state(running, job_id, JobStateEnum::Done);
            &&& prepared[job_id] == JobStateEnum::Starting
            &&& running[job_id] == JobStateEnum::Running
            &&& done[job_id] == JobStateEnum::Done
            &&& is_terminal(done[job_id])
            &&& !is_terminal(running[job_id])
            &&& done.contains_key(other) == states.contains_key(other)
            &&& done[other] == states[other]
        }),
{
}

} // verus!
