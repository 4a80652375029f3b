//! What holds of the sessions, the states and the runs of jobs.
use crate::jobservice::artifact::{
    file_name, role_payload_name, staging_step, waits_for, ActionV, ArtifactV, EventV, ReplyV,
    RequestV, SessionV, StagingStage,
};
use crate::jobservice::server::{
    is_action, is_python_environment, is_python_job, is_refusal, is_terminal, offers,
    process_command, run_waits_for, some_offers, stage_behind, state_number, went_well, with_state,
    JobRun, JobStateEnum, RpcStatus, RunAction, RunEvent, RunStage, StatusCode,
};
use crate::model::Environment;
use crate::text::{decimal, holds_text};
use crate::worker::manager::{service_descriptor, worker_env, WorkerLaunchConfig, WorkerRuntime};
use vstd::prelude::*;
use vstd::string::*;

verus! {

// Sessions.

/// A session whose token was promised resets the store, asks for the artifacts that a
/// process can use, and then waits for the answer. One with another token does none of
/// that, and names the token.
pub proof fn session_opens(
    s: SessionV,
    token: Seq<char>,
    is_last: bool,
    body: ReplyV,
    shown: Seq<char>,
    promised: Set<Seq<char>>,
)
    requires
        s.stage == StagingStage::Token,
    ensures
        ({
            let (one, first) = staging_step(
                s,
                EventV::Received(token, is_last, body, shown),
                promised,
            );
            let (two, second) = staging_step(one, EventV::Done, promised);
            let (three, third) = staging_step(two, EventV::Done, promised);
            if promised.contains(token) {
                &&& first == ActionV::Reset
                &&& second matches ActionV::Send(RequestV::Resolve(known, wanted))
                &&& known.len() == 0
                &&& wanted.len() == 1
                &&& wanted[0] == "beam:env:process:v1"@
                &&& third == ActionV::Receive
                &&& three.stage == StagingStage::Resolution
                &&& three.default == s.default
            } else {
                &&& one.stage == StagingStage::Over
                &&& first == ActionV::Stop("Invalid staging token: "@ + token)
            }
        }),
{
}

/// The artifacts that a client names are fetched from the first on: a file is begun under
/// the name of the artifact, that very artifact is asked for, and its data is awaited. Without
/// artifacts the session is complete.
pub proof fn artifacts_are_fetched(
    s: SessionV,
    token: Seq<char>,
    is_last: bool,
    artifacts: Seq<ArtifactV>,
    shown: Seq<char>,
    promised: Set<Seq<char>>,
)
    requires
        s.stage == StagingStage::Resolution,
    ensures
        ({
            let (one, first) = staging_step(
                s,
                EventV::Received(token, is_last, ReplyV::Resolved(artifacts), shown),
                promised,
            );
            let (two, second) = staging_step(one, EventV::Done, promised);
            let (three, third) = staging_step(two, EventV::Done, promised);
            if artifacts.len() > 0 {
                &&& first == ActionV::BeginFile(file_name(artifacts[0], s.default))
                &&& second == ActionV::Send(RequestV::Get(artifacts[0]))
                &&& third == ActionV::Receive
                &&& three.stage == StagingStage::Chunk
                &&& three.at == 0
                &&& three.artifacts == artifacts
            } else {
                &&& one.stage == StagingStage::Over
                &&& first == ActionV::Complete
            }
        }),
{
}

/// A piece of an artifact is written. Behind the last piece comes the next artifact, which
/// is fetched like the first, and behind the last artifact the end; behind another piece
/// comes the next one.
pub proof fn pieces_follow_each_other(
    s: SessionV,
    token: Seq<char>,
    is_last: bool,
    data: Seq<u8>,
    shown: Seq<char>,
    promised: Set<Seq<char>>,
)
    requires
        s.stage == StagingStage::Chunk,
        0 <= s.at < s.artifacts.len(),
    ensures
        ({
            let (one, first) = staging_step(
                s,
                EventV::Received(token, is_last, ReplyV::Data(data), shown),
                promised,
            );
            let (two, second) = staging_step(one, EventV::Done, promised);
            let (three, third) = staging_step(two, EventV::Done, promised);
            &&& first == ActionV::Write(data)
            &&& two.artifacts == s.artifacts
            &&& if !is_last {
                &&& second == ActionV::Receive
                &&& two.stage == StagingStage::Chunk
                &&& two.at == s.at
            } else if s.at + 1 == s.artifacts.len() {
                &&& second == ActionV::Complete
                &&& two.stage == StagingStage::Over
            } else {
                &&& second == ActionV::BeginFile(file_name(s.artifacts[s.at + 1], s.default))
                &&& third == ActionV::Send(RequestV::Get(s.artifacts[s.at + 1]))
                &&& three.at == s.at + 1
            }
        }),
{
}

/// A step that failed, a stream that broke and one that ended stop a session, and what is
/// said of the first two holds why.
pub proof fn faults_stop(s: SessionV, event: EventV, promised: Set<Seq<char>>)
    requires
        waits_for(s.stage, event),
        event is Failed || event is Broken || event is Ended,
    ensures
        staging_step(s, event, promised).0.stage == StagingStage::Over,
        staging_step(s, event, promised).1 is Stop,
        forall|why: Seq<char>|
            event == EventV::Broken(why) ==> ends_in(
                staging_step(s, event, promised).1->Stop_0,
                why,
            ),
        forall|why: Seq<char>|
            event == EventV::Failed(why) && (s.stage == StagingStage::Reset || s.stage
                == StagingStage::FileBegun || s.stage == StagingStage::Written) ==> ends_in(
                staging_step(s, event, promised).1->Stop_0,
                why,
            ),
{
    let said = staging_step(s, event, promised).1->Stop_0;
    assert forall|why: Seq<char>| event == EventV::Broken(why) implies ends_in(said, why) by {
        assert(said.skip(said.len() - why.len()) =~= why);
    }
    assert forall|why: Seq<char>|
        event == EventV::Failed(why) && (s.stage == StagingStage::Reset || s.stage
            == StagingStage::FileBegun || s.stage == StagingStage::Written) implies ends_in(
        said,
        why,
    ) by {
        assert(said.skip(said.len() - why.len()) =~= why);
    }
}

/// Whether a text ends in another.
pub open spec fn ends_in(s: Seq<char>, end: Seq<char>) -> bool {
    s.len() >= end.len() && s.skip(s.len() - end.len()) == end
}

/// An artifact goes into the file that its role names; one whose role names none goes into
/// the default file.
pub proof fn files_are_named(artifact: ArtifactV, default: Seq<char>, name: Seq<char>)
    ensures
        artifact.role_payload.len() > 0 && role_payload_name(artifact.role_payload) == Some(name)
            && name.len() > 0 ==> file_name(artifact, default) == name,
        artifact.role_payload.len() == 0 || role_payload_name(artifact.role_payload) is None
            || role_payload_name(artifact.role_payload) == Some(Seq::<char>::empty())
            ==> file_name(artifact, default) == default,
{
}

// States.

/// Two states have two numbers, which are those of the Beam model.
pub proof fn states_have_numbers(a: JobStateEnum, b: JobStateEnum)
    ensures
        state_number(a) == state_number(b) ==> a == b,
        0 <= state_number(a) < 12,
        state_number(JobStateEnum::Unspecified) == 0,
        state_number(JobStateEnum::Stopped) == 1,
        state_number(JobStateEnum::Running) == 2,
        state_number(JobStateEnum::Done) == 3,
        state_number(JobStateEnum::Failed) == 4,
        state_number(JobStateEnum::Cancelled) == 5,
        state_number(JobStateEnum::Updated) == 6,
        state_number(JobStateEnum::Draining) == 7,
        state_number(JobStateEnum::Drained) == 8,
        state_number(JobStateEnum::Starting) == 9,
        state_number(JobStateEnum::Cancelling) == 10,
        state_number(JobStateEnum::Updating) == 11,
{
}

/// A job is over in the states from which it cannot move on, and in no other.
pub proof fn over_is_over(state: JobStateEnum)
    ensures
        state is Done || state is Failed || state is Cancelled || state is Stopped
            || state is Drained ==> is_terminal(state),
        state is Unspecified || state is Running || state is Updated || state is Draining
            || state is Starting || state is Cancelling || state is Updating ==> !is_terminal(
            state,
        ),
{
}

/// To set the state of a job gives it that state if it is known, makes no job known, and
/// leaves the others as they are.
pub proof fn one_state_changes(
    states: Map<Seq<char>, JobStateEnum>,
    job_id: Seq<char>,
    state: JobStateEnum,
    other: Seq<char>,
)
    ensures
        with_state(states, job_id, state).contains_key(other) <==> states.contains_key(other),
        states.contains_key(job_id) ==> with_state(states, job_id, state)[job_id] == state,
        states.contains_key(other) && other != job_id ==> with_state(states, job_id, state)[other]
            == states[other],
{
}

// Runs.

/// The run at the stage behind its own.
pub open spec fn stepped(run: JobRun) -> JobRun {
    JobRun { stage: stage_behind(run.stage), ..run }
}

/// A run that goes well writes the job down, lets a new worker connect, starts it, opens the
/// store, waits for the worker as long as was set, executes the pipeline, stops the worker,
/// and answers with the id of the job, in that order.
pub proof fn run_takes_its_steps(
    run: JobRun,
    a1: RunAction,
    a2: RunAction,
    a3: RunAction,
    a4: RunAction,
    a5: RunAction,
    a6: RunAction,
    a7: RunAction,
    a8: RunAction,
)
    requires
        run.stage == RunStage::Look,
        is_action(stepped(run), a1),
        is_action(stepped(stepped(run)), a2),
        is_action(stepped(stepped(stepped(run))), a3),
        is_action(stepped(stepped(stepped(stepped(run)))), a4),
        is_action(stepped(stepped(stepped(stepped(stepped(run))))), a5),
        is_action(stepped(stepped(stepped(stepped(stepped(stepped(run)))))), a6),
        is_action(stepped(stepped(stepped(stepped(stepped(stepped(stepped(run))))))), a7),
        is_action(
            stepped(stepped(stepped(stepped(stepped(stepped(stepped(stepped(run)))))))),
            a8,
        ),
    ensures
        a1 is RecordState,
        a2 is ResetChannels,
        a3 is SpawnWorker,
        a4 is OpenStore,
        a5 == RunAction::AwaitWorker(run.connect_timeout_secs),
        a6 is RunPipeline,
        a7 is StopWorker,
        a8 is Answer,
        a8->Answer_0@ == run.job_id@,
{
}

/// A step goes well unless it failed, was refused or took too long; only to write the job
/// down may fail.
pub proof fn faults_end_a_run(stage: RunStage, event: RunEvent)
    requires
        run_waits_for(stage, event),
    ensures
        went_well(stage, event) <==> stage == RunStage::Record || !(event is Failed
            || event is Refused || event is TimedOut),
{
}

/// A refusal of a step is handed on as it is. Another fault is an internal one: what is said
/// holds the id of the job or, where its store could not be opened, why; a worker that did
/// not connect in time is told of with the seconds.
pub proof fn refusals_say_why(run: JobRun, event: RunEvent, status: RpcStatus)
    requires
        run_waits_for(run.stage, event),
        !went_well(run.stage, event),
        is_refusal(run, event, status),
    ensures
        forall|why: RpcStatus| event == RunEvent::Refused(why) ==> status == why,
        event is Failed ==> status.code == StatusCode::Internal && ends_in(
            status.message@,
            event->Failed_0@,
        ),
        event is Failed && run.stage != RunStage::Store ==> ends_in(
            status.message@,
            run.job_id@ + ": "@ + event->Failed_0@,
        ),
        event is TimedOut ==> status.code == StatusCode::Internal && ends_in(
            status.message@,
            decimal(run.connect_timeout_secs as nat) + "s for job "@ + run.job_id@,
        ),
{
    let m = status.message@;
    if event is Failed {
        let why = event->Failed_0@;
        assert(m.skip(m.len() - why.len()) =~= why);
        if run.stage != RunStage::Store {
            let end = run.job_id@ + ": "@ + why;
            assert(m.skip(m.len() - end.len()) =~= end);
        }
    }
    if event is TimedOut {
        let end = decimal(run.connect_timeout_secs as nat) + "s for job "@ + run.job_id@;
        assert(m.skip(m.len() - end.len()) =~= end);
    }
}

/// A worker runs Python if and only if the job is one of Python. A Java worker runs the
/// staged jar; a Python worker the command of a process environment of the job, and the
/// configured one only where no environment has a command.
pub proof fn workers_suit_the_job(run: JobRun, action: RunAction, id: Seq<char>)
    requires
        run.stage == RunStage::Spawn,
        is_action(run, action),
    ensures
        action matches RunAction::SpawnWorker(runtime) && match runtime {
            WorkerRuntime::Java { staged_jar } => !run.runtime_is_python && staged_jar@
                == run.staged_jar@,
            WorkerRuntime::Python { python_bin } => {
                &&& run.runtime_is_python
                &&& run.graph.components.environments@.contains_key(id)
                    && run.graph.components.environments@[id].urn@ == "beam:env:process:v1"@
                    && process_command(run.graph.components.environments@[id].payload@) is Some
                    && process_command(run.graph.components.environments@[id].payload@)->0.len() > 0
                    ==> python_bin is Some && starts_some(
                    run.graph.components.environments@,
                    python_bin->0@,
                )
                &&& python_bin is Some ==> starts_some(
                    run.graph.components.environments@,
                    python_bin->0@,
                ) || (run.python_bin is Some && run.python_bin->0@ == python_bin->0@)
                &&& python_bin is None ==> run.python_bin is None
            },
        },
{
    let environments = run.graph.components.environments@;
    assert forall|c: Seq<char>| some_offers(environments, c) implies starts_some(
        environments,
        c,
    ) by {
        let k = choose|k: Seq<char>|
            environments.contains_key(k) && offers(#[trigger] environments[k], c);
        assert(environments[k].urn@ == "beam:env:process:v1"@);
    }
    if environments.contains_key(id) && environments[id].urn@ == "beam:env:process:v1"@
        && process_command(environments[id].payload@) is Some && process_command(
        environments[id].payload@,
    )->0.len() > 0 {
        let c = process_command(environments[id].payload@)->0;
        assert(offers(environments[id], c));
        assert(some_offers(environments, c));
    }
}

/// Whether some environment is a process with that command.
pub open spec fn starts_some(environments: Map<Seq<char>, Environment>, command: Seq<char>) -> bool {
    exists|id: Seq<char>| #[trigger]
        environments.contains_key(id) && environments[id].urn@ == "beam:env:process:v1"@
            && process_command(environments[id].payload@) == Some(command)
}

/// A job with a pickled session, with a process environment, or with an environment whose
/// name holds `python` is one of Python.
pub proof fn python_is_found(
    pickled: bool,
    environments: Map<Seq<char>, Environment>,
    id: Seq<char>,
)
    ensures
        pickled ==> is_python_job(pickled, environments),
        environments.contains_key(id) && (environments[id].urn@ == "beam:env:process:v1"@
            || holds_text(environments[id].urn@, "python"@)) ==> is_python_job(
            pickled,
            environments,
        ),
        !pickled && (forall|k: Seq<char>| #[trigger]
            environments.contains_key(k) ==> environments[k].urn@ != "beam:env:process:v1"@
                && !holds_text(environments[k].urn@, "python"@)) ==> !is_python_job(
            pickled,
            environments,
        ),
{
    if environments.contains_key(id) && (environments[id].urn@ == "beam:env:process:v1"@
        || holds_text(environments[id].urn@, "python"@)) {
        assert(is_python_environment(environments[id]));
    }
}

/// A worker is told its id, the pipeline options, and for every service the one address
/// that all of them have.
pub proof fn workers_find_the_services(config: WorkerLaunchConfig, job_id: Seq<char>)
    ensures
        worker_env(config, job_id).len() == 6,
        worker_env(config, job_id).contains(("HARNESS_ID"@, job_id)),
        worker_env(config, job_id).contains(("PIPELINE_OPTIONS"@, config.pipeline_options@)),
        forall|name: Seq<char>|
            name == "CONTROL_API_SERVICE_DESCRIPTOR"@ || name == "LOGGING_API_SERVICE_DESCRIPTOR"@
                || name == "DATA_API_SERVICE_DESCRIPTOR"@ || name
                == "STATE_API_SERVICE_DESCRIPTOR"@ ==> #[trigger] worker_env(
                config,
                job_id,
            ).contains((name, "url: \""@ + config.control_url@ + "\""@)),
{
    let env = worker_env(config, job_id);
    assert(env[0] == ("HARNESS_ID"@, job_id));
    assert(env[1] == ("CONTROL_API_SERVICE_DESCRIPTOR"@, service_descriptor(config.control_url@)));
    assert(env[2] == ("LOGGING_API_SERVICE_DESCRIPTOR"@, service_descriptor(config.control_url@)));
    assert(env[3] == ("DATA_API_SERVICE_DESCRIPTOR"@, service_descriptor(config.control_url@)));
    assert(env[4] == ("STATE_API_SERVICE_DESCRIPTOR"@, service_descriptor(config.control_url@)));
    assert(env[5] == ("PIPELINE_OPTIONS"@, config.pipeline_options@));
}

} // verus!
