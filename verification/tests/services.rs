use beam_model_rs::v1::{ArtifactStagingToRolePayload, ProcessPayload};
use flaredb::engine::graph::{ConsumerMetaData, ExecutableGraph};
use flaredb::io::server::{
    last_segment, parse_table_name, put_destination, put_reference, trim, PutStart, Statements,
};
use flaredb::jobservice::artifact::{
    given_or_default, staged_name, ArtifactInformation, ArtifactReply, ArtifactRequest,
    ArtifactResponse, ArtifactStore, StagingAction, StagingEvent, StagingSession, StagingStage,
    StagingTokens,
};
use flaredb::jobservice::job::{Job, JobStore};
use flaredb::jobservice::server::{
    is_python, is_terminal_state, job_state_event, python_interpreter, stream_step,
    usable_command, FlareJobService, JobRun, JobStateEnum, JobStates, RpcStatus, RunAction,
    RunEvent, RunStage, StatusCode, StreamStep,
};
use flaredb::model::{Components, Environment};
use flaredb::named::NamedMap;
use flaredb::state::{record_job_state, state_path};
use flaredb::utils::path::{
    artifacts_dir, artifacts_jar_dir, debug_executable_graph_path, instance_dir, job_dir, join,
    logs_dir, store_dir, BaseDir,
};
use flaredb::worker::manager::{WorkerLaunchConfig, WorkerManager, WorkerRuntime};
use prost::Message;

// artifacts

fn artifact(name: &str) -> ArtifactInformation {
    ArtifactInformation {
        type_urn: "beam:artifact:type:file:v1".to_string(),
        type_payload: vec![7],
        role_urn: "beam:artifact:role:staging_to:v1".to_string(),
        role_payload: ArtifactStagingToRolePayload {
            staged_name: name.to_string(),
        }
        .encode_to_vec(),
    }
}

fn response(token: &str, is_last: bool, body: ArtifactReply) -> StagingEvent {
    StagingEvent::Received(ArtifactResponse {
        staging_token: token.to_string(),
        is_last,
        body,
        shown: "Response { .. }".to_string(),
    })
}

fn tokens() -> StagingTokens {
    let mut tokens = StagingTokens::new();
    tokens.insert("secret".to_string());
    tokens
}

/// A session that has just asked for its first artifact.
fn at_first_chunk(artifacts: Vec<ArtifactInformation>) -> StagingSession {
    let tokens = tokens();
    let mut session = StagingSession::new("default-file");
    session.next(response("secret", false, ArtifactReply::Other), &tokens);
    session.next(StagingEvent::Done, &tokens);
    session.next(StagingEvent::Done, &tokens);
    session.next(response("", false, ArtifactReply::Resolved(artifacts)), &tokens);
    session.next(StagingEvent::Done, &tokens);
    assert_eq!(session.next(StagingEvent::Done, &tokens), StagingAction::Receive);
    session
}

#[test]
fn artifacts_are_staged_one_after_the_other() {
    let tokens = tokens();
    let mut session = StagingSession::new("default-file");

    let action = session.next(response("secret", false, ArtifactReply::Other), &tokens);
    assert_eq!(action, StagingAction::Reset);
    let action = session.next(StagingEvent::Done, &tokens);
    assert_eq!(
        action,
        StagingAction::Send(ArtifactRequest::Resolve {
            artifacts: vec![],
            preferred_urns: vec!["beam:env:process:v1".to_string()],
        })
    );
    assert_eq!(session.next(StagingEvent::Done, &tokens), StagingAction::Receive);

    let artifacts = vec![artifact("lib/a.jar"), artifact("")];
    let action = session.next(
        response("", false, ArtifactReply::Resolved(artifacts)),
        &tokens,
    );
    assert_eq!(action, StagingAction::BeginFile("lib/a.jar".to_string()));
    let action = session.next(StagingEvent::Done, &tokens);
    assert_eq!(
        action,
        StagingAction::Send(ArtifactRequest::Get(artifact("lib/a.jar")))
    );
    assert_eq!(session.next(StagingEvent::Done, &tokens), StagingAction::Receive);

    let action = session.next(response("", false, ArtifactReply::Data(vec![1, 2])), &tokens);
    assert_eq!(action, StagingAction::Write(vec![1, 2]));
    assert_eq!(session.next(StagingEvent::Done, &tokens), StagingAction::Receive);
    let action = session.next(response("", true, ArtifactReply::Data(vec![3])), &tokens);
    assert_eq!(action, StagingAction::Write(vec![3]));

    // the second has no name of its own
    let action = session.next(StagingEvent::Done, &tokens);
    assert_eq!(action, StagingAction::BeginFile("default-file".to_string()));
    session.next(StagingEvent::Done, &tokens);
    session.next(StagingEvent::Done, &tokens);
    session.next(response("", true, ArtifactReply::Data(vec![])), &tokens);
    assert_eq!(session.next(StagingEvent::Done, &tokens), StagingAction::Complete);
    assert_eq!(session.stage, StagingStage::Over);
}

#[test]
fn a_session_needs_a_promised_token() {
    let tokens = tokens();
    let mut session = StagingSession::new("f");
    assert_eq!(
        session.next(response("guess", false, ArtifactReply::Other), &tokens),
        StagingAction::Stop("Invalid staging token: guess".to_string())
    );
    let mut session = StagingSession::new("f");
    assert_eq!(
        session.next(StagingEvent::Ended, &tokens),
        StagingAction::Stop("Client disconnected before sending staging token".to_string())
    );
    let mut session = StagingSession::new("f");
    assert_eq!(
        session.next(StagingEvent::Broken("reset".to_string()), &tokens),
        StagingAction::Stop("Error receiving staging token: reset".to_string())
    );
}

#[test]
fn a_session_stops_where_a_step_fails() {
    let tokens = tokens();
    let fail = || StagingEvent::Failed("no".to_string());
    let stop = |text: &str| StagingAction::Stop(text.to_string());

    let mut session = StagingSession::new("f");
    session.next(response("secret", false, ArtifactReply::Other), &tokens);
    assert_eq!(
        session.next(fail(), &tokens),
        stop("failed to reset artifact store before staging: no")
    );

    let mut session = StagingSession::new("f");
    session.next(response("secret", false, ArtifactReply::Other), &tokens);
    session.next(StagingEvent::Done, &tokens);
    assert_eq!(session.next(fail(), &tokens), stop("Failed to send resolve request"));

    for (event, text) in [
        (
            response("", false, ArtifactReply::Other),
            "Received unexpected response from client: Response { .. }",
        ),
        (
            StagingEvent::Broken("cut".to_string()),
            "Error receiving resolve response: cut",
        ),
        (StagingEvent::Ended, "Client disconnected"),
    ] {
        let mut session = StagingSession::new("f");
        session.next(response("secret", false, ArtifactReply::Other), &tokens);
        session.next(StagingEvent::Done, &tokens);
        session.next(StagingEvent::Done, &tokens);
        assert_eq!(session.next(event, &tokens), stop(text));
    }

    let mut session = at_first_chunk(vec![artifact("a")]);
    session.stage = StagingStage::FileBegun;
    assert_eq!(session.next(fail(), &tokens), stop("failed to begin file for a: no"));

    let mut session = at_first_chunk(vec![artifact("a")]);
    session.stage = StagingStage::GetSent;
    assert_eq!(session.next(fail(), &tokens), stop("Failed to send get artifact request"));

    let mut session = at_first_chunk(vec![artifact("a")]);
    session.next(response("", false, ArtifactReply::Data(vec![1])), &tokens);
    assert_eq!(session.next(fail(), &tokens), stop("artifact write failed for a: no"));

    let mut session = at_first_chunk(vec![artifact("a")]);
    assert_eq!(
        session.next(StagingEvent::Broken("cut".to_string()), &tokens),
        stop("Error receiving artifact: cut")
    );
    let mut session = at_first_chunk(vec![artifact("a")]);
    assert_eq!(
        session.next(StagingEvent::Ended, &tokens),
        stop("Client stream ended unexpectedly")
    );

    // an answer of another kind ends the artifact, not the session
    let mut session = at_first_chunk(vec![artifact("a"), artifact("b")]);
    assert_eq!(
        session.next(response("", false, ArtifactReply::Other), &tokens),
        StagingAction::BeginFile("b".to_string())
    );
}

#[test]
fn artifacts_go_by_their_staged_names() {
    assert_eq!(staged_name(&artifact("x/y.jar"), "d"), "x/y.jar");
    assert_eq!(staged_name(&artifact(""), "d"), "d");
    let mut broken = artifact("x");
    broken.role_payload = vec![0xff];
    assert_eq!(staged_name(&broken, "d"), "d");
    assert_eq!(given_or_default(Some("n".to_string()), "d"), "n");
    assert_eq!(given_or_default(Some(String::new()), "d"), "d");
    assert_eq!(given_or_default(None, "d"), "d");
}

#[test]
fn the_artifact_store_knows_its_file() {
    let mut store = ArtifactStore::from("/srv/i1", "pipeline-artifact");
    assert_eq!(store.root_path(), "/srv/i1");
    assert_eq!(store.default_file_name(), "pipeline-artifact");
    assert_eq!(store.staged_path(), "/srv/i1/pipeline-artifact");
    assert_eq!(store.stage_artifact().unwrap(), "/srv/i1/pipeline-artifact");
    store.reset();
    assert_eq!(store.stage_artifact(), Err("file not initialized".to_string()));
    assert_eq!(store.full_path("staged/a"), "/srv/i1/staged/a");
    store.begin_file("staged/a");
    assert_eq!(store.stage_artifact().unwrap(), "/srv/i1/staged/a");
}

// jobs

fn graph(environments: Vec<(&str, &str, Vec<u8>)>) -> ExecutableGraph {
    let mut components = Components::empty();
    for (id, urn, payload) in environments {
        components.environments.insert(
            id.to_string(),
            Environment::new(urn.to_string(), payload),
        );
    }
    ExecutableGraph::new(
        ConsumerMetaData {
            producer_transform_id: String::new(),
            produced_pcol_id: String::new(),
            coder_id: String::new(),
            component_coder: None,
            consumer_transfrom_id: String::new(),
        },
        components,
    )
}

fn process(command: &str) -> Vec<u8> {
    ProcessPayload {
        command: command.to_string(),
        ..Default::default()
    }
    .encode_to_vec()
}

fn environments(list: Vec<(&str, &str, Vec<u8>)>) -> NamedMap<Environment> {
    graph(list).components.environments
}

fn prepared(graph: ExecutableGraph) -> (FlareJobService, String) {
    let mut service = FlareJobService::with("i1".to_string());
    let id = service.prepare(Some(graph)).unwrap().preparation_id;
    (service, id)
}

fn begun(graph: ExecutableGraph) -> (FlareJobService, JobRun) {
    let (mut service, id) = prepared(graph);
    let (run, action) = service
        .run(&id, "/srv/i1", "/srv/i1/jar", Some("py3".to_string()), 20)
        .unwrap();
    assert_eq!(
        action,
        RunAction::Look("/srv/i1/staged/pickled_main_session".to_string())
    );
    (service, run)
}

#[test]
fn a_prepared_job_is_starting() {
    let mut service = FlareJobService::with("i1".to_string());
    let refused = service.prepare(None).unwrap_err();
    assert_eq!(refused.code, StatusCode::InvalidArgument);
    assert_eq!(refused.message, "Pipeline is missing");

    let response = service.prepare(Some(graph(vec![]))).unwrap();
    assert!(response.preparation_id.starts_with("jobid"));
    assert_eq!(response.artifact_staging_endpoint, "127.0.0.1:8099");
    assert!(service.get_staging_tokens().contains(&response.staging_session_token));
    assert!(!service.get_staging_tokens().contains("other"));
    assert_eq!(service.get_state(&response.preparation_id).unwrap().state, 9);
    assert!(service.job_store.get_job(&response.preparation_id).is_some());

    let again = service.prepare(Some(graph(vec![]))).unwrap();
    assert_ne!(again.preparation_id, response.preparation_id);
    assert_ne!(again.staging_session_token, response.staging_session_token);
}

#[test]
fn a_java_job_runs_to_its_end() {
    let (mut service, mut run) = begun(graph(vec![("e", "beam:env:docker:v1", vec![])]));
    let id = run.job_id.clone();
    assert_eq!(service.get_state(&id).unwrap().state, 2);

    let states = &mut service.job_states;
    assert_eq!(run.next(RunEvent::Exists(false), states), RunAction::RecordState);
    // that the job was not written down does no harm
    let action = run.next(RunEvent::Failed("disk full".to_string()), states);
    assert_eq!(action, RunAction::ResetChannels);
    assert_eq!(
        run.next(RunEvent::Done, states),
        RunAction::SpawnWorker(WorkerRuntime::Java {
            staged_jar: "/srv/i1/jar".to_string()
        })
    );
    assert_eq!(run.next(RunEvent::Done, states), RunAction::OpenStore);
    assert_eq!(run.next(RunEvent::Done, states), RunAction::AwaitWorker(20));
    assert_eq!(run.next(RunEvent::Done, states), RunAction::RunPipeline);
    assert_eq!(run.next(RunEvent::Done, states), RunAction::StopWorker);
    assert_eq!(run.next(RunEvent::Done, states), RunAction::Answer(id.clone()));
    assert_eq!(run.stage, RunStage::Over);
    assert_eq!(service.get_state(&id).unwrap().state, 3);
}

#[test]
fn a_python_job_gets_its_interpreter() {
    let payload = process("/usr/bin/python3.11");
    let (mut service, mut run) = begun(graph(vec![("e", "beam:env:process:v1", payload)]));
    run.next(RunEvent::Exists(false), &mut service.job_states);
    run.next(RunEvent::Done, &mut service.job_states);
    assert_eq!(
        run.next(RunEvent::Done, &mut service.job_states),
        RunAction::SpawnWorker(WorkerRuntime::Python {
            python_bin: Some("/usr/bin/python3.11".to_string())
        })
    );

    // a pickled session is enough, and the configured interpreter is taken
    let (mut service, mut run) = begun(graph(vec![]));
    run.next(RunEvent::Exists(true), &mut service.job_states);
    run.next(RunEvent::Done, &mut service.job_states);
    assert_eq!(
        run.next(RunEvent::Done, &mut service.job_states),
        RunAction::SpawnWorker(WorkerRuntime::Python {
            python_bin: Some("py3".to_string())
        })
    );
}

#[test]
fn a_run_is_refused_where_it_cannot_begin() {
    let mut service = FlareJobService::with("i1".to_string());
    let e = service.run("", "/s", "/j", None, 20).err().unwrap();
    assert_eq!(e, RpcStatus::invalid_argument("preparation_id is required".to_string()));
    let e = service.run("job7", "/s", "/j", None, 20).err().unwrap();
    assert_eq!(e, RpcStatus::not_found("unknown preparation_id: job7".to_string()));
}

#[test]
fn a_run_is_refused_where_a_step_fails() {
    let cases: Vec<(RunStage, RunEvent, &str)> = vec![
        (
            RunStage::Store,
            RunEvent::Failed("no".to_string()),
            "failed to set job store: no",
        ),
        (
            RunStage::Connect,
            RunEvent::TimedOut,
            "harness did not connect within 20s for job J",
        ),
        (
            RunStage::Connect,
            RunEvent::Failed("no".to_string()),
            "failed waiting for harness connection for job J: no",
        ),
        (
            RunStage::Pipeline,
            RunEvent::Failed("no".to_string()),
            "failed to execute pipeline for job J: no",
        ),
        (
            RunStage::Spawn,
            RunEvent::Refused(RpcStatus::internal("no jar".to_string())),
            "no jar",
        ),
        (
            RunStage::Stop,
            RunEvent::Refused(RpcStatus::internal("not killed".to_string())),
            "not killed",
        ),
    ];
    for (stage, event, text) in cases {
        let (mut service, mut run) = begun(graph(vec![]));
        let id = run.job_id.clone();
        run.job_id = "J".to_string();
        run.stage = stage;
        let action = run.next(event, &mut service.job_states);
        assert_eq!(
            action,
            RunAction::Refuse(RpcStatus::internal(text.to_string()))
        );
        assert_eq!(run.stage, RunStage::Over);
        // the job stays where it was
        assert_eq!(service.get_state(&id).unwrap().state, 2);
    }
}

#[test]
fn states_are_told_by_their_numbers() {
    let all = [
        (JobStateEnum::Unspecified, 0, false),
        (JobStateEnum::Stopped, 1, true),
        (JobStateEnum::Running, 2, false),
        (JobStateEnum::Done, 3, true),
        (JobStateEnum::Failed, 4, true),
        (JobStateEnum::Cancelled, 5, true),
        (JobStateEnum::Updated, 6, false),
        (JobStateEnum::Draining, 7, false),
        (JobStateEnum::Drained, 8, true),
        (JobStateEnum::Starting, 9, false),
        (JobStateEnum::Cancelling, 10, false),
        (JobStateEnum::Updating, 11, false),
    ];
    for (state, number, terminal) in all {
        assert_eq!(job_state_event(state).state, number);
        assert_eq!(is_terminal_state(state), terminal);
        let step = if terminal {
            StreamStep::Close
        } else {
            StreamStep::AwaitChange
        };
        assert_eq!(stream_step(state), step);
    }
    let service = FlareJobService::with("i".to_string());
    assert_eq!(service.cancel().state, 5);
    let e = service.get_state("j").unwrap_err();
    assert_eq!(e, RpcStatus::not_found("unknown job_id: j".to_string()));
}

#[test]
fn the_state_of_an_unknown_job_stays_unknown() {
    let mut states = JobStates::new();
    states.set_job_state("j", JobStateEnum::Running);
    assert_eq!(states.current_job_state("j"), None);
    states.init_job_state("j");
    assert_eq!(states.current_job_state("j"), Some(JobStateEnum::Starting));
    states.set_job_state("j", JobStateEnum::Running);
    assert_eq!(states.current_job_state("j"), Some(JobStateEnum::Running));
}

#[test]
fn jobs_are_kept_by_their_ids() {
    let mut store = JobStore::new();
    assert_eq!(store.first_job_id(), None);
    let job = Job::of(graph(vec![]));
    assert!(job.job_id.starts_with("jobid"));
    assert!(job.job_id.len() > 5);
    store.add_job(&job.job_id, job.graph);
    assert_eq!(store.first_job_id(), Some(job.job_id.clone()));
    assert!(store.get_job(&job.job_id).is_some());
    assert!(store.get_job(&"other".to_string()).is_none());
}

#[test]
fn python_is_told_by_environments() {
    assert!(is_python(true, &environments(vec![])));
    assert!(!is_python(false, &environments(vec![])));
    assert!(is_python(false, &environments(vec![("a", "beam:env:process:v1", vec![])])));
    assert!(is_python(false, &environments(vec![("a", "my:python:env", vec![])])));
    assert!(!is_python(false, &environments(vec![("a", "my:pytho:env", vec![])])));
    assert!(!is_python(false, &environments(vec![("a", "pyt", vec![])])));
}

#[test]
fn the_interpreter_is_that_of_an_environment_or_the_configured_one() {
    let configured = Some("py3".to_string());
    let envs = environments(vec![
        ("a", "beam:env:docker:v1", process("not me")),
        ("b", "beam:env:process:v1", process("")),
        ("c", "beam:env:process:v1", process("python3.12")),
    ]);
    assert_eq!(python_interpreter(&envs, &configured), Some("python3.12".to_string()));
    let envs = environments(vec![("b", "beam:env:process:v1", vec![0xff])]);
    assert_eq!(python_interpreter(&envs, &configured), configured);
    assert_eq!(python_interpreter(&envs, &None), None);
    assert_eq!(usable_command(Some(String::new())), None);
    assert_eq!(usable_command(Some("x".to_string())), Some("x".to_string()));
}

// workers

fn manager() -> WorkerManager {
    WorkerManager::new(WorkerLaunchConfig {
        worker_jar: "/bin/worker.jar".to_string(),
        logs_dir: "/logs".to_string(),
        control_url: "127.0.0.1:8099".to_string(),
        pipeline_options: "{}".to_string(),
        connect_timeout_secs: 20,
        python_bin: None,
    })
}

#[test]
fn a_worker_needs_its_jars() {
    let manager = manager();
    assert!(manager.check_worker_jar(Ok(true)).is_ok());
    assert_eq!(
        manager.check_worker_jar(Ok(false)),
        Err(RpcStatus::internal("worker jar not found at /bin/worker.jar".to_string()))
    );
    assert_eq!(
        manager.check_worker_jar(Err("io".to_string())),
        Err(RpcStatus::internal("failed to stat worker jar: io".to_string()))
    );
    assert!(manager.check_staged_jar("/j", Ok(true)).is_ok());
    assert_eq!(
        manager.check_staged_jar("/j", Ok(false)),
        Err(RpcStatus::internal("staged artifact not found at /j".to_string()))
    );
    assert_eq!(
        manager.check_staged_jar("/j", Err("io".to_string())),
        Err(RpcStatus::internal("failed to stat staged artifact: io".to_string()))
    );
}

#[test]
fn a_worker_is_told_where_to_connect() {
    let launch = manager().spawn_worker("/base", "job1", "/staged.jar", "i1");
    assert_eq!(launch.program, "java");
    assert_eq!(
        launch.args,
        vec![
            "-cp",
            "/bin/worker.jar:/staged.jar",
            "org.apache.beam.fn.harness.FnHarness"
        ]
    );
    assert_eq!(launch.logs_dir, "/base/i1/job1/logs");
    assert_eq!(launch.log_path, "/base/i1/job1/logs/flare-worker.log");
    let url = "url: \"127.0.0.1:8099\"";
    let expected = [
        ("HARNESS_ID", "job1"),
        ("CONTROL_API_SERVICE_DESCRIPTOR", url),
        ("LOGGING_API_SERVICE_DESCRIPTOR", url),
        ("DATA_API_SERVICE_DESCRIPTOR", url),
        ("STATE_API_SERVICE_DESCRIPTOR", url),
        ("PIPELINE_OPTIONS", "{}"),
    ];
    let env: Vec<(&str, &str)> = launch.env.iter().map(|(k, v)| (k.as_str(), v.as_str())).collect();
    assert_eq!(env, expected);
    assert_eq!(manager().config().connect_timeout_secs, 20);
}

// tables

#[test]
fn a_reference_names_a_table() {
    assert_eq!(parse_table_name(" flare.default. words \n").unwrap(), "words");
    assert_eq!(parse_table_name("words").unwrap(), "words");
    assert_eq!(parse_table_name("a.b c").unwrap(), "b c");
    for reference in ["", "  ", "a.", "a. \t"] {
        let e = parse_table_name(reference).unwrap_err();
        assert_eq!(
            e,
            RpcStatus::invalid_argument(
                "Cannot derive a destination table name from the update statement".to_string()
            )
        );
    }
    assert_eq!(trim("\u{3000}x \u{a0}"), "x");
    assert_eq!(trim("x"), "x".trim());
    assert_eq!(last_segment("a.b"), "b");
    assert_eq!(last_segment("ab"), "ab");
}

// paths and state

#[test]
fn paths_stand_below_the_instance() {
    assert_eq!(join("a", "b"), "a/b");
    assert_eq!(join("a/", "b"), "a/b");
    assert_eq!(join("", "b"), "b");
    assert_eq!(join("a", "/b"), "/b");
    assert_eq!(instance_dir("/b", "i"), "/b/i");
    assert_eq!(job_dir("/b", "i", "j"), "/b/i/j");
    assert_eq!(artifacts_dir("/b", "i", "j"), "/b/i/j/artifacts");
    assert_eq!(artifacts_jar_dir("/b", "i", "j"), "/b/i/j/artifacts/jar");
    assert_eq!(store_dir("/b", "i", "j"), "/b/i/j/store");
    assert_eq!(logs_dir("/b", "i", "j"), "/b/i/j/logs");
    assert_eq!(
        debug_executable_graph_path("/b", "i", "j"),
        "/b/i/j/debug/executable_graph.dot"
    );
}

#[test]
fn the_base_directory_is_settled_by_the_first_call() {
    let mut base = BaseDir::new();
    let home = || Some("/home/me".to_string());
    assert_eq!(base.base_dir(None, home()), "/home/me/.flaredb");
    assert_eq!(base.base_dir(None, None), "./.flaredb");
    assert_eq!(base.base_dir(Some("/env".to_string()), home()), "/env");
    base.set_base_dir("/first");
    base.set_base_dir("/second");
    assert_eq!(base.base_dir(Some("/env".to_string()), home()), "/first");
}

#[test]
fn jobs_are_written_down_once() {
    assert_eq!(state_path("/b"), "/b/state.json");
    let state = record_job_state("/b", "i", "j1", None, 77);
    assert_eq!(state.pid, 77);
    assert_eq!(state.instance_id, "i");
    assert_eq!(state.port, 8099);
    assert_eq!(state.log_dir, "/b/i/logs");
    assert_eq!(state.jobs.len(), 1);
    assert_eq!(state.jobs[0].id, "j1");
    assert_eq!(state.jobs[0].worker_log, "/b/i/j1/logs/flare-worker.log");
    assert_eq!(state.jobs[0].flaredb_log, "/b/i/logs/flare-server.log");
    assert_eq!(state.jobs[0].graph, "/b/i/j1/debug/executable_graph.dot");

    let state = record_job_state("/b", "i", "j2", Some(state), 78);
    assert_eq!(state.pid, 77);
    let state = record_job_state("/c", "i", "j1", Some(state), 78);
    let ids: Vec<&str> = state.jobs.iter().map(|j| j.id.as_str()).collect();
    assert_eq!(ids, vec!["j1", "j2"]);
    assert_eq!(state.jobs[0].graph, "/c/i/j1/debug/executable_graph.dot");
}

#[test]
fn a_path_names_its_last_table() {
    let path = Some(vec!["flare".to_string(), "default".to_string(), " t1 ".to_string()]);
    assert_eq!(put_reference(&path), "flare.default. t1 ");
    assert_eq!(put_reference(&None), "");
    assert_eq!(put_destination(PutStart::Message(path)).unwrap(), "t1");
    assert_eq!(put_destination(PutStart::Message(Some(vec!["t2".to_string()]))).unwrap(), "t2");
}

#[test]
fn an_upload_without_a_table_is_refused() {
    let e = put_destination(PutStart::Message(None)).unwrap_err();
    assert_eq!(e.code, StatusCode::InvalidArgument);
    assert_eq!(
        e.message,
        "Cannot derive a destination table name from the update statement"
    );
    let e = put_destination(PutStart::Missing).unwrap_err();
    assert_eq!(e.code, StatusCode::InvalidArgument);
    assert_eq!(e.message, "DoPut stream is missing its FlightData descriptor");
}

#[test]
fn a_statement_is_found_under_its_handle() {
    let mut statements = Statements::new();
    let a = statements.prepare("SELECT 1".to_string());
    let b = statements.prepare("SELECT 2".to_string());
    assert_eq!(a.len(), 16);
    assert_ne!(a, b);
    assert_eq!(statements.resolve(&a).unwrap(), "SELECT 1");
    assert_eq!(statements.resolve(&b).unwrap(), "SELECT 2");
    let e = statements.resolve(&[1, 2, 3]).unwrap_err();
    assert_eq!(e.code, StatusCode::NotFound);
    assert_eq!(e.message, "Statement handle not found");
}
