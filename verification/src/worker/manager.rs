//! How the processes that run user code are started.
use crate::jobservice::server::{RpcStatus, StatusCode};
use crate::text::{join2, join3};
use crate::utils::path::{job_path, joined, logs_dir};
use vstd::prelude::*;
use vstd::string::*;

verus! {

/// The class that a Java worker runs.
pub const HARNESS_CLASS: &'static str = "org.apache.beam.fn.harness.FnHarness";

/// How workers are started.
#[derive(Debug, Clone)]
pub struct WorkerLaunchConfig {
    pub worker_jar: String,
    pub logs_dir: String,
    pub control_url: String,
    pub pipeline_options: String,
    pub connect_timeout_secs: u64,
    pub python_bin: Option<String>,
}

/// The process that runs the user code of a job.
#[derive(Debug, Clone, PartialEq, Eq)]
pub enum WorkerRuntime {
    Python { python_bin: Option<String> },
    Java { staged_jar: String },
}

/// A command line with its environment, and where its output goes.
#[derive(Debug, PartialEq, Eq)]
pub struct WorkerLaunch {
    pub program: String,
    pub args: Vec<String>,
    pub env: Vec<(String, String)>,
    pub logs_dir: String,
    pub log_path: String,
}

/// Starts workers.
#[derive(Debug)]
pub struct WorkerManager {
    pub config: WorkerLaunchConfig,
}

/// Some pairs of texts as mathematics sees them.
pub open spec fn pairs_model(pairs: Seq<(String, String)>) -> Seq<(Seq<char>, Seq<char>)> {
    Seq::new(pairs.len(), |i: int| (pairs[i].0@, pairs[i].1@))
}

/// How a worker is told where a service is.
pub open spec fn service_descriptor(url: Seq<char>) -> Seq<char> {
    "url: \""@ + url + "\""@
}

/// The environment of a worker.
pub open spec fn worker_env(config: WorkerLaunchConfig, job_id: Seq<char>) -> Seq<
    (Seq<char>, Seq<char>),
> {
    let service = service_descriptor(config.control_url@);
    seq![
        ("HARNESS_ID"@, job_id),
        ("CONTROL_API_SERVICE_DESCRIPTOR"@, service),
        ("LOGGING_API_SERVICE_DESCRIPTOR"@, service),
        ("DATA_API_SERVICE_DESCRIPTOR"@, service),
        ("STATE_API_SERVICE_DESCRIPTOR"@, service),
        ("PIPELINE_OPTIONS"@, config.pipeline_options@),
    ]
}

/// Refuses a file that could not be looked at, or is not there.
fn must_exist(
    exists: Result<bool, String>,
    unseen: &str,
    missing: &str,
    path: &str,
) -> (r: Result<(), RpcStatus>)
    ensures
        r is Ok <==> exists == Ok::<bool, String>(true),
        r matches Err(e) ==> e.code == StatusCode::Internal && e.message@ == (match exists {
            Err(why) => unseen@ + why@,
            Ok(_) => missing@ + path@,
        }),
{
    match exists {
        Ok(true) => Ok(()),
        Ok(false) => Err(RpcStatus::internal(join2(missing, path))),
        Err(why) => Err(RpcStatus::internal(join2(unseen, why.as_str()))),
    }
}

impl WorkerManager {
    pub fn new(config: WorkerLaunchConfig) -> (r: WorkerManager)
        ensures
            r.config == config,
    {
        WorkerManager { config }
    }

    pub fn config(&self) -> (r: &WorkerLaunchConfig)
        ensures
            *r == self.config,
    {
        &self.config
    }

    /// Whether the jar of the worker is there, from what was found on looking.
    pub fn check_worker_jar(&self, exists: Result<bool, String>) -> (r: Result<(), RpcStatus>)
        ensures
            r is Ok <==> exists == Ok::<bool, String>(true),
            r matches Err(e) ==> e.code == StatusCode::Internal && e.message@ == (match exists {
                Err(why) => "failed to stat worker jar: "@ + why@,
                Ok(_) => "worker jar not found at "@ + self.config.worker_jar@,
            }),
    {
        must_exist(
            exists,
            "failed to stat worker jar: ",
            "worker jar not found at ",
            self.config.worker_jar.as_str(),
        )
    }

    /// Whether the staged artifact is there, from what was found on looking.
    pub fn check_staged_jar(&self, staged_jar: &str, exists: Result<bool, String>) -> (r: Result<
        (),
        RpcStatus,
    >)
        ensures
            r is Ok <==> exists == Ok::<bool, String>(true),
            r matches Err(e) ==> e.code == StatusCode::Internal && e.message@ == (match exists {
                Err(why) => "failed to stat staged artifact: "@ + why@,
                Ok(_) => "staged artifact not found at "@ + staged_jar@,
            }),
    {
        must_exist(
            exists,
            "failed to stat staged artifact: ",
            "staged artifact not found at ",
            staged_jar,
        )
    }

    /// The command that starts the Java worker of a job.
    pub fn spawn_worker(&self, base: &str, job_id: &str, staged_jar: &str, instance_id: &str) -> (r:
        WorkerLaunch)
        ensures
            r.program@ == "java"@,
            crate::named::texts(r.args@) == seq![
                "-cp"@,
                self.config.worker_jar@ + ":"@ + staged_jar@,
                HARNESS_CLASS@,
            ],
            pairs_model(r.env@) == worker_env(self.config, job_id@),
            r.logs_dir@ == joined(job_path(base@, instance_id@, job_id@), "logs"@),
            r.log_path@ == r.logs_dir@ + "/flare-worker.log"@,
    {
        let logs = logs_dir(base, instance_id, job_id);
        let log_path = join2(logs.as_str(), "/flare-worker.log");
        let mut args: Vec<String> = Vec::new();
        args.push("-cp".to_string());
        args.push(join3(self.config.worker_jar.as_str(), ":", staged_jar));
        args.push(HARNESS_CLASS.to_string());
        let service = join3("url: \"", self.config.control_url.as_str(), "\"");
        let mut env: Vec<(String, String)> = Vec::new();
        env.push(("HARNESS_ID".to_string(), job_id.to_string()));
        env.push(("CONTROL_API_SERVICE_DESCRIPTOR".to_string(), service.clone()));
        env.push(("LOGGING_API_SERVICE_DESCRIPTOR".to_string(), service.clone()));
        env.push(("DATA_API_SERVICE_DESCRIPTOR".to_string(), service.clone()));
        env.push(("STATE_API_SERVICE_DESCRIPTOR".to_string(), service));
        env.push(("PIPELINE_OPTIONS".to_string(), self.config.pipeline_options.clone()));
        proof {
            assert(crate::named::texts(args@) =~= seq![
                "-cp"@,
                self.config.worker_jar@ + ":"@ + staged_jar@,
                HARNESS_CLASS@,
            ]);
            assert(pairs_model(env@) =~= worker_env(self.config, job_id@));
        }
        WorkerLaunch { program: "java".to_string(), args, env, logs_dir: logs, log_path }
    }
}

} // verus!
