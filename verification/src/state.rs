//! What an instance writes down of itself and its jobs.
use crate::text::same_text;
use crate::utils::path::{
    debug_executable_graph_path, graph_path, instance_dir, join, job_path, joined, logs_dir,
};
use vstd::prelude::*;
use vstd::string::*;

verus! {

/// The port that an instance serves on.
pub const INSTANCE_PORT: u16 = 8099;

/// What is written down of a job.
#[derive(Debug, Clone)]
pub struct JobState {
    pub id: String,
    pub worker_log: String,
    pub flaredb_log: String,
    pub graph: String,
}

/// What is written down of an instance.
#[derive(Debug, Clone)]
pub struct State {
    pub pid: u32,
    pub instance_id: String,
    pub port: u16,
    pub log_dir: String,
    pub jobs: Vec<JobState>,
}

#[verifier::ext_equal]
pub struct JobStateV {
    pub id: Seq<char>,
    pub worker_log: Seq<char>,
    pub flaredb_log: Seq<char>,
    pub graph: Seq<char>,
}

#[verifier::ext_equal]
pub struct StateV {
    pub pid: u32,
    pub instance_id: Seq<char>,
    pub port: u16,
    pub log_dir: Seq<char>,
    pub jobs: Seq<JobStateV>,
}

impl JobState {
    pub open spec fn model(self) -> JobStateV {
        JobStateV {
            id: self.id@,
            worker_log: self.worker_log@,
            flaredb_log: self.flaredb_log@,
            graph: self.graph@,
        }
    }
}

/// The models of some jobs.
pub open spec fn jobs_model(jobs: Seq<JobState>) -> Seq<JobStateV> {
    Seq::new(jobs.len(), |i: int| jobs[i].model())
}

impl State {
    pub open spec fn model(self) -> StateV {
        StateV {
            pid: self.pid,
            instance_id: self.instance_id@,
            port: self.port,
            log_dir: self.log_dir@,
            jobs: jobs_model(self.jobs@),
        }
    }
}

/// What is written down of a job: where its logs are, and its graph.
pub open spec fn job_entry(base: Seq<char>, instance_id: Seq<char>, job_id: Seq<char>) -> JobStateV {
    JobStateV {
        id: job_id,
        worker_log: joined(
            joined(job_path(base, instance_id, job_id), "logs"@),
            "flare-worker.log"@,
        ),
        flaredb_log: joined(
            joined(joined(base, instance_id), "logs"@),
            "flare-server.log"@,
        ),
        graph: graph_path(base, instance_id, job_id),
    }
}

/// What is written down of an instance without jobs.
pub open spec fn fresh_state(base: Seq<char>, instance_id: Seq<char>, pid: u32) -> StateV {
    StateV {
        pid,
        instance_id,
        port: INSTANCE_PORT,
        log_dir: joined(joined(base, instance_id), "logs"@),
        jobs: Seq::empty(),
    }
}

/// The place of the first job of that id at or behind a place.
pub open spec fn job_from(jobs: Seq<JobStateV>, id: Seq<char>, i: int) -> Option<int>
    decreases jobs.len() - i,
{
    if i < 0 || i >= jobs.len() {
        None
    } else if jobs[i].id == id {
        Some(i)
    } else {
        job_from(jobs, id, i + 1)
    }
}

/// The jobs with an entry in place of the first of its id, or behind the others
/// where there is none.
pub open spec fn with_job(jobs: Seq<JobStateV>, entry: JobStateV) -> Seq<JobStateV> {
    match job_from(jobs, entry.id, 0) {
        Some(i) => jobs.update(i, entry),
        None => jobs.push(entry),
    }
}

/// Where the state of all instances is written down.
pub fn state_path(base: &str) -> (r: String)
    ensures
        r@ == joined(base@, "state.json"@),
{
    join(base, "state.json")
}

/// What is to be written down once a job is known. `written` is what was written
/// down before, where that could be read.
pub fn record_job_state(
    base: &str,
    instance_id: &str,
    job_id: &str,
    written: Option<State>,
    pid: u32,
) -> (r: State)
    ensures
        ({
            let before = match written {
                Some(state) => state.model(),
                None => fresh_state(base@, instance_id@, pid),
            };
            r.model() == (StateV {
                jobs: with_job(before.jobs, job_entry(base@, instance_id@, job_id@)),
                ..before
            })
        }),
{
    let logs = logs_dir(base, instance_id, job_id);
    let server_logs = join(instance_dir(base, instance_id).as_str(), "logs");
    let entry = JobState {
        id: job_id.to_string(),
        worker_log: join(logs.as_str(), "flare-worker.log"),
        flaredb_log: join(server_logs.as_str(), "flare-server.log"),
        graph: debug_executable_graph_path(base, instance_id, job_id),
    };
    let mut state = match written {
        Some(state) => state,
        None => State {
            pid,
            instance_id: instance_id.to_string(),
            port: INSTANCE_PORT,
            log_dir: server_logs,
            jobs: Vec::new(),
        },
    };
    let ghost before = state.model();
    proof {
        if written is None {
            assert(before =~= fresh_state(base@, instance_id@, pid));
        }
    }
    let n: usize = state.jobs.len();
    let mut i: usize = 0;
    while i < n
        invariant_except_break
            i <= n,
            job_from(before.jobs, job_id@, 0) == job_from(before.jobs, job_id@, i as int),
        invariant
            n == state.jobs@.len(),
            before == state.model(),
        ensures
            i < n ==> job_from(before.jobs, job_id@, 0) == Some(i as int),
            i >= n ==> job_from(before.jobs, job_id@, 0) is None,
        decreases n - i,
    {
        assert(before.jobs[i as int] == state.jobs@[i as int].model());
        if same_text(state.jobs[i].id.as_str(), job_id) {
            break;
        }
        i = i + 1;
    }
    let ghost jobs = state.jobs@;
    if i < n {
        state.jobs.set(i, entry);
        assert(jobs_model(state.jobs@) =~= jobs_model(jobs).update(i as int, entry.model()));
    } else {
        state.jobs.push(entry);
        assert(jobs_model(state.jobs@) =~= jobs_model(jobs).push(entry.model()));
    }
    state
}

/// The place found is one of the places, and the job there has the id.
proof fn job_from_is_there(jobs: Seq<JobStateV>, id: Seq<char>, i: int)
    requires
        0 <= i,
    ensures
        match job_from(jobs, id, i) {
            Some(at) => i <= at < jobs.len() && jobs[at].id == id,
            None => forall|j: int| i <= j < jobs.len() ==> (#[trigger] jobs[j]).id != id,
        },
    decreases jobs.len() - i,
{
    if i < jobs.len() && jobs[i].id != id {
        job_from_is_there(jobs, id, i + 1);
    }
}

/// No two jobs have one id.
pub open spec fn ids_differ(jobs: Seq<JobStateV>) -> bool {
    forall|i: int, j: int|
        0 <= i < j < jobs.len() ==> (#[trigger] jobs[i]).id != (#[trigger] jobs[j]).id
}

/// Writing a job down keeps every other job, keeps the ids apart, and to write it
/// down twice is to write it down once.
pub proof fn jobs_stay_apart(jobs: Seq<JobStateV>, entry: JobStateV)
    requires
        ids_differ(jobs),
    ensures
        ids_differ(with_job(jobs, entry)),
        with_job(jobs, entry).contains(entry),
        forall|job: JobStateV|
            job.id != entry.id ==> (#[trigger] jobs.contains(job) <==> with_job(
                jobs,
                entry,
            ).contains(job)),
        with_job(with_job(jobs, entry), entry) == with_job(jobs, entry),
{
    let after = with_job(jobs, entry);
    job_from_is_there(jobs, entry.id, 0);
    job_from_is_there(after, entry.id, 0);
    match job_from(jobs, entry.id, 0) {
        Some(at) => {
            assert(after[at] == entry);
            assert forall|job: JobStateV| job.id != entry.id implies (#[trigger] jobs.contains(job)
                <==> after.contains(job)) by {
                if jobs.contains(job) {
                    let i = choose|i: int| 0 <= i < jobs.len() && jobs[i] == job;
                    assert(after[i] == job);
                }
                if after.contains(job) {
                    let i = choose|i: int| 0 <= i < after.len() && after[i] == job;
                    assert(jobs[i] == job);
                }
            }
            assert(job_from(after, entry.id, 0) is Some) by {
                assert(after[at].id == entry.id);
            }
            let found = job_from(after, entry.id, 0)->Some_0;
            assert(found == at);
            assert(after.update(at, entry) =~= after);
        },
        None => {
            let last = jobs.len() as int;
            assert(after[last] == entry);
            assert forall|job: JobStateV| job.id != entry.id implies (#[trigger] jobs.contains(job)
                <==> after.contains(job)) by {
                if jobs.contains(job) {
                    let i = choose|i: int| 0 <= i < jobs.len() && jobs[i] == job;
                    assert(after[i] == job);
                }
                if after.contains(job) {
                    let i = choose|i: int| 0 <= i < after.len() && after[i] == job;
                    assert(jobs[i] == job);
                }
            }
            assert(job_from(after, entry.id, 0) is Some) by {
                assert(after[last].id == entry.id);
            }
            let found = job_from(after, entry.id, 0)->Some_0;
            assert(found == last) by {
                if found < last {
                    assert(jobs[found] == after[found]);
                }
            }
            assert(after.update(last, entry) =~= after);
        },
    }
}

} // verus!
