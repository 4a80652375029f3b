//! What holds of the places of files.
use crate::state::{fresh_state, job_entry, job_from, with_job, JobStateV};
use crate::utils::path::{base_of, job_path, joined};
use vstd::prelude::*;
use vstd::string::*;

verus! {

/// Whether a text names a file or a directory below another: it is not empty, and no slash
/// stands at its ends.
pub open spec fn is_plain_name(s: Seq<char>) -> bool {
    s.len() > 0 && s[0] != '/' && s.last() != '/'
}

/// What is below a directory stands behind it and a slash, of which there is one between the
/// two; what starts at the root stands for itself.
pub proof fn joined_stands_below(dir: Seq<char>, name: Seq<char>)
    ensures
        name.len() > 0 && name[0] == '/' ==> joined(dir, name) == name,
        is_plain_name(name) && dir.len() > 0 && dir.last() != '/' ==> joined(dir, name) == dir + seq![
            '/',
        ] + name,
        is_plain_name(name) && dir.len() > 0 && dir.last() == '/' ==> joined(dir, name) == dir
            + name,
        is_plain_name(name) && dir.len() == 0 ==> joined(dir, name) == name,
        is_plain_name(name) ==> joined(dir, name).last() == name.last(),
{
    reveal_strlit("/");
    assert("/"@ =~= seq!['/']);
    if is_plain_name(name) {
        assert(joined(dir, name).last() == name.last());
        if dir.len() == 0 {
            assert(dir + name =~= name);
        }
    }
}

/// The directory that was set comes before that of the environment, which comes before the
/// one in the home directory; without a home it stands where the program runs.
pub proof fn set_comes_first(
    set: Option<Seq<char>>,
    variable: Option<Seq<char>>,
    home: Option<Seq<char>>,
)
    ensures
        set is Some ==> base_of(set, variable, home) == set->0,
        set is None && variable is Some ==> base_of(set, variable, home) == variable->0,
        set is None && variable is None && home is Some && is_plain_end(home->0) ==> base_of(
            set,
            variable,
            home,
        ) == home->0 + "/.flaredb"@,
        set is None && variable is None && home is None ==> base_of(set, variable, home)
            == "./.flaredb"@,
{
    reveal_strlit(".flaredb");
    reveal_strlit("/.flaredb");
    reveal_strlit("./.flaredb");
    reveal_strlit(".");
    reveal_strlit("/");
    if home is Some {
        assert(home->0 + "/"@ + ".flaredb"@ =~= home->0 + "/.flaredb"@);
    }
    assert("."@ + "/"@ + ".flaredb"@ =~= "./.flaredb"@);
}

/// Whether a text is not empty and does not end in a slash.
pub open spec fn is_plain_end(s: Seq<char>) -> bool {
    s.len() > 0 && s.last() != '/'
}

/// The log of a job's worker and its graph stand below the job, whose directory stands below
/// that of the instance; the log of the server stands below the instance.
pub proof fn logs_stand_below(base: Seq<char>, instance: Seq<char>, job: Seq<char>, pid: u32)
    requires
        is_plain_end(base),
        is_plain_name(instance),
        is_plain_name(job),
    ensures
        job_path(base, instance, job) == base + "/"@ + instance + "/"@ + job,
        job_entry(base, instance, job).id == job,
        job_entry(base, instance, job).worker_log == base + "/"@ + instance + "/"@ + job
            + "/logs/flare-worker.log"@,
        job_entry(base, instance, job).flaredb_log == base + "/"@ + instance
            + "/logs/flare-server.log"@,
        job_entry(base, instance, job).graph == base + "/"@ + instance + "/"@ + job
            + "/debug/executable_graph.dot"@,
        fresh_state(base, instance, pid).log_dir == base + "/"@ + instance + "/logs"@,
        fresh_state(base, instance, pid).pid == pid,
        fresh_state(base, instance, pid).port == 8099,
        fresh_state(base, instance, pid).instance_id == instance,
        fresh_state(base, instance, pid).jobs.len() == 0,
{
    reveal_strlit("/");
    reveal_strlit("logs");
    reveal_strlit("/logs");
    reveal_strlit("flare-worker.log");
    reveal_strlit("flare-server.log");
    reveal_strlit("/logs/flare-worker.log");
    reveal_strlit("/logs/flare-server.log");
    reveal_strlit("debug");
    reveal_strlit("executable_graph.dot");
    reveal_strlit("/debug/executable_graph.dot");
    let i = base + "/"@ + instance;
    let j = i + "/"@ + job;
    assert(joined(base, instance) == i);
    assert(i.last() == instance.last());
    assert(joined(i, job) == j);
    assert(j.last() == job.last());
    let jl = j + "/"@ + "logs"@;
    let il = i + "/"@ + "logs"@;
    assert(jl.last() == 's');
    assert(il.last() == 's');
    assert(jl + "/"@ + "flare-worker.log"@ =~= j + "/logs/flare-worker.log"@);
    assert(il + "/"@ + "flare-server.log"@ =~= i + "/logs/flare-server.log"@);
    assert(il =~= i + "/logs"@);
    let jd = j + "/"@ + "debug"@;
    assert(jd.last() == 'g');
    assert(jd + "/"@ + "executable_graph.dot"@ =~= j + "/debug/executable_graph.dot"@);
}

/// A job that is written down takes the place of the first job of its id, or stands last
/// where there is none; every other job stays where it is.
pub proof fn other_jobs_stay(jobs: Seq<JobStateV>, entry: JobStateV, i: int)
    requires
        0 <= i < jobs.len(),
    ensures
        jobs[i].id != entry.id ==> with_job(jobs, entry)[i] == jobs[i],
        jobs[i].id == entry.id && (forall|k: int|
            0 <= k < i ==> (#[trigger] jobs[k]).id != entry.id) ==> with_job(jobs, entry)
            == jobs.update(i, entry),
        (forall|k: int| 0 <= k < jobs.len() ==> (#[trigger] jobs[k]).id != entry.id) ==> with_job(
            jobs,
            entry,
        ) == jobs.push(entry),
{
    found_is_first(jobs, entry.id, 0);
}

proof fn found_is_first(jobs: Seq<JobStateV>, id: Seq<char>, i: int)
    requires
        0 <= i,
    ensures
        match job_from(jobs, id, i) {
            Some(at) => i <= at < jobs.len() && jobs[at].id == id && forall|k: int|
                i <= k < at ==> (#[trigger] jobs[k]).id != id,
            None => forall|k: int| i <= k < jobs.len() ==> (#[trigger] jobs[k]).id != id,
        },
    decreases jobs.len() - i,
{
    if i < jobs.len() && jobs[i].id != id {
        found_is_first(jobs, id, i + 1);
    }
}

} // verus!
