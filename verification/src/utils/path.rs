//! Where an instance keeps its files.
use crate::text::{join2, join3};
use vstd::prelude::*;
use vstd::string::*;

verus! {

/// The path of `name` below `dir`. A name that starts at the root stands for
/// itself.
pub open spec fn joined(dir: Seq<char>, name: Seq<char>) -> Seq<char> {
    if name.len() > 0 && name[0] == '/' {
        name
    } else if dir.len() == 0 || dir.last() == '/' {
        dir + name
    } else {
        dir + "/"@ + name
    }
}

/// The path of `name` below `dir`.
pub fn join(dir: &str, name: &str) -> (r: String)
    ensures
        r@ == joined(dir@, name@),
{
    let n: usize = name.unicode_len();
    if n > 0 && name.get_char(0) == '/' {
        return name.to_string();
    }
    let d: usize = dir.unicode_len();
    if d == 0 || dir.get_char(d - 1) == '/' {
        join2(dir, name)
    } else {
        join3(dir, "/", name)
    }
}

/// The directory of all instances: the one that was set, else that of the
/// environment, else one in the home directory.
pub open spec fn base_of(
    set: Option<Seq<char>>,
    variable: Option<Seq<char>>,
    home: Option<Seq<char>>,
) -> Seq<char> {
    match (set, variable) {
        (Some(dir), _) => dir,
        (None, Some(dir)) => dir,
        (None, None) => joined(
            match home {
                Some(home) => home,
                None => "."@,
            },
            ".flaredb"@,
        ),
    }
}

/// An optional text as mathematics sees it.
pub open spec fn text_option(s: Option<String>) -> Option<Seq<char>> {
    match s {
        Some(s) => Some(s@),
        None => None,
    }
}

/// The directory of all instances, which the first call of `set_base_dir`
/// settles.
#[derive(Debug)]
pub struct BaseDir {
    pub chosen: Option<String>,
}

impl BaseDir {
    pub fn new() -> (r: BaseDir)
        ensures
            r.chosen is None,
    {
        BaseDir { chosen: None }
    }

    /// Sets the directory, unless it was set before.
    pub fn set_base_dir(&mut self, dir: &str)
        ensures
            text_option(final(self).chosen) == (if old(self).chosen is Some {
                text_option(old(self).chosen)
            } else {
                Some(dir@)
            }),
    {
        if self.chosen.is_none() {
            self.chosen = Some(dir.to_string());
        }
    }

    /// The directory of all instances, given what the environment says of
    /// `FLAREDB_BASE_DIR` and `HOME`.
    pub fn base_dir(&self, variable: Option<String>, home: Option<String>) -> (r: String)
        ensures
            r@ == base_of(text_option(self.chosen), text_option(variable), text_option(home)),
    {
        match &self.chosen {
            Some(dir) => dir.clone(),
            None => match variable {
                Some(dir) => dir,
                None => match home {
                    Some(home) => join(home.as_str(), ".flaredb"),
                    None => join(".", ".flaredb"),
                },
            },
        }
    }
}

/// The directory of an instance.
pub fn instance_dir(base: &str, instance_id: &str) -> (r: String)
    ensures
        r@ == joined(base@, instance_id@),
{
    join(base, instance_id)
}

/// The directory of a job.
pub open spec fn job_path(base: Seq<char>, instance_id: Seq<char>, job_id: Seq<char>) -> Seq<
    char,
> {
    joined(joined(base, instance_id), job_id)
}

/// The directory of a job.
pub fn job_dir(base: &str, instance_id: &str, job_id: &str) -> (r: String)
    ensures
        r@ == job_path(base@, instance_id@, job_id@),
{
    join(instance_dir(base, instance_id).as_str(), job_id)
}

/// The directory of the staged artifacts of a job.
pub fn artifacts_dir(base: &str, instance_id: &str, job_id: &str) -> (r: String)
    ensures
        r@ == joined(job_path(base@, instance_id@, job_id@), "artifacts"@),
{
    join(job_dir(base, instance_id, job_id).as_str(), "artifacts")
}

/// The directory of the staged jars of a job.
pub fn artifacts_jar_dir(base: &str, instance_id: &str, job_id: &str) -> (r: String)
    ensures
        r@ == joined(joined(job_path(base@, instance_id@, job_id@), "artifacts"@), "jar"@),
{
    join(artifacts_dir(base, instance_id, job_id).as_str(), "jar")
}

/// The directory of the collections of a job.
pub fn store_dir(base: &str, instance_id: &str, job_id: &str) -> (r: String)
    ensures
        r@ == joined(job_path(base@, instance_id@, job_id@), "store"@),
{
    join(job_dir(base, instance_id, job_id).as_str(), "store")
}

/// The directory of the logs of a job.
pub fn logs_dir(base: &str, instance_id: &str, job_id: &str) -> (r: String)
    ensures
        r@ == joined(job_path(base@, instance_id@, job_id@), "logs"@),
{
    join(job_dir(base, instance_id, job_id).as_str(), "logs")
}

/// Where the graph of a job is drawn.
pub open spec fn graph_path(base: Seq<char>, instance_id: Seq<char>, job_id: Seq<char>) -> Seq<
    char,
> {
    joined(joined(job_path(base, instance_id, job_id), "debug"@), "executable_graph.dot"@)
}

/// Where the graph of a job is drawn.
pub fn debug_executable_graph_path(base: &str, instance_id: &str, job_id: &str) -> (r: String)
    ensures
        r@ == graph_path(base@, instance_id@, job_id@),
{
    let debug = join(job_dir(base, instance_id, job_id).as_str(), "debug");
    join(debug.as_str(), "executable_graph.dot")
}

} // verus!
