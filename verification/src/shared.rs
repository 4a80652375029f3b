//! The maps and sets that an instance keeps its state in.
use crate::engine::graph::ExecutableGraph;
use crate::jobservice::server::JobStateEnum;
use crate::store::table::RecordTableSchema;
use dashmap::{DashMap, DashSet};
use std::sync::Arc;
use vstd::prelude::*;
use vstd::string::*;

verus! {

/// `dashmap::DashMap`: a map that can be shared.
#[verifier::external_type_specification]
#[verifier::external_body]
#[verifier::reject_recursive_types(K)]
#[verifier::reject_recursive_types(V)]
#[verifier::reject_recursive_types(S)]
pub struct ExDashMap<K, V, S>(DashMap<K, V, S>);

/// `dashmap::DashSet`: a set that can be shared.
#[verifier::external_type_specification]
#[verifier::external_body]
#[verifier::reject_recursive_types(K)]
#[verifier::reject_recursive_types(S)]
pub struct ExDashSet<K, S>(DashSet<K, S>);

// The layouts of collections, by the id of the collection.

/// The layouts in a map.
pub uninterp spec fn layouts_in(m: DashMap<String, Arc<RecordTableSchema>>) -> Map<
    Seq<char>,
    RecordTableSchema,
>;

/// `DashMap::new`: a map without layouts.
#[verifier::external_body]
pub(crate) fn new_layouts() -> (r: DashMap<String, Arc<RecordTableSchema>>)
    ensures
        layouts_in(r) == (Map::<Seq<char>, RecordTableSchema>::empty()),
{
    DashMap::new()
}

/// `DashMap::get`: the layout under the id, where there is one.
#[verifier::external_body]
pub(crate) fn layout_get(m: &DashMap<String, Arc<RecordTableSchema>>, id: &str) -> (r: Option<
    Arc<RecordTableSchema>,
>)
    ensures
        match r {
            Some(s) => layouts_in(*m).contains_key(id@) && layouts_in(*m)[id@] == *s,
            None => !layouts_in(*m).contains_key(id@),
        },
{
    m.get(id).map(|entry| Arc::clone(entry.value()))
}

/// `DashMap::insert`: the layout stands under the id, in place of another.
#[verifier::external_body]
pub(crate) fn layout_insert(
    m: &mut DashMap<String, Arc<RecordTableSchema>>,
    id: String,
    schema: Arc<RecordTableSchema>,
)
    ensures
        layouts_in(*final(m)) == layouts_in(*old(m)).insert(id@, *schema),
{
    m.insert(id, schema);
}

/// `DashMap::entry` with `or_insert`: the layout stands under the id unless one
/// was there.
#[verifier::external_body]
pub(crate) fn layout_insert_new(
    m: &mut DashMap<String, Arc<RecordTableSchema>>,
    id: String,
    schema: Arc<RecordTableSchema>,
)
    ensures
        layouts_in(*final(m)) == (if layouts_in(*old(m)).contains_key(id@) {
            layouts_in(*old(m))
        } else {
            layouts_in(*old(m)).insert(id@, *schema)
        }),
{
    m.entry(id).or_insert(schema);
}

/// `DashMap::clear`: nothing is left.
#[verifier::external_body]
pub(crate) fn layouts_clear(m: &mut DashMap<String, Arc<RecordTableSchema>>)
    ensures
        layouts_in(*final(m)) == (Map::<Seq<char>, RecordTableSchema>::empty()),
{
    m.clear();
}

// The graphs of jobs, by the id of the job.

/// The graphs in a map.
pub uninterp spec fn graphs_in(m: DashMap<String, Arc<ExecutableGraph>>) -> Map<
    Seq<char>,
    ExecutableGraph,
>;

/// `DashMap::new`: a map without graphs.
#[verifier::external_body]
pub(crate) fn new_graphs() -> (r: DashMap<String, Arc<ExecutableGraph>>)
    ensures
        graphs_in(r) == (Map::<Seq<char>, ExecutableGraph>::empty()),
{
    DashMap::new()
}

/// `DashMap::insert`: the graph stands under the id, in place of another.
#[verifier::external_body]
pub(crate) fn graph_insert(
    m: &mut DashMap<String, Arc<ExecutableGraph>>,
    id: String,
    graph: Arc<ExecutableGraph>,
)
    ensures
        graphs_in(*final(m)) == graphs_in(*old(m)).insert(id@, *graph),
{
    m.insert(id, graph);
}

/// `DashMap::get`: the graph under the id, where there is one.
#[verifier::external_body]
pub(crate) fn graph_get(m: &DashMap<String, Arc<ExecutableGraph>>, id: &str) -> (r: Option<
    Arc<ExecutableGraph>,
>)
    ensures
        match r {
            Some(g) => graphs_in(*m).contains_key(id@) && graphs_in(*m)[id@] == *g,
            None => !graphs_in(*m).contains_key(id@),
        },
{
    m.get(id).map(|entry| Arc::clone(entry.value()))
}

/// `DashMap::iter` and its first entry: some id of the map, where it has any.
/// Which one is left open.
#[verifier::external_body]
pub(crate) fn some_graph_id(m: &DashMap<String, Arc<ExecutableGraph>>) -> (r: Option<String>)
    ensures
        match r {
            Some(id) => graphs_in(*m).contains_key(id@),
            None => graphs_in(*m) == (Map::<Seq<char>, ExecutableGraph>::empty()),
        },
{
    m.iter().next().map(|entry| entry.key().clone())
}

// The states of jobs, by the id of the job.

/// The states in a map.
pub uninterp spec fn states_in(m: DashMap<String, JobStateEnum>) -> Map<Seq<char>, JobStateEnum>;

/// `DashMap::new`: a map without states.
#[verifier::external_body]
pub(crate) fn new_states() -> (r: DashMap<String, JobStateEnum>)
    ensures
        states_in(r) == (Map::<Seq<char>, JobStateEnum>::empty()),
{
    DashMap::new()
}

/// `DashMap::insert`: the state stands under the id, in place of another.
#[verifier::external_body]
pub(crate) fn state_insert(m: &mut DashMap<String, JobStateEnum>, id: String, state: JobStateEnum)
    ensures
        states_in(*final(m)) == states_in(*old(m)).insert(id@, state),
{
    m.insert(id, state);
}

/// `DashMap::get`: the state under the id, where there is one.
#[verifier::external_body]
pub(crate) fn state_get(m: &DashMap<String, JobStateEnum>, id: &str) -> (r: Option<JobStateEnum>)
    ensures
        match r {
            Some(s) => states_in(*m).contains_key(id@) && states_in(*m)[id@] == s,
            None => !states_in(*m).contains_key(id@),
        },
{
    m.get(id).map(|entry| *entry.value())
}

// The statements of clients, by their handles.

/// The statements in a map.
pub uninterp spec fn queries_in(m: DashMap<Vec<u8>, String>) -> Map<Seq<u8>, Seq<char>>;

/// `DashMap::new`: a map without statements.
#[verifier::external_body]
pub(crate) fn new_queries() -> (r: DashMap<Vec<u8>, String>)
    ensures
        queries_in(r) == (Map::<Seq<u8>, Seq<char>>::empty()),
{
    DashMap::new()
}

/// `DashMap::insert`: the statement stands under the handle, in place of another.
#[verifier::external_body]
pub(crate) fn query_insert(m: &mut DashMap<Vec<u8>, String>, handle: Vec<u8>, query: String)
    ensures
        queries_in(*final(m)) == queries_in(*old(m)).insert(handle@, query@),
{
    m.insert(handle, query);
}

/// `DashMap::get`: the statement under the handle, where there is one.
#[verifier::external_body]
pub(crate) fn query_get(m: &DashMap<Vec<u8>, String>, handle: &[u8]) -> (r: Option<String>)
    ensures
        match r {
            Some(q) => queries_in(*m).contains_key(handle@) && queries_in(*m)[handle@] == q@,
            None => !queries_in(*m).contains_key(handle@),
        },
{
    m.get(handle).map(|entry| entry.value().clone())
}

// The numbers of the streams of elements, by an instruction and, of elements, a
// transform.

/// The numbers in a map.
pub uninterp spec fn streams_in(m: DashMap<(String, Option<String>), usize>) -> Map<
    (Seq<char>, Option<Seq<char>>),
    usize,
>;

/// A key as mathematics sees it.
pub open spec fn stream_key(key: (String, Option<String>)) -> (Seq<char>, Option<Seq<char>>) {
    (
        key.0@,
        match key.1 {
            Some(transform) => Some(transform@),
            None => None,
        },
    )
}

/// `DashMap::new`: a map without numbers.
#[verifier::external_body]
pub(crate) fn new_streams() -> (r: DashMap<(String, Option<String>), usize>)
    ensures
        streams_in(r) == (Map::<(Seq<char>, Option<Seq<char>>), usize>::empty()),
{
    DashMap::new()
}

/// `DashMap::get`: the number under the key, where there is one.
#[verifier::external_body]
pub(crate) fn stream_get(
    m: &DashMap<(String, Option<String>), usize>,
    key: &(String, Option<String>),
) -> (r: Option<usize>)
    ensures
        match r {
            Some(n) => streams_in(*m).contains_key(stream_key(*key)) && streams_in(*m)[stream_key(
                *key,
            )] == n,
            None => !streams_in(*m).contains_key(stream_key(*key)),
        },
{
    m.get(key).map(|entry| *entry.value())
}

/// `DashMap::insert`: the number stands under the key, in place of another.
#[verifier::external_body]
pub(crate) fn stream_insert(
    m: &mut DashMap<(String, Option<String>), usize>,
    key: (String, Option<String>),
    number: usize,
)
    ensures
        streams_in(*final(m)) == streams_in(*old(m)).insert(stream_key(key), number),
{
    m.insert(key, number);
}

/// `DashMap::len`: how many keys there are.
#[verifier::external_body]
pub(crate) fn streams_len(m: &DashMap<(String, Option<String>), usize>) -> (r: usize)
    ensures
        r == streams_in(*m).dom().len(),
{
    m.len()
}

/// `DashMap::clear`: nothing is left.
#[verifier::external_body]
pub(crate) fn streams_clear(m: &mut DashMap<(String, Option<String>), usize>)
    ensures
        streams_in(*final(m)) == (Map::<(Seq<char>, Option<Seq<char>>), usize>::empty()),
{
    m.clear();
}

// The tokens of staging sessions.

/// The tokens in a set.
pub uninterp spec fn tokens_in(s: DashSet<String>) -> Set<Seq<char>>;

/// `DashSet::new`: a set without tokens.
#[verifier::external_body]
pub(crate) fn new_tokens() -> (r: DashSet<String>)
    ensures
        tokens_in(r) == Set::<Seq<char>>::empty(),
{
    DashSet::new()
}

/// `DashSet::insert`: the token is in the set.
#[verifier::external_body]
pub(crate) fn token_insert(s: &mut DashSet<String>, token: String)
    ensures
        tokens_in(*final(s)) == tokens_in(*old(s)).insert(token@),
{
    s.insert(token);
}

/// `DashSet::contains`: whether the token is in the set.
#[verifier::external_body]
pub(crate) fn token_contains(s: &DashSet<String>, token: &str) -> (r: bool)
    ensures
        r == tokens_in(*s).contains(token@),
{
    s.contains(token)
}

} // verus!
