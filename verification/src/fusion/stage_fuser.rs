//! How far a stage reaches.
use crate::fusion::fuser::{
    can_fuse, collection_fuses, runs_in, same_environment, PCollectionFusibility,
};
use crate::fusion::groups::node_at;
use crate::fusion::payload::{shown_environment, shows_environment};
use crate::fusion::idset::{
    id_set_contains, id_set_insert, id_set_into_ids, id_set_items, new_id_set,
};
use crate::fusion::pipeline::{
    consumes, environment_of, gives, par_do_of, produces, readable, refs_names,
    refuses_side_inputs, side_inputs_resolve,
    side_names, state_names, timer_names, urn_of_transform, QueryablePipeline,
};
use crate::jobservice::urns;
use crate::fusion::refs::{SideInputRef, TimerRef, UserStateRef};
use crate::fusion::sanitize::{sanitize_dangling_ptransform_inputs, sanitized, taken_one_more};
use crate::fusion::stage::{node_ids, pcol_ids, ExecutableStage};
use crate::model::{ComponentsV, Environment, EnvironmentV, PCollectionNode, PTransformNode, PcolV};
use crate::named::{names, texts};
use crate::text::{join2, join3};
use crate::utils::errors::BeamTranslationError;
use indexmap::IndexSet;
use vstd::prelude::*;
use vstd::string::*;

verus! {

/// Whether some transforms and collections are closed for a stage of this
/// environment that starts with `initial`: the outputs of the transforms are among
/// the collections, and the consumers of the collections that can be kept inside
/// are among the transforms.
pub open spec fn stage_closed(
    c: ComponentsV,
    env: Seq<char>,
    initial: Seq<Seq<char>>,
    ts: Set<Seq<char>>,
    ps: Set<Seq<char>>,
) -> bool {
    &&& forall|t: Seq<char>| #[trigger] initial.contains(t) ==> ts.contains(t)
    &&& forall|t: Seq<char>, p: Seq<char>|
        ts.contains(t) && #[trigger] produces(c, t, p) ==> ps.contains(p)
    &&& forall|p: Seq<char>, t: Seq<char>|
        ps.contains(p) && collection_fuses(c, p, env) && #[trigger] consumes(c, t, p)
            ==> ts.contains(t)
}

/// Whether these are the transforms that a stage reaches, and the collections: the
/// least that are closed.
pub open spec fn stage_reaches(
    c: ComponentsV,
    env: Seq<char>,
    initial: Seq<Seq<char>>,
    ts: Set<Seq<char>>,
    ps: Set<Seq<char>>,
) -> bool {
    &&& stage_closed(c, env, initial, ts, ps)
    &&& forall|xs: Set<Seq<char>>, ys: Set<Seq<char>>|
        #[trigger]
        stage_closed(c, env, initial, xs, ys) ==> ts.subset_of(xs) && ps.subset_of(ys)
}

/// A stage reaches one set of transforms and one of collections.
pub proof fn reach_is_unique(
    c: ComponentsV,
    env: Seq<char>,
    initial: Seq<Seq<char>>,
    ts: Set<Seq<char>>,
    ps: Set<Seq<char>>,
    xs: Set<Seq<char>>,
    ys: Set<Seq<char>>,
)
    requires
        stage_reaches(c, env, initial, ts, ps),
        stage_reaches(c, env, initial, xs, ys),
    ensures
        ts == xs,
        ps == ys,
{
    assert(ts =~= xs);
    assert(ps =~= ys);
}

/// Whether the references are the side inputs of these transforms.
pub open spec fn side_inputs_of(
    c: ComponentsV,
    ids: Seq<Seq<char>>,
    refs: Seq<SideInputRef>,
) -> bool {
    &&& forall|i: int|
        0 <= i < refs.len() ==> (#[trigger] refs[i]).wf() && ids.contains(refs[i].transform.id@)
            && refs[i].points_at(c, node_at(c, refs[i].transform.id@)) && side_names(
            c.transforms[refs[i].transform.id@],
        ).contains(refs[i].local_name@)
    &&& forall|t: Seq<char>, n: Seq<char>|
        ids.contains(t) && #[trigger] side_names(c.transforms[t]).contains(n) ==> exists|i: int|
            0 <= i < refs.len() && (#[trigger] refs[i]).transform.id@ == t && refs[i].local_name@
                == n
}

/// Whether the references are the states of these transforms.
pub open spec fn states_of(
    c: ComponentsV,
    ids: Seq<Seq<char>>,
    refs: Seq<UserStateRef>,
) -> bool {
    &&& forall|i: int|
        0 <= i < refs.len() ==> (#[trigger] refs[i]).transform.wf() && ids.contains(
            refs[i].transform.id@,
        ) && refs[i].transform.model() == node_at(c, refs[i].transform.id@) && par_do_of(
            c.transforms[refs[i].transform.id@],
        ) is Some && par_do_of(c.transforms[refs[i].transform.id@])->0.state_specs.contains(
            refs[i].local_name@,
        )
    &&& forall|t: Seq<char>, n: Seq<char>|
        ids.contains(t) && par_do_of(c.transforms[t]) is Some && #[trigger] par_do_of(
            c.transforms[t],
        )->0.state_specs.contains(n) ==> exists|i: int|
            0 <= i < refs.len() && (#[trigger] refs[i]).transform.id@ == t && refs[i].local_name@
                == n
}

/// Whether the references are the timers of these transforms.
pub open spec fn timers_of(c: ComponentsV, ids: Seq<Seq<char>>, refs: Seq<TimerRef>) -> bool {
    &&& forall|i: int|
        0 <= i < refs.len() ==> (#[trigger] refs[i]).transform.wf() && ids.contains(
            refs[i].transform.id@,
        ) && refs[i].transform.model() == node_at(c, refs[i].transform.id@) && par_do_of(
            c.transforms[refs[i].transform.id@],
        ) is Some && par_do_of(c.transforms[refs[i].transform.id@])->0.timer_families.contains(
            refs[i].local_name@,
        )
    &&& forall|t: Seq<char>, n: Seq<char>|
        ids.contains(t) && par_do_of(c.transforms[t]) is Some && #[trigger] par_do_of(
            c.transforms[t],
        )->0.timer_families.contains(n) ==> exists|i: int|
            0 <= i < refs.len() && (#[trigger] refs[i]).transform.id@ == t && refs[i].local_name@
                == n
}

/// A collection of the pipeline.
pub open spec fn pcol_at(c: ComponentsV, id: Seq<char>) -> PcolV {
    PcolV { id, collection: c.pcollections[id] }
}

/// Whether the nodes are transforms of the pipeline, each once.
pub open spec fn are_nodes(c: ComponentsV, nodes: Seq<PTransformNode>) -> bool {
    &&& node_ids(nodes).no_duplicates()
    &&& forall|i: int|
        0 <= i < nodes.len() ==> c.transforms.contains_key((#[trigger] nodes[i]).id@)
            && nodes[i].model() == node_at(c, nodes[i].id@)
}

/// Whether the nodes are collections of the pipeline, each once.
pub open spec fn are_pcols(c: ComponentsV, nodes: Seq<PCollectionNode>) -> bool {
    &&& pcol_ids(nodes).no_duplicates()
    &&& forall|i: int|
        0 <= i < nodes.len() ==> c.pcollections.contains_key((#[trigger] nodes[i]).id@)
            && nodes[i].model() == pcol_at(c, nodes[i].id@)
}

/// Whether `s` is the stage that reads `input` and starts with `initial`: it holds
/// all transforms that it reaches, and writes out the collections that it reaches
/// and that cannot be kept inside.
pub open spec fn is_stage(
    c: ComponentsV,
    input: Seq<char>,
    initial: Seq<Seq<char>>,
    s: ExecutableStage,
) -> bool {
    &&& s.components.model() == c
    &&& environment_of(c, c.transforms[initial[0]]) == Some(s.environment.model())
    &&& s.wire_coder@.len() == 0
    &&& s.input_pcol.model() == pcol_at(c, input)
    &&& are_nodes(c, s.transforms@)
    &&& are_pcols(c, s.output_pcols@)
    &&& side_inputs_of(c, node_ids(s.transforms@), s.side_inputs@)
    &&& states_of(c, initial, s.user_states@)
    &&& timers_of(c, initial, s.timers@)
    &&& exists|ts: Set<Seq<char>>, ps: Set<Seq<char>>|
        #[trigger]
        stage_reaches(c, s.environment.urn@, initial, ts, ps) && node_ids(s.transforms@).to_set()
            == ts && forall|p: Seq<char>|
            #[trigger]
            pcol_ids(s.output_pcols@).contains(p) <==> ps.contains(p) && !collection_fuses(
                c,
                p,
                s.environment.urn@,
            )
}

/// Whether the transforms have one environment, of one kind.
pub open spec fn have_environment(c: ComponentsV, ids: Seq<Seq<char>>) -> bool {
    environment_of(c, c.transforms[ids[0]]) is Some && forall|i: int|
        0 <= i < ids.len() ==> runs_in(
            c,
            c.transforms[#[trigger] ids[i]],
            environment_of(c, c.transforms[ids[0]])->0.urn,
        )
}

/// Whether a stage can be made of these transforms: there are some, they have one
/// environment, and the side inputs of all that it reaches can be told.
pub open spec fn can_be_stage(c: ComponentsV, initial: Seq<Seq<char>>) -> bool {
    &&& initial.len() > 0
    &&& have_environment(c, initial)
    &&& forall|ts: Set<Seq<char>>, ps: Set<Seq<char>>, t: Seq<char>|
        #[trigger]
        stage_reaches(c, environment_of(c, c.transforms[initial[0]])->0.urn, initial, ts, ps)
            && #[trigger] ts.contains(t) ==> side_inputs_resolve(c, c.transforms[t])
}

/// What is said of transforms without an environment.
pub open spec fn no_environment_text() -> Seq<char> {
    "Environment must be populated on all PTransformNodes in GreedyStageFuser"@
}

/// Whether this is what is said of transforms in environments of two kinds.
pub open spec fn tells_environments(a: EnvironmentV, b: EnvironmentV, m: Seq<char>) -> bool {
    exists|x: Seq<char>, y: Seq<char>| #[trigger]
        shows_environment(a, x) && #[trigger] shows_environment(b, y) && m
            == "All PTransformNodes in an ExecutableStage must be the same. Got "@ + x + " and "@
            + y
}

/// Whether this is why the transforms from the `i`th on are not all in an environment of
/// the kind.
pub open spec fn refuses_environment_from(
    c: ComponentsV,
    ids: Seq<Seq<char>>,
    env: EnvironmentV,
    i: nat,
    m: Seq<char>,
) -> bool
    decreases ids.len() - i,
{
    if i >= ids.len() {
        false
    } else {
        match environment_of(c, c.transforms[ids[i as int]]) {
            None => m == no_environment_text(),
            Some(e) => if e.urn != env.urn {
                tells_environments(env, e, m)
            } else {
                refuses_environment_from(c, ids, env, i + 1, m)
            },
        }
    }
}

/// Whether this is why a stage that starts with these transforms has no environment.
pub open spec fn refuses_environment(c: ComponentsV, ids: Seq<Seq<char>>, m: Seq<char>) -> bool {
    match environment_of(c, c.transforms[ids[0]]) {
        None => m == no_environment_text(),
        Some(env) => refuses_environment_from(c, ids, env, 0, m),
    }
}

/// Whether this is why no stage can be made of these transforms: there are none, they have
/// no environment in common, or the side inputs of one that the stage reaches cannot be
/// told.
pub open spec fn refuses_stage(
    c: ComponentsV,
    initial: Seq<Seq<char>>,
    e: BeamTranslationError,
) -> bool {
    if initial.len() == 0 {
        e matches BeamTranslationError::InvalidArgument(m) && m@
            == "must contain atleast one element GreedyStageFuser"@
    } else if !have_environment(c, initial) {
        e matches BeamTranslationError::InvalidArgument(m) && refuses_environment(c, initial, m@)
    } else {
        exists|ts: Set<Seq<char>>, ps: Set<Seq<char>>, t: Seq<char>|
            #[trigger]
            stage_reaches(c, environment_of(c, c.transforms[initial[0]])->0.urn, initial, ts, ps)
                && #[trigger] ts.contains(t) && refuses_side_inputs(c, node_at(c, t), e)
    }
}

/// Nothing is refused of which a stage can be made.
pub proof fn refusals_are_due(c: ComponentsV, initial: Seq<Seq<char>>, e: BeamTranslationError)
    requires
        refuses_stage(c, initial, e),
    ensures
        !can_be_stage(c, initial),
{
}

/// The environment of a stage that starts with these transforms.
pub fn get_stage_environment(pipeline: &QueryablePipeline, initial: &Vec<String>) -> (r: Result<
    Environment,
    BeamTranslationError,
>)
    requires
        pipeline.wf(),
        initial@.len() > 0,
        forall|i: int|
            0 <= i < initial@.len() ==> pipeline.model().transforms.contains_key(
                (#[trigger] initial@[i])@,
            ),
    ensures
        match r {
            Ok(e) => have_environment(pipeline.model(), texts(initial@)) && environment_of(
                pipeline.model(),
                pipeline.model().transforms[initial@[0]@],
            ) == Some(e.model()),
            Err(e) => !have_environment(pipeline.model(), texts(initial@)) && (
            e matches BeamTranslationError::InvalidArgument(m) && refuses_environment(
                pipeline.model(),
                texts(initial@),
                m@,
            )),
        },
{
    let ghost c = pipeline.model();
    let ghost ids = texts(initial@);
    let env: Environment = match pipeline.components.transforms.get(initial[0].as_str()) {
        Some(t) => match pipeline.get_environment(t) {
            Some(e) => e.duplicate(),
            None => {
                assert(ids[0] == initial@[0]@);
                return Err(
                    BeamTranslationError::InvalidArgument(
                        "Environment must be populated on all PTransformNodes in GreedyStageFuser".to_owned(),
                    ),
                );
            },
        },
        None => {
            assert(pipeline.model().transforms.contains_key(initial@[0]@));
            return Err(BeamTranslationError::InvalidArgument(String::new()));
        },
    };
    assert(ids[0] == initial@[0]@);
    let n: usize = initial.len();
    let mut i: usize = 0;
    while i < n
        invariant
            pipeline.wf(),
            c == pipeline.model(),
            ids == texts(initial@),
            n == initial@.len(),
            n > 0,
            i <= n,
            ids[0] == initial@[0]@,
            environment_of(c, c.transforms[ids[0]]) == Some(env.model()),
            forall|m: Seq<char>| #[trigger]
                refuses_environment(c, ids, m) == refuses_environment_from(
                    c,
                    ids,
                    env.model(),
                    i as nat,
                    m,
                ),
            forall|j: int|
                0 <= j < n ==> pipeline.model().transforms.contains_key((#[trigger] initial@[j])@),
            forall|j: int| 0 <= j < i ==> runs_in(c, c.transforms[#[trigger] ids[j]], env.urn@),
        decreases n - i,
    {
        assert(ids[i as int] == initial@[i as int]@);
        assert(pipeline.model().transforms.contains_key(initial@[i as int]@));
        let other: Option<&Environment> = match pipeline.components.transforms.get(
            initial[i].as_str(),
        ) {
            Some(t) => pipeline.get_environment(t),
            None => None,
        };
        match other {
            Some(e) => {
                if !same_environment(&env, e) {
                    assert(!runs_in(c, c.transforms[ids[i as int]], env.urn@));
                    let a = shown_environment(&env);
                    let b = shown_environment(e);
                    let start = join2(
                        "All PTransformNodes in an ExecutableStage must be the same. Got ",
                        a.as_str(),
                    );
                    let told = join3(start.as_str(), " and ", b.as_str());
                    proof {
                        assert(shows_environment(env.model(), a@) && shows_environment(
                            e.model(),
                            b@,
                        ));
                        assert(tells_environments(env.model(), e.model(), told@));
                        assert(refuses_environment(c, ids, told@));
                    }
                    return Err(BeamTranslationError::InvalidArgument(told));
                }
            },
            None => {
                assert(!runs_in(c, c.transforms[ids[i as int]], env.urn@));
                return Err(
                    BeamTranslationError::InvalidArgument(
                        "Environment must be populated on all PTransformNodes in GreedyStageFuser".to_owned(),
                    ),
                );
            },
        }
        i = i + 1;
    }
    Ok(env)
}

/// What a stage reaches: its transforms, and the collections that it writes out.
pub struct Reach {
    pub transforms: Vec<String>,
    pub outputs: Vec<String>,
}

/// There are no more different ids than names among which they are.
pub proof fn ids_among(ids: Seq<Seq<char>>, among: Seq<Seq<char>>)
    requires
        ids.no_duplicates(),
        forall|x: Seq<char>| #[trigger] ids.contains(x) ==> among.contains(x),
    ensures
        ids.len() <= among.len(),
{
    ids.unique_seq_to_set();
    among.lemma_cardinality_of_set();
    assert(ids.to_set().subset_of(among.to_set()));
    vstd::set_lib::lemma_len_subset(ids.to_set(), among.to_set());
}

/// Inserting an id into a list without duplicates.
pub open spec fn with_id(s: Seq<Seq<char>>, id: Seq<char>) -> Seq<Seq<char>> {
    if s.contains(id) {
        s
    } else {
        s.push(id)
    }
}

pub proof fn with_id_holds(s: Seq<Seq<char>>, id: Seq<char>)
    ensures
        forall|x: Seq<char>|
            #[trigger]
            with_id(s, id).contains(x) <==> s.contains(x) || x == id,
        s.no_duplicates() ==> with_id(s, id).no_duplicates(),
{
    let t = with_id(s, id);
    if !s.contains(id) {
        assert forall|x: Seq<char>| #[trigger] t.contains(x) <==> s.contains(x) || x == id by {
            if s.contains(x) {
                let i = choose|i: int| 0 <= i < s.len() && s[i] == x;
                assert(t[i] == x);
            }
            if x == id {
                assert(t[s.len() as int] == x);
            }
            if t.contains(x) {
                let i = choose|i: int| 0 <= i < t.len() && t[i] == x;
                if i < s.len() {
                    assert(s[i] == x);
                }
            }
        }
        if s.no_duplicates() {
            assert forall|i: int, j: int|
                0 <= i < t.len() && 0 <= j < t.len() && i != j implies t[i] != t[j] by {
                if i < s.len() && j < s.len() {
                    assert(s[i] != s[j]);
                } else if i < s.len() {
                    assert(s.contains(s[i]));
                } else if j < s.len() {
                    assert(s.contains(s[j]));
                }
            }
        }
    }
}

/// Adds ids to a set.
fn insert_all(set: &mut IndexSet<String>, ids: &Vec<String>)
    requires
        id_set_items(*old(set)).no_duplicates(),
    ensures
        id_set_items(*final(set)).no_duplicates(),
        forall|x: Seq<char>|
            #[trigger]
            id_set_items(*final(set)).contains(x) <==> id_set_items(*old(set)).contains(x)
                || texts(ids@).contains(x),
{
    let ghost start = id_set_items(*set);
    let n: usize = ids.len();
    let mut i: usize = 0;
    assert(texts(ids@).take(0) =~= seq![]);
    while i < n
        invariant
            n == ids@.len(),
            i <= n,
            id_set_items(*set).no_duplicates(),
            forall|x: Seq<char>|
                #[trigger]
                id_set_items(*set).contains(x) <==> start.contains(x) || texts(ids@).take(
                    i as int,
                ).contains(x),
        decreases n - i,
    {
        proof {
            with_id_holds(id_set_items(*set), ids@[i as int]@);
            taken_one_more(texts(ids@), i as int);
            assert(texts(ids@)[i as int] == ids@[i as int]@);
        }
        let _ = id_set_insert(set, ids[i].clone());
        i = i + 1;
    }
    assert(texts(ids@).take(n as int) =~= texts(ids@));
}

/// The outputs of some transforms of the pipeline.
fn outputs_of_all(pipeline: &QueryablePipeline, ids: &Vec<String>) -> (r: Vec<String>)
    requires
        pipeline.wf(),
        forall|x: Seq<char>|
            #[trigger]
            texts(ids@).contains(x) ==> pipeline.model().transforms.contains_key(x),
    ensures
        forall|p: Seq<char>|
            #[trigger]
            texts(r@).contains(p) <==> exists|t: Seq<char>|
                texts(ids@).contains(t) && #[trigger] produces(pipeline.model(), t, p),
{
    let ghost c = pipeline.model();
    let n: usize = ids.len();
    let mut out: Vec<String> = Vec::new();
    let mut i: usize = 0;
    assert forall|p: Seq<char>| !#[trigger] texts(out@).contains(p) by {
        assert(texts(out@).len() == 0);
    }
    while i < n
        invariant
            pipeline.wf(),
            c == pipeline.model(),
            n == ids@.len(),
            i <= n,
            forall|x: Seq<char>| #[trigger] texts(ids@).contains(x) ==> c.transforms.contains_key(x),
            forall|p: Seq<char>|
                #[trigger]
                texts(out@).contains(p) <==> exists|j: int|
                    0 <= j < i && produces(c, (#[trigger] ids@[j])@, p),
        decreases n - i,
    {
        let ghost t = ids@[i as int]@;
        let ghost before = texts(out@);
        proof {
            assert(texts(ids@)[i as int] == t);
            assert(texts(ids@).contains(t));
        }
        match pipeline.node(ids[i].as_str()) {
            Some(node) => {
                let outputs: Vec<String> = pipeline.output_ids(&node.transform);
                push_all(&mut out, &outputs);
                proof {
                    assert forall|p: Seq<char>|
                        #[trigger]
                        texts(out@).contains(p) <==> before.contains(p) || produces(c, t, p) by {
                        assert(texts(outputs@).contains(p) == gives(c, c.transforms[t], p));
                    }
                }
            },
            None => {},
        }
        proof {
            assert forall|p: Seq<char>|
                #[trigger]
                texts(out@).contains(p) <==> exists|j: int|
                    0 <= j < i + 1 && produces(c, (#[trigger] ids@[j])@, p) by {
                if texts(out@).contains(p) {
                    if before.contains(p) {
                        let j = choose|j: int| 0 <= j < i && produces(c, (#[trigger] ids@[j])@, p);
                        assert(produces(c, ids@[j]@, p));
                    } else {
                        assert(produces(c, ids@[i as int]@, p));
                    }
                }
                if exists|j: int| 0 <= j < i + 1 && produces(c, (#[trigger] ids@[j])@, p) {
                    let j = choose|j: int| 0 <= j < i + 1 && produces(c, (#[trigger] ids@[j])@, p);
                    if j < i {
                        assert(before.contains(p));
                    }
                }
            }
        }
        i = i + 1;
    }
    proof {
        assert forall|p: Seq<char>|
            #[trigger]
            texts(out@).contains(p) <==> exists|t: Seq<char>|
                texts(ids@).contains(t) && #[trigger] produces(c, t, p) by {
            if texts(out@).contains(p) {
                let j = choose|j: int| 0 <= j < n && produces(c, (#[trigger] ids@[j])@, p);
                assert(texts(ids@)[j] == ids@[j]@);
                assert(texts(ids@).contains(ids@[j]@));
                assert(produces(c, ids@[j]@, p));
            }
            if exists|t: Seq<char>| texts(ids@).contains(t) && #[trigger] produces(c, t, p) {
                let t = choose|t: Seq<char>|
                    texts(ids@).contains(t) && #[trigger] produces(c, t, p);
                let j = choose|j: int| 0 <= j < texts(ids@).len() && texts(ids@)[j] == t;
                assert(ids@[j]@ == t);
            }
        }
    }
    out
}

/// Adds texts at the end.
fn push_all(out: &mut Vec<String>, more: &Vec<String>)
    ensures
        final(out)@.len() == old(out)@.len() + more@.len(),
        texts(final(out)@) == texts(old(out)@) + texts(more@),
        forall|p: Seq<char>|
            #[trigger]
            texts(final(out)@).contains(p) <==> texts(old(out)@).contains(p) || texts(
                more@,
            ).contains(p),
{
    let ghost start = out@;
    let n: usize = more.len();
    let mut i: usize = 0;
    assert(texts(out@) =~= texts(start) + texts(more@).take(0));
    while i < n
        invariant
            n == more@.len(),
            i <= n,
            out@.len() == start.len() + i,
            texts(out@) == texts(start) + texts(more@).take(i as int),
        decreases n - i,
    {
        let ghost before = out@;
        out.push(more[i].clone());
        proof {
            assert(texts(out@) =~= texts(before).push(more@[i as int]@));
            assert(texts(more@).take(i + 1) =~= texts(more@).take(i as int).push(
                more@[i as int]@,
            ));
            assert(texts(out@) =~= texts(start) + texts(more@).take(i + 1));
        }
        i = i + 1;
    }
    proof {
        assert(texts(more@).take(n as int) =~= texts(more@));
        let a = texts(start);
        let b = texts(more@);
        assert forall|p: Seq<char>|
            #[trigger]
            texts(out@).contains(p) <==> a.contains(p) || b.contains(p) by {
            if a.contains(p) {
                let j = choose|j: int| 0 <= j < a.len() && a[j] == p;
                assert((a + b)[j] == p);
            }
            if b.contains(p) {
                let j = choose|j: int| 0 <= j < b.len() && b[j] == p;
                assert((a + b)[a.len() + j] == p);
            }
            if (a + b).contains(p) {
                let j = choose|j: int| 0 <= j < (a + b).len() && (a + b)[j] == p;
                if j < a.len() {
                    assert(a[j] == p);
                } else {
                    assert(b[j - a.len()] == p);
                }
            }
        }
    }
}

/// Whether the text stands at or behind `head`.
pub open spec fn waits(queue: Seq<String>, head: int, p: Seq<char>) -> bool {
    exists|k: int| head <= k < queue.len() && (#[trigger] queue[k])@ == p
}

/// Follows the outputs of the transforms as far as the stage reaches.
#[verifier::rlimit(80)]
pub fn reach(pipeline: &QueryablePipeline, env: &Environment, initial: &Vec<String>) -> (r: Reach)
    requires
        pipeline.wf(),
        forall|x: Seq<char>|
            #[trigger]
            texts(initial@).contains(x) ==> pipeline.model().transforms.contains_key(x),
    ensures
        texts(r.transforms@).no_duplicates(),
        texts(r.outputs@).no_duplicates(),
        forall|x: Seq<char>|
            #[trigger]
            texts(r.transforms@).contains(x) ==> pipeline.model().transforms.contains_key(x),
        forall|x: Seq<char>|
            #[trigger]
            texts(r.outputs@).contains(x) ==> pipeline.model().pcollections.contains_key(x),
        exists|ps: Set<Seq<char>>|
            #[trigger]
            stage_reaches(
                pipeline.model(),
                env.urn@,
                texts(initial@),
                texts(r.transforms@).to_set(),
                ps,
            ) && forall|p: Seq<char>|
                #[trigger]
                texts(r.outputs@).contains(p) <==> ps.contains(p) && !collection_fuses(
                    pipeline.model(),
                    p,
                    env.urn@,
                ),
{
    let ghost c = pipeline.model();
    let ghost e = env.urn@;
    let ghost init = texts(initial@);
    let mut fused: IndexSet<String> = new_id_set();
    insert_all(&mut fused, initial);
    let mut inside: IndexSet<String> = new_id_set();
    let mut outside: IndexSet<String> = new_id_set();
    let mut queue: Vec<String> = outputs_of_all(pipeline, initial);
    let mut head: usize = 0;
    let ghost all_pcols = names(pipeline.components.pcollections.entries@);
    proof {
        assert forall|xs: Set<Seq<char>>, ys: Set<Seq<char>>, p: Seq<char>|
            #[trigger]
            stage_closed(c, e, init, xs, ys) && #[trigger] waits(queue@, 0, p) implies ys.contains(
            p,
        ) by {
            let k = choose|k: int| 0 <= k < queue@.len() && (#[trigger] queue@[k])@ == p;
            assert(texts(queue@)[k] == p);
            assert(texts(queue@).contains(p));
            let t = choose|t: Seq<char>| init.contains(t) && #[trigger] produces(c, t, p);
            assert(xs.contains(t));
        }
        assert forall|t: Seq<char>, p: Seq<char>|
            id_set_items(fused).contains(t) && #[trigger] produces(c, t, p) implies waits(
            queue@,
            0,
            p,
        ) by {
            assert(init.contains(t));
            assert(texts(queue@).contains(p));
            let k = choose|k: int| 0 <= k < texts(queue@).len() && texts(queue@)[k] == p;
            assert(queue@[k]@ == p);
        }
        assert forall|p: Seq<char>| #[trigger] waits(queue@, 0, p) implies
            c.pcollections.contains_key(p) by {
            let k = choose|k: int| 0 <= k < queue@.len() && (#[trigger] queue@[k])@ == p;
            assert(texts(queue@)[k] == p);
            assert(texts(queue@).contains(p));
            let t = choose|t: Seq<char>| init.contains(t) && #[trigger] produces(c, t, p);
        }
    }
    while head < queue.len()
        invariant
            pipeline.wf(),
            c == pipeline.model(),
            e == env.urn@,
            init == texts(initial@),
            all_pcols == names(pipeline.components.pcollections.entries@),
            head <= queue@.len(),
            id_set_items(fused).no_duplicates(),
            id_set_items(inside).no_duplicates(),
            id_set_items(outside).no_duplicates(),
            forall|t: Seq<char>| #[trigger] init.contains(t) ==> id_set_items(fused).contains(t),
            forall|t: Seq<char>|
                #[trigger]
                id_set_items(fused).contains(t) ==> c.transforms.contains_key(t),
            forall|p: Seq<char>|
                #[trigger]
                id_set_items(inside).contains(p) ==> c.pcollections.contains_key(p)
                    && collection_fuses(c, p, e),
            forall|p: Seq<char>|
                #[trigger]
                id_set_items(outside).contains(p) ==> c.pcollections.contains_key(p)
                    && !collection_fuses(c, p, e),
            forall|p: Seq<char>|
                #[trigger]
                waits(queue@, head as int, p) ==> c.pcollections.contains_key(p),
            forall|p: Seq<char>, t: Seq<char>|
                id_set_items(inside).contains(p) && #[trigger] consumes(c, t, p) ==> id_set_items(
                    fused,
                ).contains(t),
            forall|t: Seq<char>, p: Seq<char>|
                id_set_items(fused).contains(t) && #[trigger] produces(c, t, p) ==> id_set_items(
                    inside,
                ).contains(p) || id_set_items(outside).contains(p) || waits(
                    queue@,
                    head as int,
                    p,
                ),
            forall|xs: Set<Seq<char>>, ys: Set<Seq<char>>, t: Seq<char>|
                #[trigger]
                stage_closed(c, e, init, xs, ys) && #[trigger] id_set_items(fused).contains(t)
                    ==> xs.contains(t),
            forall|xs: Set<Seq<char>>, ys: Set<Seq<char>>, p: Seq<char>|
                #[trigger]
                stage_closed(c, e, init, xs, ys) && #[trigger] id_set_items(inside).contains(p)
                    ==> ys.contains(p),
            forall|xs: Set<Seq<char>>, ys: Set<Seq<char>>, p: Seq<char>|
                #[trigger]
                stage_closed(c, e, init, xs, ys) && #[trigger] id_set_items(outside).contains(p)
                    ==> ys.contains(p),
            forall|xs: Set<Seq<char>>, ys: Set<Seq<char>>, p: Seq<char>|
                #[trigger]
                stage_closed(c, e, init, xs, ys) && #[trigger] waits(queue@, head as int, p)
                    ==> ys.contains(p),
        decreases
                all_pcols.len() + 1 - id_set_items(inside).len(),
                queue@.len() - head,
    {
        let ghost p0 = queue@[head as int]@;
        let ghost old_queue = queue@;
        let ghost old_head = head as int;
        let ghost fused0 = id_set_items(fused);
        let ghost inside0 = id_set_items(inside);
        let ghost outside0 = id_set_items(outside);
        proof {
            assert(waits(queue@, head as int, p0));
            inside_bound(*pipeline, inside0);
        }
        let candidate: String = queue[head].clone();
        head = head + 1;
        if id_set_contains(&inside, candidate.as_str()) || id_set_contains(
            &outside,
            candidate.as_str(),
        ) {
            proof {
                waits_after(old_queue, old_head);
            }
            continue ;
        }
        match can_fuse(pipeline, candidate.as_str(), env) {
            PCollectionFusibility::FUSE => {
                let consumers: Vec<String> = pipeline.per_element_consumer_ids(
                    candidate.as_str(),
                );
                proof {
                    assert forall|x: Seq<char>| #[trigger] texts(consumers@).contains(x) implies
                        c.transforms.contains_key(x) by {
                        assert(consumes(c, x, p0));
                    }
                }
                let outputs: Vec<String> = outputs_of_all(pipeline, &consumers);
                push_all(&mut queue, &outputs);
                insert_all(&mut fused, &consumers);
                let _ = id_set_insert(&mut inside, candidate);
                proof {
                    with_id_holds(inside0, p0);
                    assert(id_set_items(inside) == inside0.push(p0));
                    waits_extended(old_queue, old_head, queue@, outputs@);
                    inside_bound(*pipeline, id_set_items(inside));
                    assert forall|t: Seq<char>| #[trigger] id_set_items(fused).contains(
                        t,
                    ) implies c.transforms.contains_key(t) by {
                        if !fused0.contains(t) {
                            assert(texts(consumers@).contains(t));
                        }
                    }
                    assert forall|p: Seq<char>, t: Seq<char>|
                        id_set_items(inside).contains(p) && #[trigger] consumes(
                            c,
                            t,
                            p,
                        ) implies id_set_items(fused).contains(t) by {
                        if p == p0 {
                            assert(texts(consumers@).contains(t));
                        }
                    }
                    assert forall|p: Seq<char>| #[trigger] waits(
                        queue@,
                        head as int,
                        p,
                    ) implies c.pcollections.contains_key(p) by {
                        if !waits(old_queue, old_head, p) {
                            assert(texts(outputs@).contains(p));
                            let t = choose|t: Seq<char>|
                                texts(consumers@).contains(t) && #[trigger] produces(c, t, p);
                        }
                    }
                    assert forall|t: Seq<char>, p: Seq<char>|
                        id_set_items(fused).contains(t) && #[trigger] produces(
                            c,
                            t,
                            p,
                        ) implies id_set_items(inside).contains(p) || id_set_items(
                        outside,
                    ).contains(p) || waits(queue@, head as int, p) by {
                        if fused0.contains(t) {
                            if p != p0 {
                            }
                        } else {
                            assert(texts(consumers@).contains(t));
                            assert(texts(outputs@).contains(p));
                        }
                    }
                    assert forall|xs: Set<Seq<char>>, ys: Set<Seq<char>>, t: Seq<char>|
                        #[trigger]
                        stage_closed(c, e, init, xs, ys) && #[trigger] id_set_items(
                            fused,
                        ).contains(t) implies xs.contains(t) by {
                        assert(ys.contains(p0));
                        if !fused0.contains(t) {
                            assert(texts(consumers@).contains(t));
                            assert(consumes(c, t, p0));
                        }
                    }
                    assert forall|xs: Set<Seq<char>>, ys: Set<Seq<char>>, p: Seq<char>|
                        #[trigger]
                        stage_closed(c, e, init, xs, ys) && #[trigger] waits(
                            queue@,
                            head as int,
                            p,
                        ) implies ys.contains(p) by {
                        assert(ys.contains(p0));
                        if !waits(old_queue, old_head, p) {
                            assert(texts(outputs@).contains(p));
                            let t = choose|t: Seq<char>|
                                texts(consumers@).contains(t) && #[trigger] produces(c, t, p);
                            assert(consumes(c, t, p0));
                            assert(xs.contains(t));
                        }
                    }
                }
            },
            PCollectionFusibility::MATERIALIZE => {
                let _ = id_set_insert(&mut outside, candidate);
                proof {
                    with_id_holds(outside0, p0);
                    waits_after(old_queue, old_head);
                }
            },
        }
    }
    proof {
        let ts = id_set_items(fused).to_set();
        let ps = id_set_items(inside).to_set().union(id_set_items(outside).to_set());
        assert forall|p: Seq<char>| !#[trigger] waits(queue@, head as int, p) by {}
        assert(stage_closed(c, e, init, ts, ps));
        assert(stage_reaches(c, e, init, ts, ps));
    }
    let ghost out_items = id_set_items(outside);
    let ghost in_items = id_set_items(inside);
    let ghost t_items = id_set_items(fused);
    let transforms: Vec<String> = id_set_into_ids(fused);
    let outputs: Vec<String> = id_set_into_ids(outside);
    proof {
        let ps = in_items.to_set().union(out_items.to_set());
        assert(stage_reaches(c, e, init, texts(transforms@).to_set(), ps));
        assert forall|p: Seq<char>|
            #[trigger]
            texts(outputs@).contains(p) <==> ps.contains(p) && !collection_fuses(c, p, e) by {}
    }
    Reach { transforms, outputs }
}

/// There are no more collections inside a stage than the pipeline has.
proof fn inside_bound(pipeline: QueryablePipeline, ids: Seq<Seq<char>>)
    requires
        pipeline.wf(),
        ids.no_duplicates(),
        forall|p: Seq<char>|
            #[trigger]
            ids.contains(p) ==> pipeline.model().pcollections.contains_key(p),
    ensures
        ids.len() <= names(pipeline.components.pcollections.entries@).len(),
{
    let among = names(pipeline.components.pcollections.entries@);
    assert forall|x: Seq<char>| #[trigger] ids.contains(x) implies among.contains(x) by {
        assert(pipeline.components.pcollections@.contains_key(x));
    }
    ids_among(ids, among);
}

proof fn waits_after(queue: Seq<String>, head: int)
    requires
        0 <= head < queue.len(),
    ensures
        forall|p: Seq<char>|
            #[trigger]
            waits(queue, head, p) <==> waits(queue, head + 1, p) || p == queue[head]@,
        forall|p: Seq<char>| #[trigger] waits(queue, head + 1, p) ==> waits(queue, head, p),
{
    assert forall|p: Seq<char>|
        #[trigger]
        waits(queue, head, p) <==> waits(queue, head + 1, p) || p == queue[head]@ by {
        if waits(queue, head, p) {
            let k = choose|k: int| head <= k < queue.len() && (#[trigger] queue[k])@ == p;
            if k > head {
                assert(waits(queue, head + 1, p));
            }
        }
        if waits(queue, head + 1, p) {
            let k = choose|k: int| head + 1 <= k < queue.len() && (#[trigger] queue[k])@ == p;
            assert(queue[k]@ == p);
        }
        if p == queue[head]@ {
            assert(waits(queue, head, p));
        }
    }
    assert forall|p: Seq<char>| #[trigger] waits(queue, head + 1, p) implies waits(
        queue,
        head,
        p,
    ) by {
        let k = choose|k: int| head + 1 <= k < queue.len() && (#[trigger] queue[k])@ == p;
        assert(queue[k]@ == p);
    }
}

proof fn waits_extended(
    old_queue: Seq<String>,
    head: int,
    queue: Seq<String>,
    more: Seq<String>,
)
    requires
        0 <= head < old_queue.len(),
        queue.len() == old_queue.len() + more.len(),
        texts(queue) == texts(old_queue) + texts(more),
    ensures
        forall|p: Seq<char>|
            #[trigger]
            waits(queue, head + 1, p) <==> waits(old_queue, head + 1, p) || texts(more).contains(
                p,
            ),
        forall|p: Seq<char>|
            #[trigger]
            waits(old_queue, head, p) && p != old_queue[head]@ ==> waits(queue, head + 1, p),
        forall|p: Seq<char>|
            #[trigger]
            waits(queue, head + 1, p) ==> waits(old_queue, head, p) || texts(more).contains(p),
{
    waits_after(old_queue, head);
    assert forall|p: Seq<char>|
        #[trigger]
        waits(queue, head + 1, p) <==> waits(old_queue, head + 1, p) || texts(more).contains(
            p,
        ) by {
        if waits(queue, head + 1, p) {
            let k = choose|k: int| head + 1 <= k < queue.len() && (#[trigger] queue[k])@ == p;
            assert(texts(queue)[k] == p);
            if k < old_queue.len() {
                assert(texts(old_queue)[k] == p);
                assert(old_queue[k]@ == p);
            } else {
                assert(texts(more)[k - old_queue.len()] == p);
            }
        }
        if waits(old_queue, head + 1, p) {
            let k = choose|k: int|
                head + 1 <= k < old_queue.len() && (#[trigger] old_queue[k])@ == p;
            assert(texts(old_queue)[k] == p);
            assert(texts(queue)[k] == p);
            assert(queue[k]@ == p);
        }
        if texts(more).contains(p) {
            let k = choose|k: int| 0 <= k < texts(more).len() && texts(more)[k] == p;
            assert(texts(queue)[old_queue.len() + k] == p);
            assert(queue[old_queue.len() + k]@ == p);
        }
    }
}

/// The side inputs of some transforms.
fn gather_side_inputs(pipeline: &QueryablePipeline, ids: &Vec<String>) -> (r: Result<
    Vec<SideInputRef>,
    BeamTranslationError,
>)
    requires
        pipeline.wf(),
        forall|x: Seq<char>|
            #[trigger]
            texts(ids@).contains(x) ==> pipeline.model().transforms.contains_key(x),
    ensures
        match r {
            Ok(refs) => side_inputs_of(pipeline.model(), texts(ids@), refs@) && forall|t: Seq<char>|
                #[trigger]
                texts(ids@).contains(t) ==> side_inputs_resolve(pipeline.model(), pipeline.model().transforms[t]),
            Err(e) => exists|t: Seq<char>|
                #[trigger]
                texts(ids@).contains(t) && refuses_side_inputs(
                    pipeline.model(),
                    node_at(pipeline.model(), t),
                    e,
                ),
        },
{
    let ghost c = pipeline.model();
    let ghost all = texts(ids@);
    let n: usize = ids.len();
    let mut out: Vec<SideInputRef> = Vec::new();
    let mut i: usize = 0;
    assert(all.take(0) =~= seq![]);
    while i < n
        invariant
            pipeline.wf(),
            c == pipeline.model(),
            all == texts(ids@),
            n == ids@.len(),
            i <= n,
            forall|x: Seq<char>| #[trigger] all.contains(x) ==> c.transforms.contains_key(x),
            side_inputs_of(c, all.take(i as int), out@),
            forall|j: int|
                0 <= j < i ==> {
                    let t = #[trigger] all[j];
                    side_inputs_resolve(c, c.transforms[t])
                },
        decreases n - i,
    {
        let ghost t0 = ids@[i as int]@;
        let ghost before = out@;
        proof {
            assert(all[i as int] == t0);
            assert(all.contains(t0));
            taken_one_more(all, i as int);
        }
        match pipeline.node(ids[i].as_str()) {
            Some(node) => {
                assert(node.model() == node_at(c, t0));
                match pipeline.get_side_inputs(&node) {
                    Ok(more) => {
                        let mut refs: Vec<SideInputRef> = more;
                        let ghost added = refs@;
                        out.append(&mut refs);
                        proof {
                            assert forall|k: int| 0 <= k < out@.len() implies (#[trigger] out@[k]).wf() && all.take(i + 1).contains(out@[k].transform.id@) && out@[k].points_at(c, node_at(c, out@[k].transform.id@)) && side_names(c.transforms[out@[k].transform.id@]).contains(out@[k].local_name@) by {
                                if k < before.len() {
                                    assert(out@[k] == before[k]);
                                } else {
                                    assert(out@[k] == added[k - before.len()]);
                                    assert(refs_names(added)[k - before.len()] == out@[k].local_name@);
                                    assert(refs_names(added).contains(out@[k].local_name@));
                                    assert(refs_names(added).to_set().contains(out@[k].local_name@));
                                }
                            }
                            assert forall|t: Seq<char>, m: Seq<char>|
                                all.take(i + 1).contains(t) && #[trigger] side_names(c.transforms[t]).contains(m) implies exists|k: int|
                                0 <= k < out@.len() && (#[trigger] out@[k]).transform.id@ == t
                                    && out@[k].local_name@ == m by {
                                if t == t0 {
                                    assert(refs_names(added).to_set().contains(m));
                                    let k = choose|k: int|
                                        0 <= k < refs_names(added).len() && refs_names(added)[k] == m;
                                    assert(out@[before.len() + k] == added[k]);
                                    assert(added[k].transform.model() == node.model());
                                    assert(added[k].transform.model().id == t0);
                                } else {
                                    assert(all.take(i as int).contains(t));
                                    let k = choose|k: int|
                                        0 <= k < before.len() && (#[trigger] before[k]).transform.id@
                                            == t && before[k].local_name@ == m;
                                    assert(out@[k] == before[k]);
                                }
                            }
                        }
                    },
                    Err(e) => {
                        return Err(e);
                    },
                }
            },
            None => {},
        }
        i = i + 1;
    }
    assert(all.take(n as int) =~= all);
    Ok(out)
}

/// The states of some transforms.
fn gather_states(pipeline: &QueryablePipeline, ids: &Vec<String>) -> (r: Result<
    Vec<UserStateRef>,
    BeamTranslationError,
>)
    requires
        pipeline.wf(),
        forall|x: Seq<char>|
            #[trigger]
            texts(ids@).contains(x) ==> pipeline.model().transforms.contains_key(x),
    ensures
        match r {
            Ok(refs) => states_of(pipeline.model(), texts(ids@), refs@) && forall|t: Seq<char>|
                #[trigger]
                texts(ids@).contains(t) ==> readable(pipeline.model().transforms[t]),
            Err(e) => exists|t: Seq<char>|
                #[trigger]
                texts(ids@).contains(t) && !(readable(pipeline.model().transforms[t])),
        },
{
    let ghost c = pipeline.model();
    let ghost all = texts(ids@);
    let n: usize = ids.len();
    let mut out: Vec<UserStateRef> = Vec::new();
    let mut i: usize = 0;
    assert(all.take(0) =~= seq![]);
    while i < n
        invariant
            pipeline.wf(),
            c == pipeline.model(),
            all == texts(ids@),
            n == ids@.len(),
            i <= n,
            forall|x: Seq<char>| #[trigger] all.contains(x) ==> c.transforms.contains_key(x),
            states_of(c, all.take(i as int), out@),
            forall|j: int|
                0 <= j < i ==> {
                    let t = #[trigger] all[j];
                    readable(c.transforms[t])
                },
        decreases n - i,
    {
        let ghost t0 = ids@[i as int]@;
        let ghost before = out@;
        proof {
            assert(all[i as int] == t0);
            assert(all.contains(t0));
            taken_one_more(all, i as int);
        }
        match pipeline.node(ids[i].as_str()) {
            Some(node) => {
                assert(node.model() == node_at(c, t0));
                match pipeline.get_user_states(&node) {
                    Ok(more) => {
                        let mut refs: Vec<UserStateRef> = more;
                        let ghost added = refs@;
                        out.append(&mut refs);
                        proof {
                            assert forall|k: int| 0 <= k < out@.len() implies (#[trigger] out@[k]).transform.wf() && all.take(i + 1).contains(out@[k].transform.id@) && out@[k].transform.model() == node_at(c, out@[k].transform.id@) && par_do_of(c.transforms[out@[k].transform.id@]) is Some && par_do_of(c.transforms[out@[k].transform.id@])->0.state_specs.contains(out@[k].local_name@) by {
                                if k < before.len() {
                                    assert(out@[k] == before[k]);
                                } else {
                                    assert(out@[k] == added[k - before.len()]);
                                    assert(state_names(added)[k - before.len()] == out@[k].local_name@);
                                    assert(state_names(added).contains(out@[k].local_name@));
                                    assert(state_names(added).to_set().contains(out@[k].local_name@));
                                }
                            }
                            assert forall|t: Seq<char>, m: Seq<char>|
                                all.take(i + 1).contains(t) && par_do_of(c.transforms[t]) is Some && #[trigger] par_do_of(c.transforms[t])->0.state_specs.contains(m) implies exists|k: int|
                                0 <= k < out@.len() && (#[trigger] out@[k]).transform.id@ == t
                                    && out@[k].local_name@ == m by {
                                if t == t0 {
                                    assert(state_names(added).to_set().contains(m));
                                    let k = choose|k: int|
                                        0 <= k < state_names(added).len() && state_names(added)[k] == m;
                                    assert(out@[before.len() + k] == added[k]);
                                    assert(added[k].transform.model() == node.model());
                                    assert(added[k].transform.model().id == t0);
                                } else {
                                    assert(all.take(i as int).contains(t));
                                    let k = choose|k: int|
                                        0 <= k < before.len() && (#[trigger] before[k]).transform.id@
                                            == t && before[k].local_name@ == m;
                                    assert(out@[k] == before[k]);
                                }
                            }
                        }
                    },
                    Err(e) => {
                        return Err(e);
                    },
                }
            },
            None => {},
        }
        i = i + 1;
    }
    assert(all.take(n as int) =~= all);
    Ok(out)
}

/// The timers of some transforms.
fn gather_timers(pipeline: &QueryablePipeline, ids: &Vec<String>) -> (r: Result<
    Vec<TimerRef>,
    BeamTranslationError,
>)
    requires
        pipeline.wf(),
        forall|x: Seq<char>|
            #[trigger]
            texts(ids@).contains(x) ==> pipeline.model().transforms.contains_key(x),
    ensures
        match r {
            Ok(refs) => timers_of(pipeline.model(), texts(ids@), refs@) && forall|t: Seq<char>|
                #[trigger]
                texts(ids@).contains(t) ==> readable(pipeline.model().transforms[t]),
            Err(e) => exists|t: Seq<char>|
                #[trigger]
                texts(ids@).contains(t) && !(readable(pipeline.model().transforms[t])),
        },
{
    let ghost c = pipeline.model();
    let ghost all = texts(ids@);
    let n: usize = ids.len();
    let mut out: Vec<TimerRef> = Vec::new();
    let mut i: usize = 0;
    assert(all.take(0) =~= seq![]);
    while i < n
        invariant
            pipeline.wf(),
            c == pipeline.model(),
            all == texts(ids@),
            n == ids@.len(),
            i <= n,
            forall|x: Seq<char>| #[trigger] all.contains(x) ==> c.transforms.contains_key(x),
            timers_of(c, all.take(i as int), out@),
            forall|j: int|
                0 <= j < i ==> {
                    let t = #[trigger] all[j];
                    readable(c.transforms[t])
                },
        decreases n - i,
    {
        let ghost t0 = ids@[i as int]@;
        let ghost before = out@;
        proof {
            assert(all[i as int] == t0);
            assert(all.contains(t0));
            taken_one_more(all, i as int);
        }
        match pipeline.node(ids[i].as_str()) {
            Some(node) => {
                assert(node.model() == node_at(c, t0));
                match pipeline.get_timers(&node) {
                    Ok(more) => {
                        let mut refs: Vec<TimerRef> = more;
                        let ghost added = refs@;
                        out.append(&mut refs);
                        proof {
                            assert forall|k: int| 0 <= k < out@.len() implies (#[trigger] out@[k]).transform.wf() && all.take(i + 1).contains(out@[k].transform.id@) && out@[k].transform.model() == node_at(c, out@[k].transform.id@) && par_do_of(c.transforms[out@[k].transform.id@]) is Some && par_do_of(c.transforms[out@[k].transform.id@])->0.timer_families.contains(out@[k].local_name@) by {
                                if k < before.len() {
                                    assert(out@[k] == before[k]);
                                } else {
                                    assert(out@[k] == added[k - before.len()]);
                                    assert(timer_names(added)[k - before.len()] == out@[k].local_name@);
                                    assert(timer_names(added).contains(out@[k].local_name@));
                                    assert(timer_names(added).to_set().contains(out@[k].local_name@));
                                }
                            }
                            assert forall|t: Seq<char>, m: Seq<char>|
                                all.take(i + 1).contains(t) && par_do_of(c.transforms[t]) is Some && #[trigger] par_do_of(c.transforms[t])->0.timer_families.contains(m) implies exists|k: int|
                                0 <= k < out@.len() && (#[trigger] out@[k]).transform.id@ == t
                                    && out@[k].local_name@ == m by {
                                if t == t0 {
                                    assert(timer_names(added).to_set().contains(m));
                                    let k = choose|k: int|
                                        0 <= k < timer_names(added).len() && timer_names(added)[k] == m;
                                    assert(out@[before.len() + k] == added[k]);
                                    assert(added[k].transform.model() == node.model());
                                    assert(added[k].transform.model().id == t0);
                                } else {
                                    assert(all.take(i as int).contains(t));
                                    let k = choose|k: int|
                                        0 <= k < before.len() && (#[trigger] before[k]).transform.id@
                                            == t && before[k].local_name@ == m;
                                    assert(out@[k] == before[k]);
                                }
                            }
                        }
                    },
                    Err(e) => {
                        return Err(e);
                    },
                }
            },
            None => {},
        }
        i = i + 1;
    }
    assert(all.take(n as int) =~= all);
    Ok(out)
}

/// Fuses what can be fused behind some transforms.
pub struct GreedyStageFuser;

impl GreedyStageFuser {
    /// The stage that reads the collection and starts with these transforms.
    pub fn fuse(
        pipeline: &QueryablePipeline,
        input_pcol: &PCollectionNode,
        initial: &Vec<String>,
    ) -> (r: Result<ExecutableStage, BeamTranslationError>)
        requires
            pipeline.wf(),
            pipeline.model().pcollections.contains_key(input_pcol.id@),
            input_pcol.model() == pcol_at(pipeline.model(), input_pcol.id@),
            forall|x: Seq<char>|
                #[trigger]
                texts(initial@).contains(x) ==> pipeline.model().transforms.contains_key(x),
        ensures
            match r {
                Ok(stage) => can_be_stage(pipeline.model(), texts(initial@)) && stage.wf()
                    && exists|s: ExecutableStage|
                    #[trigger]
                    is_stage(pipeline.model(), input_pcol.id@, texts(initial@), s) && s.wf()
                        && sanitized(s, stage),
                Err(e) => !can_be_stage(pipeline.model(), texts(initial@)) && refuses_stage(
                    pipeline.model(),
                    texts(initial@),
                    e,
                ),
            },
    {
        let ghost c = pipeline.model();
        let ghost init = texts(initial@);
        if initial.len() == 0 {
            return Err(
                BeamTranslationError::InvalidArgument(
                    "must contain atleast one element GreedyStageFuser".to_owned(),
                ),
            );
        }
        proof {
            assert forall|i: int| 0 <= i < initial@.len() implies c.transforms.contains_key(
                (#[trigger] initial@[i])@,
            ) by {
                assert(init[i] == initial@[i]@);
                assert(init.contains(init[i]));
            }
        }
        let env: Environment = match get_stage_environment(pipeline, initial) {
            Ok(e) => e,
            Err(e) => {
                return Err(e);
            },
        };
        let ghost e = env.urn@;
        assert(init[0] == initial@[0]@);
        let found: Reach = reach(pipeline, &env, initial);
        let ghost ts = texts(found.transforms@).to_set();
        let ghost ps = choose|ps: Set<Seq<char>>|
            #[trigger]
            stage_reaches(c, e, init, ts, ps) && forall|p: Seq<char>|
                #[trigger]
                texts(found.outputs@).contains(p) <==> ps.contains(p) && !collection_fuses(c, p, e);
        let side_inputs: Vec<SideInputRef> = match gather_side_inputs(
            pipeline,
            &found.transforms,
        ) {
            Ok(refs) => refs,
            Err(err) => {
                proof {
                    let t = choose|t: Seq<char>|
                        #[trigger]
                        texts(found.transforms@).contains(t) && refuses_side_inputs(
                            c,
                            node_at(c, t),
                            err,
                        );
                    assert(ts.contains(t));
                    assert(stage_reaches(c, e, init, ts, ps));
                    assert(refuses_stage(c, init, err));
                    refusals_are_due(c, init, err);
                }
                return Err(err);
            },
        };
        let user_states: Vec<UserStateRef> = match gather_states(pipeline, initial) {
            Ok(refs) => refs,
            Err(err) => {
                proof {
                    initial_is_told(c, e, init, ts, ps, texts(found.transforms@));
                }
                return Err(err);
            },
        };
        let timers: Vec<TimerRef> = match gather_timers(pipeline, initial) {
            Ok(refs) => refs,
            Err(err) => {
                proof {
                    initial_is_told(c, e, init, ts, ps, texts(found.transforms@));
                }
                return Err(err);
            },
        };
        let outputs: Vec<PCollectionNode> = pipeline.pcollection_nodes(&found.outputs);
        let transforms: Vec<PTransformNode> = pipeline.nodes(&found.transforms);
        let stage: ExecutableStage = ExecutableStage::from(
            pipeline.components.duplicate(),
            env,
            Vec::new(),
            input_pcol.duplicate(),
            side_inputs,
            user_states,
            timers,
            outputs,
            transforms,
        );
        proof {
            assert forall|j: int| 0 <= j < found.transforms@.len() implies (
            #[trigger] stage.transforms@[j]).id@ == found.transforms@[j]@ by {
                assert(stage.transforms@[j].model().id == found.transforms@[j]@);
            }
            assert forall|j: int| 0 <= j < found.outputs@.len() implies (
            #[trigger] stage.output_pcols@[j]).id@ == found.outputs@[j]@ by {
                assert(stage.output_pcols@[j].model().id == found.outputs@[j]@);
            }
            assert(node_ids(stage.transforms@) =~= texts(found.transforms@));
            assert(pcol_ids(stage.output_pcols@) =~= texts(found.outputs@));
            assert forall|i: int| 0 <= i < stage.transforms@.len() implies
                c.transforms.contains_key((#[trigger] stage.transforms@[i]).id@)
                && stage.transforms@[i].model() == node_at(c, stage.transforms@[i].id@) by {
                assert(texts(found.transforms@).contains(texts(found.transforms@)[i]));
            }
            assert forall|i: int| 0 <= i < stage.output_pcols@.len() implies
                c.pcollections.contains_key((#[trigger] stage.output_pcols@[i]).id@)
                && stage.output_pcols@[i].model() == pcol_at(c, stage.output_pcols@[i].id@) by {
                assert(texts(found.outputs@).contains(texts(found.outputs@)[i]));
            }
            assert(stage_reaches(c, stage.environment.urn@, init, ts, ps));
            assert(is_stage(c, input_pcol.id@, init, stage));
            assert forall|xs: Set<Seq<char>>, ys: Set<Seq<char>>, t: Seq<char>|
                #[trigger]
                stage_reaches(c, e, init, xs, ys) && #[trigger] xs.contains(t) implies
                side_inputs_resolve(c, c.transforms[t]) by {
                reach_is_unique(c, e, init, ts, ps, xs, ys);
                assert(texts(found.transforms@).contains(t));
            }
        }
        Ok(sanitize_dangling_ptransform_inputs(stage))
    }
}

/// The side inputs of the first transforms of a stage can be told only where their
/// payloads can be read.
proof fn initial_is_told(
    c: ComponentsV,
    e: Seq<char>,
    init: Seq<Seq<char>>,
    ts: Set<Seq<char>>,
    ps: Set<Seq<char>>,
    ids: Seq<Seq<char>>,
)
    requires
        stage_reaches(c, e, init, ts, ps),
        ts == ids.to_set(),
        forall|t: Seq<char>|
            #[trigger]
            ids.contains(t) ==> side_inputs_resolve(c, c.transforms[t]),
    ensures
        forall|t: Seq<char>| #[trigger] init.contains(t) ==> readable(c.transforms[t]),
{
    assert forall|t: Seq<char>| #[trigger] init.contains(t) implies readable(
        c.transforms[t],
    ) by {
        assert(ts.contains(t));
        assert(ids.contains(t));
    }
}

/// What a stage holds runs in its environment, but for flattens, which run anywhere.
pub proof fn stage_has_one_environment(
    c: ComponentsV,
    initial: Seq<Seq<char>>,
    ts: Set<Seq<char>>,
    ps: Set<Seq<char>>,
    t: Seq<char>,
)
    requires
        initial.len() > 0,
        have_environment(c, initial),
        stage_reaches(c, environment_of(c, c.transforms[initial[0]])->0.urn, initial, ts, ps),
        ts.contains(t),
    ensures
        runs_in(
            c,
            c.transforms[t],
            environment_of(c, c.transforms[initial[0]])->0.urn,
        ) || urn_of_transform(c.transforms[t]) == urns::FLATTEN_TRANSFORM@,
{
    let env = environment_of(c, c.transforms[initial[0]])->0.urn;
    let xs = ts.filter(
        |x: Seq<char>|
            runs_in(c, c.transforms[x], env) || urn_of_transform(c.transforms[x])
                == urns::FLATTEN_TRANSFORM@,
    );
    assert forall|x: Seq<char>| #[trigger] initial.contains(x) implies xs.contains(x) by {
        let i = choose|i: int| 0 <= i < initial.len() && initial[i] == x;
        assert(runs_in(c, c.transforms[initial[i]], env));
    }
    assert(stage_closed(c, env, initial, xs, ps));
}

/// No collection that a stage fills is lost: it is written out, or all its consumers
/// are in the stage.
pub proof fn reached_is_written_or_kept(
    c: ComponentsV,
    input: Seq<char>,
    initial: Seq<Seq<char>>,
    s: ExecutableStage,
    t: Seq<char>,
    p: Seq<char>,
    consumer: Seq<char>,
)
    requires
        is_stage(c, input, initial, s),
        node_ids(s.transforms@).contains(t),
        produces(c, t, p),
        consumes(c, consumer, p),
    ensures
        pcol_ids(s.output_pcols@).contains(p) || node_ids(s.transforms@).contains(consumer),
{
    let (ts, ps) = choose|ts: Set<Seq<char>>, ps: Set<Seq<char>>|
        #[trigger]
        stage_reaches(c, s.environment.urn@, initial, ts, ps) && node_ids(s.transforms@).to_set()
            == ts && forall|p: Seq<char>|
            #[trigger]
            pcol_ids(s.output_pcols@).contains(p) <==> ps.contains(p) && !collection_fuses(
                c,
                p,
                s.environment.urn@,
            );
    assert(ts.contains(t));
    assert(ps.contains(p));
    if collection_fuses(c, p, s.environment.urn@) {
        assert(ts.contains(consumer));
    }
}

} // verus!
