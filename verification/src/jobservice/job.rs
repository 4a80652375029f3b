//! From a submitted pipeline to its stages.
use crate::engine::building::{are_nodes_of, can_build, is_buildable, is_edge, meta_of};
use crate::engine::graph::{ExecutableGraph, MetaV};
use crate::fusion::endings::{all_end, do_all_end};
use crate::fusion::expander::Pipeline;
use crate::fusion::groups::{add_id, is_runner, node_at, SiblingV};
use crate::fusion::pipeline::{
    gives, is_root, lists, nodes_of, produces, FusedPipeline, QueryablePipeline,
};
use crate::fusion::pipeline_fuser::{
    consumers_belong, consumers_model, ends, is_fused, is_fusible_behind, is_stuck,
    is_unfused_behind, nodes_are, GreedyPipelineFuser,
};
use crate::fusion::stage::{node_ids, random_id, CollectionConsumers, DescendantConsumers};
use crate::fusion::stage_fuser::are_nodes;
use crate::model::{nodes_wf, Components, ComponentsV, PTransformNode};
use crate::named::texts;
use crate::shared::{graph_get, graph_insert, graphs_in, new_graphs, some_graph_id};
use crate::text::join2;
use crate::utils::errors::BeamTranslationError;
use dashmap::DashMap;
use std::sync::Arc;
use vstd::prelude::*;
use vstd::string::*;

verus! {

/// Whether these are the runner's transforms that a pipeline starts with: its roots
/// without an environment, and those behind the outputs of its roots.
pub open spec fn are_root_unfused(c: ComponentsV, unfused: Seq<PTransformNode>) -> bool {
    &&& are_nodes(c, unfused)
    &&& forall|id: Seq<char>|
        #[trigger]
        node_ids(unfused).contains(id) <==> (is_root(c, id) && is_runner(c, id)) || exists|
            r: Seq<char>,
            p: Seq<char>,
        |
            is_root(c, r) && #[trigger] produces(c, r, p) && is_unfused_behind(c, p, id)
}

/// Whether these are the consumers that a pipeline starts with: those behind the
/// outputs of its roots.
pub open spec fn are_root_consumers(c: ComponentsV, consumers: Seq<SiblingV>) -> bool {
    forall|x: SiblingV|
        #[trigger]
        consumers.contains(x) <==> exists|r: Seq<char>, p: Seq<char>|
            is_root(c, r) && #[trigger] produces(c, r, p) && is_fusible_behind(c, p, x)
}

/// What a pipeline starts with.
struct Roots {
    unfused: Vec<String>,
    consumers: Vec<CollectionConsumers>,
}

/// Adds the ids of some transforms.
fn add_nodes(ids: &mut Vec<String>, nodes: &Vec<PTransformNode>)
    requires
        texts(old(ids)@).no_duplicates(),
    ensures
        texts(final(ids)@).no_duplicates(),
        forall|x: Seq<char>|
            #[trigger]
            texts(final(ids)@).contains(x) <==> texts(old(ids)@).contains(x) || node_ids(
                nodes@,
            ).contains(x),
{
    let ghost start = texts(ids@);
    let ghost more = node_ids(nodes@);
    let n: usize = nodes.len();
    let mut i: usize = 0;
    while i < n
        invariant
            more == node_ids(nodes@),
            n == nodes@.len(),
            i <= n,
            texts(ids@).no_duplicates(),
            forall|x: Seq<char>|
                #[trigger]
                texts(ids@).contains(x) <==> start.contains(x) || exists|k: int|
                    0 <= k < i && #[trigger] more[k] == x,
        decreases n - i,
    {
        let ghost before = texts(ids@);
        assert(more[i as int] == nodes@[i as int].id@);
        add_id(ids, nodes[i].id.as_str());
        proof {
            assert forall|x: Seq<char>|
                #[trigger]
                texts(ids@).contains(x) <==> start.contains(x) || exists|k: int|
                    0 <= k < i + 1 && #[trigger] more[k] == x by {
                if before.contains(x) && !start.contains(x) {
                    let k = choose|k: int| 0 <= k < i && #[trigger] more[k] == x;
                    assert(more[k] == x);
                }
                if x == more[i as int] {
                    assert(more[i as int] == x);
                }
            }
        }
        i = i + 1;
    }
    proof {
        assert forall|x: Seq<char>|
            #[trigger]
            texts(ids@).contains(x) <==> start.contains(x) || more.contains(x) by {
            if texts(ids@).contains(x) && !start.contains(x) {
                let k = choose|k: int| 0 <= k < n && #[trigger] more[k] == x;
                assert(more.contains(more[k]));
            }
        }
    }
}

/// What the pipeline starts with.
#[verifier::rlimit(40)]
fn find_roots(fuser: &GreedyPipelineFuser) -> (r: Roots)
    requires
        fuser.wf(),
        forall|p: Seq<char>|
            #[trigger]
            fuser.model().pcollections.contains_key(p) ==> ends(fuser.model(), p),
    ensures
        texts(r.unfused@).no_duplicates(),
        consumers_belong(fuser.model(), r.consumers@),
        are_root_consumers(fuser.model(), consumers_model(r.consumers@)),
        forall|id: Seq<char>|
            #[trigger]
            texts(r.unfused@).contains(id) ==> fuser.model().transforms.contains_key(id),
        forall|id: Seq<char>|
            #[trigger]
            texts(r.unfused@).contains(id) <==> (is_root(fuser.model(), id) && is_runner(
                fuser.model(),
                id,
            )) || exists|r: Seq<char>, p: Seq<char>|
                is_root(fuser.model(), r) && #[trigger] produces(fuser.model(), r, p)
                    && is_unfused_behind(fuser.model(), p, id),
{
    let ghost c = fuser.model();
    let roots: Vec<PTransformNode> = fuser.pipeline.get_root_transforms();
    let ghost ids = choose|ids: Seq<String>|
        lists(ids, |id: Seq<char>| is_root(c, id)) && nodes_of(c, ids, roots@);
    let n: usize = roots.len();
    let mut unfused: Vec<String> = Vec::new();
    let mut consumers: Vec<CollectionConsumers> = Vec::new();
    let mut i: usize = 0;
    while i < n
        invariant
            fuser.wf(),
            c == fuser.model(),
            forall|p: Seq<char>| #[trigger] c.pcollections.contains_key(p) ==> ends(c, p),
            nodes_wf(roots@),
            lists(ids, |id: Seq<char>| is_root(c, id)),
            nodes_of(c, ids, roots@),
            n == roots@.len(),
            i <= n,
            texts(unfused@).no_duplicates(),
            consumers_belong(c, consumers@),
            forall|id: Seq<char>|
                #[trigger]
                texts(unfused@).contains(id) ==> c.transforms.contains_key(id),
            forall|id: Seq<char>|
                #[trigger]
                texts(unfused@).contains(id) <==> (exists|k: int|
                    0 <= k < i && id == (#[trigger] ids[k])@ && is_runner(c, id)) || exists|
                    k: int,
                    p: Seq<char>,
                |
                    0 <= k < i && #[trigger] produces(c, ids[k]@, p) && is_unfused_behind(
                        c,
                        p,
                        id,
                    ),
            forall|x: SiblingV|
                #[trigger]
                consumers_model(consumers@).contains(x) <==> exists|k: int, p: Seq<char>|
                    0 <= k < i && #[trigger] produces(c, ids[k]@, p) && is_fusible_behind(c, p, x),
        decreases n - i,
    {
        let ghost id0 = ids[i as int]@;
        let ghost u0 = texts(unfused@);
        let ghost f0 = consumers_model(consumers@);
        let ghost old_consumers = consumers@;
        proof {
            assert(roots@[i as int].wf());
            assert(roots@[i as int].model() == node_at(c, id0));
            assert(roots@[i as int].id@ == id0);
            assert(roots@[i as int].transform.model() == c.transforms[id0]);
            assert(texts(ids)[i as int] == id0);
            assert(texts(ids).contains(id0));
            assert(is_root(c, id0));
        }
        if fuser.pipeline.get_environment(&roots[i].transform).is_none() {
            add_id(&mut unfused, roots[i].id.as_str());
        }
        let ghost u1 = texts(unfused@);
        proof {
            assert forall|id: Seq<char>|
                #[trigger]
                u1.contains(id) <==> u0.contains(id) || (id == id0 && is_runner(c, id)) by {}
        }
        let found: DescendantConsumers = fuser.get_root_consumers(&roots[i]);
        let DescendantConsumers { unfusible, fusible } = found;
        add_nodes(&mut unfused, &unfusible);
        let mut more: Vec<CollectionConsumers> = fusible;
        let ghost added = more@;
        consumers.append(&mut more);
        proof {
            assert forall|p: Seq<char>| gives(c, c.transforms[id0], p) == #[trigger] produces(
                c,
                id0,
                p,
            ) by {}
            assert forall|id: Seq<char>| #[trigger] texts(unfused@).contains(id) implies
                c.transforms.contains_key(id) by {
                if node_ids(unfusible@).contains(id) {
                    let k = choose|k: int|
                        0 <= k < node_ids(unfusible@).len() && node_ids(unfusible@)[k] == id;
                    assert(c.transforms.contains_key(unfusible@[k].id@));
                }
            }
            assert forall|id: Seq<char>|
                #[trigger]
                texts(unfused@).contains(id) <==> (exists|k: int|
                    0 <= k < i + 1 && id == (#[trigger] ids[k])@ && is_runner(c, id)) || exists|
                    k: int,
                    p: Seq<char>,
                |
                    0 <= k < i + 1 && #[trigger] produces(c, ids[k]@, p) && is_unfused_behind(
                        c,
                        p,
                        id,
                    ) by {
                if u0.contains(id) {
                    if exists|k: int| 0 <= k < i && id == (#[trigger] ids[k])@ && is_runner(c, id) {
                        let k = choose|k: int|
                            0 <= k < i && id == (#[trigger] ids[k])@ && is_runner(c, id);
                        assert(id == ids[k]@);
                    } else {
                        let (k, p) = choose|k: int, p: Seq<char>|
                            0 <= k < i && #[trigger] produces(c, ids[k]@, p) && is_unfused_behind(
                                c,
                                p,
                                id,
                            );
                        assert(produces(c, ids[k]@, p));
                    }
                }
                if id == id0 && is_runner(c, id) {
                    assert(id == ids[i as int]@);
                }
                if node_ids(unfusible@).contains(id) {
                    let p = choose|p: Seq<char>|
                        #[trigger]
                        gives(c, c.transforms[id0], p) && is_unfused_behind(c, p, id);
                    assert(produces(c, ids[i as int]@, p));
                }
                if exists|k: int| 0 <= k < i + 1 && id == (#[trigger] ids[k])@ && is_runner(
                    c,
                    id,
                ) {
                    let k = choose|k: int|
                        0 <= k < i + 1 && id == (#[trigger] ids[k])@ && is_runner(c, id);
                    if k < i {
                        assert(u0.contains(id));
                    } else {
                        assert(u1.contains(id));
                    }
                }
                if exists|k: int, p: Seq<char>|
                    0 <= k < i + 1 && #[trigger] produces(c, ids[k]@, p) && is_unfused_behind(
                        c,
                        p,
                        id,
                    ) {
                    let (k, p) = choose|k: int, p: Seq<char>|
                        0 <= k < i + 1 && #[trigger] produces(c, ids[k]@, p) && is_unfused_behind(
                            c,
                            p,
                            id,
                        );
                    if k < i {
                        assert(u0.contains(id));
                    } else {
                        assert(gives(c, c.transforms[id0], p));
                        assert(node_ids(unfusible@).contains(id));
                    }
                }
            }
            let all = consumers_model(consumers@);
            let new = consumers_model(added);
            assert(all =~= f0 + new);
            assert forall|j: int| 0 <= j < consumers@.len() implies (
            #[trigger] consumers@[j]).belongs(c) by {
                if j < old_consumers.len() {
                    assert(consumers@[j] == old_consumers[j]);
                } else {
                    assert(consumers@[j] == added[j - old_consumers.len()]);
                }
            }
            assert forall|x: SiblingV| #[trigger] all.contains(x) <==> f0.contains(x)
                || new.contains(x) by {
                if f0.contains(x) {
                    let j = choose|j: int| 0 <= j < f0.len() && f0[j] == x;
                    assert(all[j] == x);
                }
                if new.contains(x) {
                    let j = choose|j: int| 0 <= j < new.len() && new[j] == x;
                    assert(all[f0.len() + j] == x);
                }
                if all.contains(x) {
                    let j = choose|j: int| 0 <= j < all.len() && all[j] == x;
                    if j < f0.len() {
                        assert(f0[j] == x);
                    } else {
                        assert(new[j - f0.len()] == x);
                    }
                }
            }
            assert forall|x: SiblingV|
                #[trigger]
                all.contains(x) <==> exists|k: int, p: Seq<char>|
                    0 <= k < i + 1 && #[trigger] produces(c, ids[k]@, p) && is_fusible_behind(
                        c,
                        p,
                        x,
                    ) by {
                if f0.contains(x) {
                    let (k, p) = choose|k: int, p: Seq<char>|
                        0 <= k < i && #[trigger] produces(c, ids[k]@, p) && is_fusible_behind(
                            c,
                            p,
                            x,
                        );
                    assert(produces(c, ids[k]@, p));
                }
                if new.contains(x) {
                    let p = choose|p: Seq<char>|
                        #[trigger]
                        gives(c, c.transforms[id0], p) && is_fusible_behind(c, p, x);
                    assert(produces(c, ids[i as int]@, p));
                }
                if exists|k: int, p: Seq<char>|
                    0 <= k < i + 1 && #[trigger] produces(c, ids[k]@, p) && is_fusible_behind(
                        c,
                        p,
                        x,
                    ) {
                    let (k, p) = choose|k: int, p: Seq<char>|
                        0 <= k < i + 1 && #[trigger] produces(c, ids[k]@, p) && is_fusible_behind(
                            c,
                            p,
                            x,
                        );
                    if k < i {
                        assert(f0.contains(x));
                    } else {
                        assert(gives(c, c.transforms[id0], p));
                        assert(new.contains(x));
                    }
                }
            }
        }
        i = i + 1;
    }
    proof {
        assert forall|r: Seq<char>| #[trigger] is_root(c, r) <==> texts(ids).contains(r) by {}
        assert forall|id: Seq<char>|
            #[trigger]
            texts(unfused@).contains(id) <==> (is_root(c, id) && is_runner(c, id)) || exists|
                r: Seq<char>,
                p: Seq<char>,
            |
                is_root(c, r) && #[trigger] produces(c, r, p) && is_unfused_behind(c, p, id) by {
            if texts(unfused@).contains(id) {
                if exists|k: int| 0 <= k < n && id == (#[trigger] ids[k])@ && is_runner(c, id) {
                    let k = choose|k: int|
                        0 <= k < n && id == (#[trigger] ids[k])@ && is_runner(c, id);
                    assert(texts(ids)[k] == id);
                    assert(texts(ids).contains(id));
                    assert(is_root(c, id));
                } else {
                    let (k, p) = choose|k: int, p: Seq<char>|
                        0 <= k < n && #[trigger] produces(c, ids[k]@, p) && is_unfused_behind(
                            c,
                            p,
                            id,
                        );
                    assert(texts(ids)[k] == ids[k]@);
                    assert(texts(ids).contains(ids[k]@));
                    assert(is_root(c, ids[k]@) && produces(c, ids[k]@, p));
                }
            }
            if is_root(c, id) && is_runner(c, id) {
                let k = choose|k: int| 0 <= k < texts(ids).len() && texts(ids)[k] == id;
                assert(id == ids[k]@);
            }
            if exists|r: Seq<char>, p: Seq<char>|
                is_root(c, r) && #[trigger] produces(c, r, p) && is_unfused_behind(c, p, id) {
                let (r, p) = choose|r: Seq<char>, p: Seq<char>|
                    is_root(c, r) && #[trigger] produces(c, r, p) && is_unfused_behind(c, p, id);
                let k = choose|k: int| 0 <= k < texts(ids).len() && texts(ids)[k] == r;
                assert(produces(c, ids[k]@, p));
            }
        }
        let all = consumers_model(consumers@);
        assert forall|x: SiblingV|
            #[trigger]
            all.contains(x) <==> exists|r: Seq<char>, p: Seq<char>|
                is_root(c, r) && #[trigger] produces(c, r, p) && is_fusible_behind(c, p, x) by {
            if all.contains(x) {
                let (k, p) = choose|k: int, p: Seq<char>|
                    0 <= k < n && #[trigger] produces(c, ids[k]@, p) && is_fusible_behind(c, p, x);
                assert(texts(ids)[k] == ids[k]@);
                assert(texts(ids).contains(ids[k]@));
                assert(is_root(c, ids[k]@) && produces(c, ids[k]@, p));
            }
            if exists|r: Seq<char>, p: Seq<char>|
                is_root(c, r) && #[trigger] produces(c, r, p) && is_fusible_behind(c, p, x) {
                let (r, p) = choose|r: Seq<char>, p: Seq<char>|
                    is_root(c, r) && #[trigger] produces(c, r, p) && is_fusible_behind(c, p, x);
                let k = choose|k: int| 0 <= k < texts(ids).len() && texts(ids)[k] == r;
                assert(produces(c, ids[k]@, p));
            }
        }
    }
    Roots { unfused, consumers }
}

/// Whether a pipeline can be fused: it has components, and the runner's transforms come
/// to an end behind each of its collections.
pub fn can_fuse(p: &Pipeline) -> (r: bool)
    requires
        p.components matches Some(c) ==> c.wf(),
    ensures
        r == (p.components matches Some(c) && all_end(c.model())),
{
    match &p.components {
        Some(components) => do_all_end(&QueryablePipeline::new(components)),
        None => false,
    }
}

/// Fuses a pipeline.
pub fn fuse_pipeline(p: &Pipeline) -> (r: Result<FusedPipeline, BeamTranslationError>)
    requires
        p.components is Some,
        p.components->0.wf(),
        all_end(p.components->0.model()),
    ensures
        exists|unfused: Seq<PTransformNode>, consumers: Seq<SiblingV>| #[trigger]
            are_root_unfused(p.components->0.model(), unfused) && #[trigger] are_root_consumers(
                p.components->0.model(),
                consumers,
            ) && match r {
                Ok(f) => is_fused(p.components->0.model(), unfused, consumers, f),
                Err(e) => is_stuck(p.components->0.model(), consumers, e),
            },
{
    let components: &Components = match &p.components {
        Some(c) => c,
        None => {
            return Err(BeamTranslationError::NotFound("Pipeline is missing".to_owned()));
        },
    };
    let fuser: GreedyPipelineFuser = GreedyPipelineFuser::with(QueryablePipeline::new(components));
    let roots: Roots = find_roots(&fuser);
    let unfused: Vec<PTransformNode> = fuser.pipeline.nodes(&roots.unfused);
    proof {
        nodes_are(fuser.model(), roots.unfused@, unfused@);
        assert(are_root_unfused(fuser.model(), unfused@));
        assert(are_root_consumers(fuser.model(), consumers_model(roots.consumers@)));
    }
    fuser.fuse_pipeline(&unfused, &roots.consumers)
}

/// Whether a text is the id of a job.
pub open spec fn is_job_id(id: Seq<char>) -> bool {
    exists|rest: Seq<char>| id == #[trigger] ("jobid"@ + rest)
}

/// A job: the graph of its stages.
pub struct Job {
    pub job_id: String,
    pub graph: ExecutableGraph,
}

/// Why there is no job for a pipeline.
#[derive(Debug)]
pub enum JobFault {
    /// It has no components, or the runner's transforms come to no end.
    Unfit,
    /// It cannot be fused.
    Fusion(BeamTranslationError),
    /// The runner does not know one of its transforms, or the graph has no room for the
    /// stages.
    NoGraph,
}

impl JobFault {
    pub open spec fn message_text(self) -> Seq<char> {
        match self {
            JobFault::Unfit =>
                "the pipeline has no components, or the runner's transforms have no end"@,
            JobFault::Fusion(e) => e.message_text(),
            JobFault::NoGraph =>
                "the runner does not know all its transforms, or the graph has no room for them"@,
        }
    }

    pub fn message(&self) -> (r: String)
        ensures
            r@ == self.message_text(),
    {
        match self {
            JobFault::Unfit =>
                "the pipeline has no components, or the runner's transforms have no end".to_owned(),
            JobFault::Fusion(e) => e.message(),
            JobFault::NoGraph =>
                "the runner does not know all its transforms, or the graph has no room for them".to_owned(),
        }
    }
}

/// Whether a pipeline with these components is fused into these stages.
pub open spec fn fuses_into(c: ComponentsV, f: FusedPipeline) -> bool {
    exists|unfused: Seq<PTransformNode>, consumers: Seq<SiblingV>| #[trigger]
        are_root_unfused(c, unfused) && #[trigger] are_root_consumers(c, consumers) && is_fused(
            c,
            unfused,
            consumers,
            f,
        )
}

/// Whether a pipeline with these components cannot be fused, and this is why.
pub open spec fn fuses_not(c: ComponentsV, e: BeamTranslationError) -> bool {
    exists|unfused: Seq<PTransformNode>, consumers: Seq<SiblingV>| #[trigger]
        are_root_unfused(c, unfused) && #[trigger] are_root_consumers(c, consumers) && is_stuck(
            c,
            consumers,
            e,
        )
}

/// Whether the graph is that of the stages.
pub open spec fn is_graph_of(c: ComponentsV, f: FusedPipeline, g: ExecutableGraph) -> bool {
    &&& g.wf()
    &&& g.components.model() == c
    &&& g.root() == meta_of(c, seq![], seq![], seq![])
    &&& are_nodes_of(g.nodes(), f.sdk_stages@, f.runner_stages@)
    &&& forall|e: (int, int, MetaV)| #[trigger] g.edges().contains(e) <==> is_edge(g.nodes(), c, e)
}

/// Whether the outcome is the graph of the pipeline, or why there is none.
pub open spec fn is_job_graph(p: Pipeline, r: Result<ExecutableGraph, JobFault>) -> bool {
    let fit = p.components matches Some(c) && all_end(c.model());
    match r {
        Ok(g) => fit && exists|f: FusedPipeline| #[trigger]
            fuses_into(p.components->0.model(), f) && is_graph_of(
                p.components->0.model(),
                f,
                g,
            ),
        Err(JobFault::Unfit) => !fit,
        Err(JobFault::Fusion(e)) => fit && fuses_not(p.components->0.model(), e),
        Err(JobFault::NoGraph) => fit && exists|f: FusedPipeline| #[trigger]
            fuses_into(p.components->0.model(), f) && !is_buildable(
                f.sdk_stages@,
                f.runner_stages@,
            ),
    }
}

impl Job {
    /// The graph of a pipeline: it is fused, and its stages are connected.
    pub fn create_job(pipeline: &Pipeline) -> (r: Result<ExecutableGraph, JobFault>)
        requires
            pipeline.components matches Some(c) ==> c.wf(),
        ensures
            is_job_graph(*pipeline, r),
    {
        if !can_fuse(pipeline) {
            return Err(JobFault::Unfit);
        }
        let fused: FusedPipeline = match fuse_pipeline(pipeline) {
            Ok(fused) => fused,
            Err(e) => {
                return Err(JobFault::Fusion(e));
            },
        };
        let ghost c = pipeline.components->0.model();
        assert(fuses_into(c, fused));
        if !can_build(&fused.sdk_stages, &fused.runner_stages) {
            return Err(JobFault::NoGraph);
        }
        match &pipeline.components {
            Some(components) => {
                let g = ExecutableGraph::from(
                    &fused.sdk_stages,
                    &fused.runner_stages,
                    components,
                );
                assert(is_graph_of(c, fused, g));
                Ok(g)
            },
            None => Err(JobFault::Unfit),
        }
    }

    /// The job of a pipeline, under a new id.
    pub fn new(pipeline: &Pipeline) -> (r: Result<Job, JobFault>)
        requires
            pipeline.components matches Some(c) ==> c.wf(),
        ensures
            match r {
                Ok(job) => is_job_id(job.job_id@) && is_job_graph(*pipeline, Ok(job.graph)),
                Err(e) => is_job_graph(*pipeline, Err(e)),
            },
    {
        match Self::create_job(pipeline) {
            Ok(graph) => Ok(Self::of(graph)),
            Err(e) => Err(e),
        }
    }

    /// A job of that graph, under a new id.
    pub fn of(graph: ExecutableGraph) -> (r: Job)
        ensures
            is_job_id(r.job_id@),
            r.graph == graph,
    {
        let id = random_id();
        let job_id = join2("jobid", id.as_str());
        assert(job_id@ == "jobid"@ + id@);
        Job { job_id, graph }
    }
}

/// The graphs of the jobs of an instance.
pub struct JobStore {
    graphs: DashMap<String, Arc<ExecutableGraph>>,
}

impl JobStore {
    /// The graphs by the ids of their jobs.
    pub closed spec fn jobs(self) -> Map<Seq<char>, ExecutableGraph> {
        graphs_in(self.graphs)
    }

    /// Every graph is well formed.
    pub open spec fn wf(self) -> bool {
        forall|id: Seq<char>|
            self.jobs().contains_key(id) ==> (#[trigger] self.jobs()[id]).wf()
    }

    pub fn new() -> (r: JobStore)
        ensures
            r.wf(),
            r.jobs() == Map::<Seq<char>, ExecutableGraph>::empty(),
    {
        JobStore { graphs: new_graphs() }
    }

    /// Keeps the graph of a job.
    pub fn add_job(&mut self, id: &String, graph: ExecutableGraph)
        requires
            old(self).wf(),
            graph.wf(),
        ensures
            final(self).wf(),
            final(self).jobs() == old(self).jobs().insert(id@, graph),
    {
        graph_insert(&mut self.graphs, id.clone(), Arc::new(graph));
    }

    /// The graph of a job, if it is known.
    pub fn get_job(&self, id: &String) -> (r: Option<Arc<ExecutableGraph>>)
        requires
            self.wf(),
        ensures
            match r {
                Some(graph) => self.jobs().contains_key(id@) && *graph == self.jobs()[id@]
                    && graph.wf(),
                None => !self.jobs().contains_key(id@),
            },
    {
        let found = graph_get(&self.graphs, id.as_str());
        assert(found is Some ==> self.jobs()[id@].wf());
        found
    }

    /// The id of some job, if there is one.
    pub fn first_job_id(&self) -> (r: Option<String>)
        ensures
            match r {
                Some(id) => self.jobs().contains_key(id@),
                None => self.jobs() == Map::<Seq<char>, ExecutableGraph>::empty(),
            },
    {
        some_graph_id(&self.graphs)
    }
}

} // verus!
