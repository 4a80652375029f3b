//! From a pipeline to its stages.
use crate::fusion::dedup::{
    came_from, deduplicated, ensure_single_producer, lists_twice, node_after, stage_after,
    stage_lists_twice, DeduplicationResult,
};
use crate::fusion::groups::{
    belong, collect_behind, ends_within, fusible_behind, group_consumers, grouped, groups_cover,
    groups_model, has_sibling, in_groups, insert_sibling, is_runner, is_sorted, node_at,
    siblings_model, unfused_behind, Sibling, SiblingV,
};
use crate::fusion::pipeline::{
    consumes, gives, lists, nodes_of, produces, FusedPipeline, QueryablePipeline,
};
use crate::fusion::sanitize::{sanitized, taken_one_more};
use crate::fusion::stage::{
    node_ids, pcol_ids, CollectionConsumers, DescendantConsumers, ExecutableStage,
};
use crate::fusion::stage_fuser::{
    are_nodes, can_be_stage, is_stage, pcol_at, refuses_stage, GreedyStageFuser,
};
use crate::model::{nodes_wf, ComponentsV, PCollectionNode, PTransformNode};
use crate::named::{names, texts};
use crate::utils::errors::BeamTranslationError;
use vstd::prelude::*;
use vstd::string::*;

verus! {

// ---------------------------------------------------------------------------
// What is behind a collection
// ---------------------------------------------------------------------------
/// Whether the runner's transforms behind the collection come to an end.
pub open spec fn ends(c: ComponentsV, p: Seq<char>) -> bool {
    exists|d: nat| ends_within(c, p, d)
}

/// Whether the runner's transform is behind the collection.
pub open spec fn is_unfused_behind(c: ComponentsV, p: Seq<char>, id: Seq<char>) -> bool {
    exists|d: nat| unfused_behind(c, p, id, d)
}

/// Whether the consumer is behind the collection.
pub open spec fn is_fusible_behind(c: ComponentsV, p: Seq<char>, x: SiblingV) -> bool {
    exists|d: nat| fusible_behind(c, p, x, d)
}

proof fn unfused_settles(c: ComponentsV, p: Seq<char>, id: Seq<char>, d: nat, e: nat)
    requires
        ends_within(c, p, d),
        unfused_behind(c, p, id, e),
    ensures
        unfused_behind(c, p, id, d),
    decreases e,
{
    if !(consumes(c, id, p) && is_runner(c, id)) {
        let (u, q) = choose|u: Seq<char>, q: Seq<char>|
            #[trigger]
            consumes(c, u, p) && is_runner(c, u) && #[trigger] produces(c, u, q)
                && unfused_behind(c, q, id, (e - 1) as nat);
        assert(produces(c, u, q) && consumes(c, u, p));
        unfused_settles(c, q, id, (d - 1) as nat, (e - 1) as nat);
    }
}

proof fn fusible_settles(c: ComponentsV, p: Seq<char>, x: SiblingV, d: nat, e: nat)
    requires
        ends_within(c, p, d),
        fusible_behind(c, p, x, e),
    ensures
        fusible_behind(c, p, x, d),
    decreases e,
{
    if !(x.pcol == p && consumes(c, x.transform, p) && !is_runner(c, x.transform)) {
        let (u, q) = choose|u: Seq<char>, q: Seq<char>|
            #[trigger]
            consumes(c, u, p) && is_runner(c, u) && #[trigger] produces(c, u, q)
                && fusible_behind(c, q, x, (e - 1) as nat);
        assert(produces(c, u, q) && consumes(c, u, p));
        fusible_settles(c, q, x, (d - 1) as nat, (e - 1) as nat);
    }
}

/// What is behind a collection, whatever the depth.
proof fn behind_settles(c: ComponentsV, p: Seq<char>, d: nat)
    requires
        ends_within(c, p, d),
    ensures
        forall|id: Seq<char>|
            #[trigger]
            is_unfused_behind(c, p, id) <==> unfused_behind(c, p, id, d),
        forall|x: SiblingV|
            #[trigger]
            is_fusible_behind(c, p, x) <==> fusible_behind(c, p, x, d),
{
    assert forall|id: Seq<char>|
        #[trigger]
        is_unfused_behind(c, p, id) <==> unfused_behind(c, p, id, d) by {
        if is_unfused_behind(c, p, id) {
            let e = choose|e: nat| unfused_behind(c, p, id, e);
            unfused_settles(c, p, id, d, e);
        }
    }
    assert forall|x: SiblingV|
        #[trigger]
        is_fusible_behind(c, p, x) <==> fusible_behind(c, p, x, d) by {
        if is_fusible_behind(c, p, x) {
            let e = choose|e: nat| fusible_behind(c, p, x, e);
            fusible_settles(c, p, x, d, e);
        }
    }
}

/// The runner's transforms behind a collection are transforms of the pipeline.
proof fn unfused_are_there(c: ComponentsV, p: Seq<char>, id: Seq<char>, d: nat)
    requires
        unfused_behind(c, p, id, d),
    ensures
        c.transforms.contains_key(id),
    decreases d,
{
    if !(consumes(c, id, p) && is_runner(c, id)) {
        let (u, q) = choose|u: Seq<char>, q: Seq<char>|
            #[trigger]
            consumes(c, u, p) && is_runner(c, u) && #[trigger] produces(c, u, q)
                && unfused_behind(c, q, id, (d - 1) as nat);
        unfused_are_there(c, q, id, (d - 1) as nat);
    }
}

/// Adds what is behind a collection.
fn add_behind(
    pipeline: &QueryablePipeline,
    pcol: &str,
    unfused: &mut Vec<String>,
    fusible: &mut Vec<Sibling>,
)
    requires
        pipeline.wf(),
        pipeline.model().pcollections.contains_key(pcol@),
        ends(pipeline.model(), pcol@),
        texts(old(unfused)@).no_duplicates(),
        is_sorted(siblings_model(old(fusible)@)),
        belong(pipeline.model(), siblings_model(old(fusible)@)),
        forall|id: Seq<char>|
            #[trigger]
            texts(old(unfused)@).contains(id) ==> pipeline.model().transforms.contains_key(id),
    ensures
        texts(final(unfused)@).no_duplicates(),
        is_sorted(siblings_model(final(fusible)@)),
        belong(pipeline.model(), siblings_model(final(fusible)@)),
        forall|id: Seq<char>|
            #[trigger]
            texts(final(unfused)@).contains(id) ==> pipeline.model().transforms.contains_key(id),
        forall|id: Seq<char>|
            #[trigger]
            texts(final(unfused)@).contains(id) <==> texts(old(unfused)@).contains(id)
                || is_unfused_behind(pipeline.model(), pcol@, id),
        forall|x: SiblingV|
            #[trigger]
            siblings_model(final(fusible)@).contains(x) <==> siblings_model(
                old(fusible)@,
            ).contains(x) || is_fusible_behind(pipeline.model(), pcol@, x),
{
    let ghost c = pipeline.model();
    let ghost d = choose|d: nat| ends_within(c, pcol@, d);
    let ghost start = texts(unfused@);
    proof {
        behind_settles(c, pcol@, d);
    }
    collect_behind(pipeline, pcol, unfused, fusible, Ghost(d));
    proof {
        assert forall|id: Seq<char>| #[trigger] texts(unfused@).contains(id) implies
            c.transforms.contains_key(id) by {
            if !start.contains(id) {
                unfused_are_there(c, pcol@, id, d);
            }
        }
    }
}

// ---------------------------------------------------------------------------
// Consumers as nodes
// ---------------------------------------------------------------------------
impl CollectionConsumers {
    /// The consumer by its ids.
    pub open spec fn model(self) -> SiblingV {
        SiblingV { pcol: self.collection.id@, transform: self.transform.id@ }
    }

    /// Whether the consumer is of the pipeline.
    pub open spec fn belongs(self, c: ComponentsV) -> bool {
        &&& self.transform.wf()
        &&& c.pcollections.contains_key(self.collection.id@)
        &&& self.collection.model() == pcol_at(c, self.collection.id@)
        &&& c.transforms.contains_key(self.transform.id@)
        &&& self.transform.model() == node_at(c, self.transform.id@)
    }
}

pub open spec fn consumers_model(s: Seq<CollectionConsumers>) -> Seq<SiblingV> {
    Seq::new(s.len(), |i: int| s[i].model())
}

/// Whether the consumers are of the pipeline.
pub open spec fn consumers_belong(c: ComponentsV, s: Seq<CollectionConsumers>) -> bool {
    forall|i: int| 0 <= i < s.len() ==> (#[trigger] s[i]).belongs(c)
}

/// The nodes of some consumers.
fn consumers_of(pipeline: &QueryablePipeline, siblings: &Vec<Sibling>) -> (r: Vec<
    CollectionConsumers,
>)
    requires
        pipeline.wf(),
        belong(pipeline.model(), siblings_model(siblings@)),
    ensures
        consumers_belong(pipeline.model(), r@),
        consumers_model(r@) == siblings_model(siblings@),
{
    let ghost c = pipeline.model();
    let ghost s = siblings_model(siblings@);
    let n: usize = siblings.len();
    let mut out: Vec<CollectionConsumers> = Vec::new();
    let mut i: usize = 0;
    while i < n
        invariant
            pipeline.wf(),
            c == pipeline.model(),
            s == siblings_model(siblings@),
            belong(c, s),
            n == siblings@.len(),
            i <= n,
            out@.len() == i,
            consumers_belong(c, out@),
            forall|k: int| 0 <= k < i ==> (#[trigger] out@[k]).model() == s[k],
        decreases n - i,
    {
        assert(s[i as int] == siblings@[i as int].model());
        match (
            pipeline.pcollection_node(siblings[i].pcol.as_str()),
            pipeline.node(siblings[i].transform.as_str()),
        ) {
            (Some(pcol), Some(node)) => {
                let x = CollectionConsumers::of(pcol, node);
                assert(x.collection.model().id == s[i as int].pcol);
                assert(x.transform.model().id == s[i as int].transform);
                out.push(x);
            },
            _ => {
                assert(false);
            },
        }
        i = i + 1;
    }
    assert(consumers_model(out@) =~= s);
    out
}

/// Some consumers by their ids, in their order.
fn siblings_of(consumers: &Vec<CollectionConsumers>) -> (r: Vec<Sibling>)
    ensures
        is_sorted(siblings_model(r@)),
        forall|x: SiblingV|
            #[trigger]
            siblings_model(r@).contains(x) <==> consumers_model(consumers@).contains(x),
{
    let ghost s = consumers_model(consumers@);
    let n: usize = consumers.len();
    let mut out: Vec<Sibling> = Vec::new();
    let mut i: usize = 0;
    while i < n
        invariant
            s == consumers_model(consumers@),
            n == consumers@.len(),
            i <= n,
            is_sorted(siblings_model(out@)),
            forall|x: SiblingV|
                #[trigger]
                siblings_model(out@).contains(x) <==> exists|k: int|
                    0 <= k < i && #[trigger] s[k] == x,
        decreases n - i,
    {
        let ghost before = siblings_model(out@);
        let x = Sibling {
            pcol: consumers[i].collection.id.clone(),
            transform: consumers[i].transform.id.clone(),
        };
        assert(s[i as int] == x.model());
        insert_sibling(&mut out, x);
        proof {
            assert forall|y: SiblingV|
                #[trigger]
                siblings_model(out@).contains(y) <==> exists|k: int|
                    0 <= k < i + 1 && #[trigger] s[k] == y by {
                if before.contains(y) {
                    let k = choose|k: int| 0 <= k < i && #[trigger] s[k] == y;
                    assert(s[k] == y);
                }
                if y == s[i as int] {
                    assert(s[i as int] == y);
                }
            }
        }
        i = i + 1;
    }
    proof {
        assert forall|x: SiblingV|
            #[trigger]
            siblings_model(out@).contains(x) <==> s.contains(x) by {
            if siblings_model(out@).contains(x) {
                let k = choose|k: int| 0 <= k < n && #[trigger] s[k] == x;
                assert(s.contains(s[k]));
            }
        }
    }
    out
}

// ---------------------------------------------------------------------------
// A run of the fuser
// ---------------------------------------------------------------------------
/// The transforms of a group.
pub open spec fn transforms_of(g: Seq<SiblingV>) -> Seq<Seq<char>> {
    Seq::new(g.len(), |i: int| g[i].transform)
}

/// Whether the stage is that of the group.
pub open spec fn is_stage_of(c: ComponentsV, g: Seq<SiblingV>, stage: ExecutableStage) -> bool {
    exists|s: ExecutableStage|
        #[trigger]
        is_stage(c, g[0].pcol, transforms_of(g), s) && s.wf() && sanitized(s, stage)
}

/// Whether these are the consumers behind a collection, in their order.
pub open spec fn are_behind(c: ComponentsV, p: Seq<char>, s: Seq<SiblingV>) -> bool {
    is_sorted(s) && forall|x: SiblingV| #[trigger] s.contains(x) <==> is_fusible_behind(c, p, x)
}

/// Whether these are the first consumers, in their order.
pub open spec fn are_first(initial: Seq<SiblingV>, s: Seq<SiblingV>) -> bool {
    is_sorted(s) && forall|x: SiblingV| #[trigger] s.contains(x) <==> initial.contains(x)
}

/// Whether the group is one of those behind an output of the stage.
pub open spec fn is_group_behind(
    c: ComponentsV,
    stage: ExecutableStage,
    g: Seq<SiblingV>,
) -> bool {
    exists|p: Seq<char>, s: Seq<SiblingV>|
        #[trigger]
        pcol_ids(stage.output_pcols@).contains(p) && #[trigger] are_behind(c, p, s) && grouped(
            c,
            s,
        ).contains(g)
}

/// Whether the group is one of the first, or behind an output of one of the first
/// `n` stages.
pub open spec fn is_due(
    c: ComponentsV,
    initial: Seq<SiblingV>,
    stages: Seq<ExecutableStage>,
    n: int,
    g: Seq<SiblingV>,
) -> bool {
    ||| exists|s: Seq<SiblingV>| #[trigger] are_first(initial, s) && grouped(c, s).contains(g)
    ||| exists|k: int| 0 <= k < n && is_group_behind(c, #[trigger] stages[k], g)
}

/// Whether the stages are those of groups that were due, each when its turn came,
/// and no consumer is in two of them.
pub open spec fn is_run(
    c: ComponentsV,
    initial: Seq<SiblingV>,
    groups: Seq<Seq<SiblingV>>,
    stages: Seq<ExecutableStage>,
) -> bool {
    &&& groups.len() == stages.len()
    &&& forall|k: int|
        0 <= k < stages.len() ==> (#[trigger] groups[k]).len() > 0 && can_be_stage(
            c,
            transforms_of(groups[k]),
        ) && is_due(c, initial, stages, k, groups[k])
    &&& forall|k: int|
        0 <= k < stages.len() ==> (#[trigger] stages[k]).wf() && is_stage_of(
            c,
            groups[k],
            stages[k],
        )
    &&& forall|j: int, k: int, x: SiblingV|
        0 <= j < groups.len() && 0 <= k < groups.len() && #[trigger] groups[j].contains(x)
            && #[trigger] groups[k].contains(x) ==> j == k
}

/// Whether the run is complete: every first consumer, and every one behind an output
/// of a stage, is in a group.
pub open spec fn is_complete(
    c: ComponentsV,
    initial: Seq<SiblingV>,
    groups: Seq<Seq<SiblingV>>,
    stages: Seq<ExecutableStage>,
) -> bool {
    &&& forall|x: SiblingV| #[trigger] initial.contains(x) ==> in_groups(groups, x)
    &&& forall|k: int, p: Seq<char>, x: SiblingV|
        0 <= k < stages.len() && #[trigger] pcol_ids(stages[k].output_pcols@).contains(p)
            && #[trigger] is_fusible_behind(c, p, x) ==> in_groups(groups, x)
}

/// Whether these are the runner's transforms: the first ones, and those behind the
/// outputs of the stages.
pub open spec fn are_unfused(
    c: ComponentsV,
    initial: Seq<PTransformNode>,
    stages: Seq<ExecutableStage>,
    unfused: Seq<PTransformNode>,
) -> bool {
    &&& are_nodes(c, unfused)
    &&& forall|id: Seq<char>|
        #[trigger]
        node_ids(unfused).contains(id) <==> node_ids(initial).contains(id) || exists|
            k: int,
            p: Seq<char>,
        |
            0 <= k < stages.len() && #[trigger] pcol_ids(stages[k].output_pcols@).contains(p)
                && is_unfused_behind(c, p, id)
}

/// Whether some members of the group, but not all, are in other groups.
pub open spec fn is_torn(groups: Seq<Seq<SiblingV>>, g: Seq<SiblingV>) -> bool {
    &&& exists|x: SiblingV| #[trigger] g.contains(x) && in_groups(groups, x)
    &&& exists|x: SiblingV| #[trigger] g.contains(x) && !in_groups(groups, x)
}

/// Fuses a pipeline, as much as it can.
pub struct GreedyPipelineFuser {
    pub pipeline: QueryablePipeline,
}

impl GreedyPipelineFuser {
    pub open spec fn wf(self) -> bool {
        self.pipeline.wf()
    }

    pub open spec fn model(self) -> ComponentsV {
        self.pipeline.model()
    }

    pub fn with(p: QueryablePipeline) -> (r: GreedyPipelineFuser)
        ensures
            r.pipeline == p,
    {
        GreedyPipelineFuser { pipeline: p }
    }

    /// The stage that starts with a group.
    pub fn fuse_siblings(&self, group: &Vec<Sibling>) -> (r: Result<
        ExecutableStage,
        BeamTranslationError,
    >)
        requires
            self.wf(),
            group@.len() > 0,
            belong(self.model(), siblings_model(group@)),
        ensures
            match r {
                Ok(stage) => can_be_stage(
                    self.model(),
                    transforms_of(siblings_model(group@)),
                ) && stage.wf() && is_stage_of(self.model(), siblings_model(group@), stage),
                Err(e) => !can_be_stage(self.model(), transforms_of(siblings_model(group@)))
                    && refuses_stage(self.model(), transforms_of(siblings_model(group@)), e),
            },
    {
        let ghost c = self.model();
        let ghost g = siblings_model(group@);
        let n: usize = group.len();
        let mut ids: Vec<String> = Vec::new();
        let mut i: usize = 0;
        while i < n
            invariant
                g == siblings_model(group@),
                n == group@.len(),
                i <= n,
                ids@.len() == i,
                forall|k: int| 0 <= k < i ==> (#[trigger] ids@[k])@ == g[k].transform,
            decreases n - i,
        {
            ids.push(group[i].transform.clone());
            i = i + 1;
        }
        proof {
            assert(texts(ids@) =~= transforms_of(g));
            assert forall|x: Seq<char>| #[trigger] texts(ids@).contains(x) implies
                c.transforms.contains_key(x) by {
                let k = choose|k: int| 0 <= k < texts(ids@).len() && texts(ids@)[k] == x;
                assert(g[k].transform == x);
            }
            assert(g[0] == group@[0].model());
        }
        match self.pipeline.pcollection_node(group[0].pcol.as_str()) {
            Some(pcol) => {
                assert(pcol.model().id == g[0].pcol);
                GreedyStageFuser::fuse(&self.pipeline, &pcol, &ids)
            },
            None => {
                assert(false);
                Err(BeamTranslationError::NotFound(String::new()))
            },
        }
    }

    /// The groups of some consumers.
    pub fn group_siblings(&self, consumers: &Vec<CollectionConsumers>) -> (r: Vec<
        Vec<CollectionConsumers>,
    >)
        requires
            self.wf(),
            consumers_belong(self.model(), consumers@),
        ensures
            exists|s: Seq<SiblingV>| #[trigger]
                are_first(consumers_model(consumers@), s) && grouped(self.model(), s) == Seq::new(
                    r@.len(),
                    |k: int| consumers_model(r@[k]@),
                ),
            forall|k: int|
                0 <= k < r@.len() ==> consumers_belong(self.model(), (#[trigger] r@[k])@),
    {
        let ghost c = self.model();
        let siblings: Vec<Sibling> = siblings_of(consumers);
        let ghost s = siblings_model(siblings@);
        proof {
            firsts_belong(c, consumers@, s);
        }
        let groups: Vec<Vec<Sibling>> = group_consumers(&self.pipeline, &siblings);
        let n: usize = groups.len();
        let mut out: Vec<Vec<CollectionConsumers>> = Vec::new();
        let mut i: usize = 0;
        while i < n
            invariant
                self.wf(),
                c == self.model(),
                belong(c, s),
                groups_model(groups@) == grouped(c, s),
                n == groups@.len(),
                i <= n,
                out@.len() == i,
                forall|k: int| 0 <= k < i ==> consumers_belong(c, (#[trigger] out@[k])@),
                forall|k: int|
                    0 <= k < i ==> consumers_model((#[trigger] out@[k])@) == grouped(c, s)[k],
            decreases n - i,
        {
            proof {
                assert(groups_model(groups@)[i as int] == siblings_model(groups@[i as int]@));
                group_belongs(c, s, i as int);
            }
            out.push(consumers_of(&self.pipeline, &groups[i]));
            i = i + 1;
        }
        proof {
            assert(groups_model(groups@).len() == groups@.len());
            assert(grouped(c, s) =~= Seq::new(out@.len(), |k: int| consumers_model(out@[k]@)));
            assert(are_first(consumers_model(consumers@), s));
        }
        out
    }

    /// What is behind the outputs of a transform.
    pub fn get_root_consumers(&self, root: &PTransformNode) -> (r: DescendantConsumers)
        requires
            self.wf(),
            root.wf(),
            forall|p: Seq<char>|
                #[trigger]
                gives(self.model(), root.transform.model(), p) ==> ends(self.model(), p),
        ensures
            nodes_wf(r.unfusible@),
            are_nodes(self.model(), r.unfusible@),
            consumers_belong(self.model(), r.fusible@),
            is_sorted(consumers_model(r.fusible@)),
            forall|id: Seq<char>|
                #[trigger]
                node_ids(r.unfusible@).contains(id) <==> exists|p: Seq<char>|
                    #[trigger]
                    gives(self.model(), root.transform.model(), p) && is_unfused_behind(
                        self.model(),
                        p,
                        id,
                    ),
            forall|x: SiblingV|
                #[trigger]
                consumers_model(r.fusible@).contains(x) <==> exists|p: Seq<char>|
                    #[trigger]
                    gives(self.model(), root.transform.model(), p) && is_fusible_behind(
                        self.model(),
                        p,
                        x,
                    ),
    {
        let ghost c = self.model();
        let ghost t = root.transform.model();
        let outputs: Vec<String> = self.pipeline.output_ids(&root.transform);
        let n: usize = outputs.len();
        let mut unfused: Vec<String> = Vec::new();
        let mut fusible: Vec<Sibling> = Vec::new();
        let mut i: usize = 0;
        while i < n
            invariant
                self.wf(),
                c == self.model(),
                forall|p: Seq<char>| #[trigger] gives(c, t, p) ==> ends(c, p),
                lists(outputs@, |id: Seq<char>| gives(c, t, id)),
                n == outputs@.len(),
                i <= n,
                texts(unfused@).no_duplicates(),
                is_sorted(siblings_model(fusible@)),
                belong(c, siblings_model(fusible@)),
                forall|id: Seq<char>|
                    #[trigger]
                    texts(unfused@).contains(id) ==> c.transforms.contains_key(id),
                forall|id: Seq<char>|
                    #[trigger]
                    texts(unfused@).contains(id) <==> exists|k: int|
                        0 <= k < i && is_unfused_behind(c, (#[trigger] outputs@[k])@, id),
                forall|x: SiblingV|
                    #[trigger]
                    siblings_model(fusible@).contains(x) <==> exists|k: int|
                        0 <= k < i && is_fusible_behind(c, (#[trigger] outputs@[k])@, x),
            decreases n - i,
        {
            let ghost u0 = texts(unfused@);
            let ghost f0 = siblings_model(fusible@);
            let ghost p = outputs@[i as int]@;
            proof {
                assert(texts(outputs@)[i as int] == p);
                assert(texts(outputs@).contains(p));
                assert(gives(c, t, p));
            }
            add_behind(&self.pipeline, outputs[i].as_str(), &mut unfused, &mut fusible);
            proof {
                assert forall|id: Seq<char>|
                    #[trigger]
                    texts(unfused@).contains(id) <==> exists|k: int|
                        0 <= k < i + 1 && is_unfused_behind(c, (#[trigger] outputs@[k])@, id) by {
                    if u0.contains(id) {
                        let k = choose|k: int|
                            0 <= k < i && is_unfused_behind(c, (#[trigger] outputs@[k])@, id);
                        assert(is_unfused_behind(c, outputs@[k]@, id));
                    }
                    if is_unfused_behind(c, p, id) {
                        assert(is_unfused_behind(c, outputs@[i as int]@, id));
                    }
                    if exists|k: int|
                        0 <= k < i + 1 && is_unfused_behind(c, (#[trigger] outputs@[k])@, id) {
                        let k = choose|k: int|
                            0 <= k < i + 1 && is_unfused_behind(c, (#[trigger] outputs@[k])@, id);
                        if k < i {
                            assert(u0.contains(id));
                        }
                    }
                }
                assert forall|x: SiblingV|
                    #[trigger]
                    siblings_model(fusible@).contains(x) <==> exists|k: int|
                        0 <= k < i + 1 && is_fusible_behind(c, (#[trigger] outputs@[k])@, x) by {
                    if f0.contains(x) {
                        let k = choose|k: int|
                            0 <= k < i && is_fusible_behind(c, (#[trigger] outputs@[k])@, x);
                        assert(is_fusible_behind(c, outputs@[k]@, x));
                    }
                    if is_fusible_behind(c, p, x) {
                        assert(is_fusible_behind(c, outputs@[i as int]@, x));
                    }
                    if exists|k: int|
                        0 <= k < i + 1 && is_fusible_behind(c, (#[trigger] outputs@[k])@, x) {
                        let k = choose|k: int|
                            0 <= k < i + 1 && is_fusible_behind(c, (#[trigger] outputs@[k])@, x);
                        if k < i {
                            assert(f0.contains(x));
                        }
                    }
                }
            }
            i = i + 1;
        }
        let r: DescendantConsumers = self.descendants(&unfused, &fusible);
        proof {
            assert forall|id: Seq<char>|
                #[trigger]
                texts(unfused@).contains(id) <==> exists|p: Seq<char>|
                    #[trigger]
                    gives(c, t, p) && is_unfused_behind(c, p, id) by {
                if texts(unfused@).contains(id) {
                    let k = choose|k: int|
                        0 <= k < n && is_unfused_behind(c, (#[trigger] outputs@[k])@, id);
                    assert(texts(outputs@)[k] == outputs@[k]@);
                    assert(texts(outputs@).contains(outputs@[k]@));
                    assert(gives(c, t, outputs@[k]@));
                }
                if exists|p: Seq<char>| #[trigger] gives(c, t, p) && is_unfused_behind(c, p, id) {
                    let p = choose|p: Seq<char>|
                        #[trigger]
                        gives(c, t, p) && is_unfused_behind(c, p, id);
                    assert(texts(outputs@).contains(p));
                    let k = choose|k: int| 0 <= k < texts(outputs@).len() && texts(outputs@)[k] == p;
                    assert(outputs@[k]@ == p);
                }
            }
            assert forall|x: SiblingV|
                #[trigger]
                siblings_model(fusible@).contains(x) <==> exists|p: Seq<char>|
                    #[trigger]
                    gives(c, t, p) && is_fusible_behind(c, p, x) by {
                if siblings_model(fusible@).contains(x) {
                    let k = choose|k: int|
                        0 <= k < n && is_fusible_behind(c, (#[trigger] outputs@[k])@, x);
                    assert(texts(outputs@)[k] == outputs@[k]@);
                    assert(texts(outputs@).contains(outputs@[k]@));
                    assert(gives(c, t, outputs@[k]@));
                }
                if exists|p: Seq<char>| #[trigger] gives(c, t, p) && is_fusible_behind(c, p, x) {
                    let p = choose|p: Seq<char>|
                        #[trigger]
                        gives(c, t, p) && is_fusible_behind(c, p, x);
                    assert(texts(outputs@).contains(p));
                    let k = choose|k: int| 0 <= k < texts(outputs@).len() && texts(outputs@)[k] == p;
                    assert(outputs@[k]@ == p);
                }
            }
        }
        r
    }

    /// The nodes of what was found behind some collections.
    fn descendants(&self, unfused: &Vec<String>, fusible: &Vec<Sibling>) -> (r: DescendantConsumers)
        requires
            self.wf(),
            texts(unfused@).no_duplicates(),
            forall|id: Seq<char>|
                #[trigger]
                texts(unfused@).contains(id) ==> self.model().transforms.contains_key(id),
            belong(self.model(), siblings_model(fusible@)),
        ensures
            nodes_wf(r.unfusible@),
            are_nodes(self.model(), r.unfusible@),
            node_ids(r.unfusible@) == texts(unfused@),
            consumers_belong(self.model(), r.fusible@),
            consumers_model(r.fusible@) == siblings_model(fusible@),
    {
        let ghost c = self.model();
        let nodes: Vec<PTransformNode> = self.pipeline.nodes(unfused);
        proof {
            nodes_are(c, unfused@, nodes@);
        }
        DescendantConsumers::new(nodes, consumers_of(&self.pipeline, fusible))
    }

    /// What is behind a collection: the runner's transforms, and the consumers
    /// behind which nothing is looked for.
    pub fn get_descendant_consumers(&self, pcol: &PCollectionNode) -> (r: DescendantConsumers)
        requires
            self.wf(),
            self.model().pcollections.contains_key(pcol.id@),
            ends(self.model(), pcol.id@),
        ensures
            nodes_wf(r.unfusible@),
            are_nodes(self.model(), r.unfusible@),
            consumers_belong(self.model(), r.fusible@),
            is_sorted(consumers_model(r.fusible@)),
            forall|id: Seq<char>|
                #[trigger]
                node_ids(r.unfusible@).contains(id) <==> is_unfused_behind(
                    self.model(),
                    pcol.id@,
                    id,
                ),
            forall|x: SiblingV|
                #[trigger]
                consumers_model(r.fusible@).contains(x) <==> is_fusible_behind(
                    self.model(),
                    pcol.id@,
                    x,
                ),
    {
        let mut unfused: Vec<String> = Vec::new();
        let mut fusible: Vec<Sibling> = Vec::new();
        add_behind(&self.pipeline, pcol.id.as_str(), &mut unfused, &mut fusible);
        self.descendants(&unfused, &fusible)
    }
}

pub proof fn nodes_are(c: ComponentsV, ids: Seq<String>, nodes: Seq<PTransformNode>)
    requires
        nodes_of(c, ids, nodes),
        texts(ids).no_duplicates(),
        forall|id: Seq<char>| #[trigger] texts(ids).contains(id) ==> c.transforms.contains_key(id),
    ensures
        node_ids(nodes) == texts(ids),
        are_nodes(c, nodes),
{
    assert forall|i: int| 0 <= i < nodes.len() implies (#[trigger] nodes[i]).id@ == ids[i]@
        && nodes[i].model() == node_at(c, nodes[i].id@) && c.transforms.contains_key(
        nodes[i].id@,
    ) by {
        assert(nodes[i].model().id == ids[i]@);
        assert(texts(ids)[i] == ids[i]@);
        assert(texts(ids).contains(ids[i]@));
    }
    assert(node_ids(nodes) =~= texts(ids));
}

proof fn firsts_belong(c: ComponentsV, consumers: Seq<CollectionConsumers>, s: Seq<SiblingV>)
    requires
        consumers_belong(c, consumers),
        forall|x: SiblingV|
            #[trigger]
            s.contains(x) <==> consumers_model(consumers).contains(x),
    ensures
        belong(c, s),
{
    assert forall|i: int| 0 <= i < s.len() implies c.transforms.contains_key(
        (#[trigger] s[i]).transform,
    ) && c.pcollections.contains_key(s[i].pcol) by {
        assert(s.contains(s[i]));
        let m = consumers_model(consumers);
        let k = choose|k: int| 0 <= k < m.len() && m[k] == s[i];
        assert(consumers[k].belongs(c));
    }
}

/// The members of a group of some consumers are of the pipeline, as these are.
proof fn group_belongs(c: ComponentsV, s: Seq<SiblingV>, k: int)
    requires
        belong(c, s),
        0 <= k < grouped(c, s).len(),
    ensures
        belong(c, grouped(c, s)[k]),
{
    let g = grouped(c, s)[k];
    assert forall|i: int| 0 <= i < g.len() implies c.transforms.contains_key(
        (#[trigger] g[i]).transform,
    ) && c.pcollections.contains_key(g[i].pcol) by {
        assert(g.contains(g[i]));
        assert(in_groups(grouped(c, s), g[i]));
        groups_cover(c, s, g[i]);
        let j = choose|j: int| 0 <= j < s.len() && s[j] == g[i];
        assert(s[j] == g[i]);
    }
}

// ---------------------------------------------------------------------------
// The run
// ---------------------------------------------------------------------------
/// All pairs of collections and transforms.
spec fn pairs(ts: Seq<Seq<char>>, ps: Seq<Seq<char>>) -> Seq<SiblingV>
    decreases ts.len(),
{
    if ts.len() == 0 {
        seq![]
    } else {
        pairs(ts.drop_last(), ps) + Seq::new(
            ps.len(),
            |i: int| SiblingV { pcol: ps[i], transform: ts.last() },
        )
    }
}

proof fn pairs_hold(ts: Seq<Seq<char>>, ps: Seq<Seq<char>>, x: SiblingV)
    requires
        ts.contains(x.transform),
        ps.contains(x.pcol),
    ensures
        pairs(ts, ps).contains(x),
    decreases ts.len(),
{
    let most = pairs(ts.drop_last(), ps);
    let all = pairs(ts, ps);
    let i = choose|i: int| 0 <= i < ts.len() && ts[i] == x.transform;
    if i < ts.len() - 1 {
        assert(ts.drop_last()[i] == x.transform);
        pairs_hold(ts.drop_last(), ps, x);
        let k = choose|k: int| 0 <= k < most.len() && most[k] == x;
        assert(all[k] == x);
    } else {
        let j = choose|j: int| 0 <= j < ps.len() && ps[j] == x.pcol;
        assert(all[most.len() + j] == x);
    }
}

/// There are no more consumers than pairs.
proof fn consumers_bound(pipeline: QueryablePipeline, s: Seq<SiblingV>)
    requires
        pipeline.wf(),
        s.no_duplicates(),
        belong(pipeline.model(), s),
    ensures
        s.len() <= pairs(
            names(pipeline.components.transforms.entries@),
            names(pipeline.components.pcollections.entries@),
        ).len(),
{
    let all = pairs(
        names(pipeline.components.transforms.entries@),
        names(pipeline.components.pcollections.entries@),
    );
    s.unique_seq_to_set();
    all.lemma_cardinality_of_set();
    assert forall|x: SiblingV| s.to_set().contains(x) implies all.to_set().contains(x) by {
        let i = choose|i: int| 0 <= i < s.len() && s[i] == x;
        assert(pipeline.components.transforms@.contains_key(s[i].transform));
        assert(pipeline.components.pcollections@.contains_key(s[i].pcol));
        pairs_hold(
            names(pipeline.components.transforms.entries@),
            names(pipeline.components.pcollections.entries@),
            x,
        );
    }
    vstd::set_lib::lemma_len_subset(s.to_set(), all.to_set());
}

/// Whether the consumer is in a group from the `head`th on.
spec fn queued(pending: Seq<Vec<Sibling>>, head: int, x: SiblingV) -> bool {
    exists|k: int|
        head <= k < pending.len() && #[trigger] siblings_model(pending[k]@).contains(x)
}

/// What is due stays due.
proof fn stays_due(
    c: ComponentsV,
    initial: Seq<SiblingV>,
    stages: Seq<ExecutableStage>,
    stage: ExecutableStage,
    n: int,
    g: Seq<SiblingV>,
)
    requires
        is_due(c, initial, stages, n, g),
        n <= stages.len(),
    ensures
        is_due(c, initial, stages.push(stage), n, g),
        is_due(c, initial, stages.push(stage), stages.len() as int, g),
        is_due(c, initial, stages.push(stage), (stages.len() + 1) as int, g),
{
    if !(exists|s: Seq<SiblingV>| #[trigger] are_first(initial, s) && grouped(c, s).contains(g)) {
        let k = choose|k: int| 0 <= k < n && is_group_behind(c, #[trigger] stages[k], g);
        assert(stages.push(stage)[k] == stages[k]);
    }
}

/// One more stage of a run.
proof fn one_more_stage(
    c: ComponentsV,
    initial: Seq<SiblingV>,
    groups: Seq<Seq<SiblingV>>,
    stages: Seq<ExecutableStage>,
    g: Seq<SiblingV>,
    stage: ExecutableStage,
)
    requires
        is_run(c, initial, groups, stages),
        g.len() > 0,
        can_be_stage(c, transforms_of(g)),
        is_due(c, initial, stages, stages.len() as int, g),
        stage.wf(),
        is_stage_of(c, g, stage),
        forall|x: SiblingV| #[trigger] g.contains(x) ==> !in_groups(groups, x),
    ensures
        is_run(c, initial, groups.push(g), stages.push(stage)),
        forall|x: SiblingV|
            #[trigger]
            in_groups(groups.push(g), x) <==> in_groups(groups, x) || g.contains(x),
{
    let gs = groups.push(g);
    let ss = stages.push(stage);
    let n = stages.len() as int;
    assert forall|k: int| 0 <= k < ss.len() implies (#[trigger] gs[k]).len() > 0 && can_be_stage(
        c,
        transforms_of(gs[k]),
    ) && is_due(c, initial, ss, k, gs[k]) by {
        if k < n {
            assert(gs[k] == groups[k]);
            stays_due(c, initial, stages, stage, k, groups[k]);
        } else {
            stays_due(c, initial, stages, stage, n, g);
        }
    }
    assert forall|k: int| 0 <= k < ss.len() implies (#[trigger] ss[k]).wf() && is_stage_of(
        c,
        gs[k],
        ss[k],
    ) by {
        if k < n {
            assert(ss[k] == stages[k]);
            assert(gs[k] == groups[k]);
        }
    }
    assert forall|j: int, k: int, x: SiblingV|
        0 <= j < gs.len() && 0 <= k < gs.len() && #[trigger] gs[j].contains(x)
            && #[trigger] gs[k].contains(x) implies j == k by {
        if j < n {
            assert(gs[j] == groups[j]);
            assert(groups[j].contains(x));
        }
        if k < n {
            assert(gs[k] == groups[k]);
            assert(groups[k].contains(x));
        }
        if j < n && k == n {
            assert(in_groups(groups, x));
        }
        if k < n && j == n {
            assert(in_groups(groups, x));
        }
    }
    assert forall|x: SiblingV|
        #[trigger]
        in_groups(gs, x) <==> in_groups(groups, x) || g.contains(x) by {
        if in_groups(gs, x) {
            let k = choose|k: int| 0 <= k < gs.len() && (#[trigger] gs[k]).contains(x);
            if k < n {
                assert(groups[k] == gs[k]);
                assert(groups[k].contains(x));
            }
        }
        if in_groups(groups, x) {
            let k = choose|k: int| 0 <= k < groups.len() && (#[trigger] groups[k]).contains(x);
            assert(gs[k] == groups[k]);
            assert(gs[k].contains(x));
        }
        if g.contains(x) {
            assert(gs[n] == g);
            assert(gs[n].contains(x));
        }
    }
}

/// How many of the group are among the consumers: none, some or all.
enum Share {
    Nothing,
    Part,
    Everything,
}

/// How many of the group are among the consumers.
fn share_of(group: &Vec<Sibling>, consumed: &Vec<Sibling>) -> (r: Share)
    requires
        group@.len() > 0,
    ensures
        match r {
            Share::Nothing => forall|x: SiblingV|
                #[trigger]
                siblings_model(group@).contains(x) ==> !siblings_model(consumed@).contains(x),
            Share::Part => (exists|x: SiblingV|
                #[trigger]
                siblings_model(group@).contains(x) && siblings_model(consumed@).contains(x)) && (
            exists|x: SiblingV|
                #[trigger]
                siblings_model(group@).contains(x) && !siblings_model(consumed@).contains(x)),
            Share::Everything => forall|x: SiblingV|
                #[trigger]
                siblings_model(group@).contains(x) ==> siblings_model(consumed@).contains(x),
        },
{
    let ghost g = siblings_model(group@);
    let ghost d = siblings_model(consumed@);
    let n: usize = group.len();
    let mut some: bool = false;
    let mut missing: bool = false;
    let mut i: usize = 0;
    while i < n
        invariant
            g == siblings_model(group@),
            d == siblings_model(consumed@),
            n == group@.len(),
            i <= n,
            some <==> exists|k: int| 0 <= k < i && d.contains(#[trigger] g[k]),
            missing <==> exists|k: int| 0 <= k < i && !d.contains(#[trigger] g[k]),
        decreases n - i,
    {
        assert(g[i as int] == group@[i as int].model());
        if has_sibling(consumed, &group[i]) {
            some = true;
        } else {
            missing = true;
        }
        i = i + 1;
    }
    proof {
        assert forall|k: int| 0 <= k < n implies g.contains(#[trigger] g[k]) by {}
    }
    if some {
        if missing {
            Share::Part
        } else {
            Share::Everything
        }
    } else {
        Share::Nothing
    }
}

/// Adds the members of a group to the consumers.
fn consume(consumed: &mut Vec<Sibling>, group: &Vec<Sibling>)
    requires
        siblings_model(old(consumed)@).no_duplicates(),
    ensures
        siblings_model(final(consumed)@).no_duplicates(),
        final(consumed)@.len() >= old(consumed)@.len(),
        forall|x: SiblingV|
            #[trigger]
            siblings_model(final(consumed)@).contains(x) <==> siblings_model(
                old(consumed)@,
            ).contains(x) || siblings_model(group@).contains(x),
{
    let ghost g = siblings_model(group@);
    let ghost start = siblings_model(consumed@);
    let n: usize = group.len();
    let mut i: usize = 0;
    assert forall|x: SiblingV| !g.take(0).contains(x) by {}
    while i < n
        invariant
            g == siblings_model(group@),
            n == group@.len(),
            i <= n,
            siblings_model(consumed@).no_duplicates(),
            consumed@.len() >= start.len(),
            forall|x: SiblingV|
                #[trigger]
                siblings_model(consumed@).contains(x) <==> start.contains(x) || exists|k: int|
                    0 <= k < i && #[trigger] g[k] == x,
        decreases n - i,
    {
        let ghost before = siblings_model(consumed@);
        let ghost x0 = g[i as int];
        assert(x0 == group@[i as int].model());
        if !has_sibling(consumed, &group[i]) {
            consumed.push(group[i].duplicate());
            proof {
                assert(siblings_model(consumed@) =~= before.push(x0));
                assert forall|x: SiblingV|
                    #[trigger]
                    siblings_model(consumed@).contains(x) <==> before.contains(x) || x == x0 by {
                    let all = siblings_model(consumed@);
                    if before.contains(x) {
                        let k = choose|k: int| 0 <= k < before.len() && before[k] == x;
                        assert(all[k] == x);
                    }
                    if x == x0 {
                        assert(all[before.len() as int] == x);
                    }
                }
                let all = siblings_model(consumed@);
                assert forall|a: int, b: int|
                    0 <= a < all.len() && 0 <= b < all.len() && a != b implies all[a] != all[b] by {
                    if a < before.len() {
                        assert(before.contains(before[a]));
                    }
                    if b < before.len() {
                        assert(before.contains(before[b]));
                    }
                }
            }
        }
        proof {
            assert forall|x: SiblingV|
                #[trigger]
                siblings_model(consumed@).contains(x) <==> start.contains(x) || exists|k: int|
                    0 <= k < i + 1 && #[trigger] g[k] == x by {
                if before.contains(x) && !start.contains(x) {
                    let k = choose|k: int| 0 <= k < i && #[trigger] g[k] == x;
                    assert(g[k] == x);
                }
                if x == x0 {
                    assert(g[i as int] == x);
                }
            }
        }
        i = i + 1;
    }
}

/// What the loop over the outputs of a stage adds to the groups that wait.
spec fn pending_added(
    c: ComponentsV,
    outputs: Seq<Seq<char>>,
    before: Seq<Vec<Sibling>>,
    after: Seq<Vec<Sibling>>,
) -> bool {
    &&& after.len() >= before.len()
    &&& forall|k: int| 0 <= k < before.len() ==> #[trigger] after[k] == before[k]
    &&& forall|k: int|
        before.len() <= k < after.len() ==> {
            let g = siblings_model((#[trigger] after[k])@);
            &&& g.len() > 0
            &&& belong(c, g)
            &&& exists|p: Seq<char>, s: Seq<SiblingV>|
                #[trigger]
                outputs.contains(p) && #[trigger] are_behind(c, p, s) && grouped(c, s).contains(g)
        }
    &&& forall|p: Seq<char>, x: SiblingV|
        #[trigger]
        outputs.contains(p) && #[trigger] is_fusible_behind(c, p, x) ==> queued(
            after,
            before.len() as int,
            x,
        )
}

impl GreedyPipelineFuser {
    /// Adds the groups behind a collection.
    fn follow(&self, pcol: &str, unfused: &mut Vec<String>, pending: &mut Vec<Vec<Sibling>>)
        requires
            self.wf(),
            self.model().pcollections.contains_key(pcol@),
            ends(self.model(), pcol@),
            texts(old(unfused)@).no_duplicates(),
            forall|id: Seq<char>|
                #[trigger]
                texts(old(unfused)@).contains(id) ==> self.model().transforms.contains_key(id),
        ensures
            texts(final(unfused)@).no_duplicates(),
            forall|id: Seq<char>|
                #[trigger]
                texts(final(unfused)@).contains(id) ==> self.model().transforms.contains_key(id),
            forall|id: Seq<char>|
                #[trigger]
                texts(final(unfused)@).contains(id) <==> texts(old(unfused)@).contains(id)
                    || is_unfused_behind(self.model(), pcol@, id),
            pending_added(self.model(), seq![pcol@], old(pending)@, final(pending)@),
    {
        let ghost c = self.model();
        let ghost start = pending@;
        let mut fusible: Vec<Sibling> = Vec::new();
        add_behind(&self.pipeline, pcol, unfused, &mut fusible);
        let ghost s = siblings_model(fusible@);
        let mut groups: Vec<Vec<Sibling>> = group_consumers(&self.pipeline, &fusible);
        let ghost gs = groups@;
        pending.append(&mut groups);
        proof {
            assert(groups_model(gs).len() == gs.len());
            assert(are_behind(c, pcol@, s));
            assert(seq![pcol@][0] == pcol@);
            assert(seq![pcol@].contains(pcol@));
            assert forall|k: int| start.len() <= k < pending@.len() implies {
                let g = siblings_model((#[trigger] pending@[k])@);
                &&& g.len() > 0
                &&& belong(c, g)
                &&& exists|p: Seq<char>, s: Seq<SiblingV>|
                    #[trigger]
                    seq![pcol@].contains(p) && #[trigger] are_behind(c, p, s) && grouped(
                        c,
                        s,
                    ).contains(g)
            } by {
                let j = k - start.len();
                assert(pending@[k] == gs[j]);
                assert(groups_model(gs)[j] == siblings_model(gs[j]@));
                group_belongs(c, s, j);
                crate::fusion::groups::groups_are_compatible(c, s);
                assert(grouped(c, s).contains(grouped(c, s)[j]));
            }
            assert forall|p: Seq<char>, x: SiblingV|
                #[trigger]
                seq![pcol@].contains(p) && #[trigger] is_fusible_behind(c, p, x) implies queued(
                pending@,
                start.len() as int,
                x,
            ) by {
                assert(p == pcol@);
                assert(s.contains(x));
                groups_cover(c, s, x);
                let j = choose|j: int|
                    0 <= j < grouped(c, s).len() && (#[trigger] grouped(c, s)[j]).contains(x);
                assert(groups_model(gs)[j] == siblings_model(gs[j]@));
                assert(pending@[start.len() + j] == gs[j]);
                assert(siblings_model(pending@[start.len() + j]@).contains(x));
            }
        }
    }

    /// Adds the groups behind the outputs of a stage.
    fn follow_outputs(
        &self,
        outputs: &Vec<PCollectionNode>,
        unfused: &mut Vec<String>,
        pending: &mut Vec<Vec<Sibling>>,
    )
        requires
            self.wf(),
            forall|p: Seq<char>|
                #[trigger]
                pcol_ids(outputs@).contains(p) ==> self.model().pcollections.contains_key(p)
                    && ends(self.model(), p),
            texts(old(unfused)@).no_duplicates(),
            forall|id: Seq<char>|
                #[trigger]
                texts(old(unfused)@).contains(id) ==> self.model().transforms.contains_key(id),
        ensures
            texts(final(unfused)@).no_duplicates(),
            forall|id: Seq<char>|
                #[trigger]
                texts(final(unfused)@).contains(id) ==> self.model().transforms.contains_key(id),
            forall|id: Seq<char>|
                #[trigger]
                texts(final(unfused)@).contains(id) <==> texts(old(unfused)@).contains(id)
                    || exists|p: Seq<char>|
                    #[trigger]
                    pcol_ids(outputs@).contains(p) && is_unfused_behind(self.model(), p, id),
            pending_added(self.model(), pcol_ids(outputs@), old(pending)@, final(pending)@),
    {
        let ghost c = self.model();
        let ghost start = pending@;
        let ghost u0 = texts(unfused@);
        let ghost ids = pcol_ids(outputs@);
        let n: usize = outputs.len();
        let mut i: usize = 0;
        assert(ids.take(0) =~= seq![]);
        while i < n
            invariant
                self.wf(),
                c == self.model(),
                ids == pcol_ids(outputs@),
                forall|p: Seq<char>|
                    #[trigger]
                    ids.contains(p) ==> c.pcollections.contains_key(p) && ends(c, p),
                n == outputs@.len(),
                i <= n,
                texts(unfused@).no_duplicates(),
                forall|id: Seq<char>|
                    #[trigger]
                    texts(unfused@).contains(id) ==> c.transforms.contains_key(id),
                forall|id: Seq<char>|
                    #[trigger]
                    texts(unfused@).contains(id) <==> u0.contains(id) || exists|p: Seq<char>|
                        #[trigger]
                        ids.take(i as int).contains(p) && is_unfused_behind(c, p, id),
                pending_added(c, ids.take(i as int), start, pending@),
            decreases n - i,
        {
            let ghost before = pending@;
            let ghost ub = texts(unfused@);
            let ghost p0 = outputs@[i as int].id@;
            proof {
                assert(ids[i as int] == p0);
                assert(ids.contains(p0));
                taken_one_more(ids, i as int);
            }
            self.follow(outputs[i].id.as_str(), unfused, pending);
            proof {
                pending_chain(c, ids.take(i as int), p0, ids.take(i + 1), start, before, pending@);
                assert forall|id: Seq<char>|
                    #[trigger]
                    texts(unfused@).contains(id) <==> u0.contains(id) || exists|p: Seq<char>|
                        #[trigger]
                        ids.take(i + 1).contains(p) && is_unfused_behind(c, p, id) by {
                    if ub.contains(id) && !u0.contains(id) {
                        let p = choose|p: Seq<char>|
                            #[trigger]
                            ids.take(i as int).contains(p) && is_unfused_behind(c, p, id);
                        assert(ids.take(i + 1).contains(p));
                    }
                    if is_unfused_behind(c, p0, id) {
                        assert(ids.take(i + 1).contains(p0));
                    }
                    if exists|p: Seq<char>|
                        #[trigger]
                        ids.take(i + 1).contains(p) && is_unfused_behind(c, p, id) {
                        let p = choose|p: Seq<char>|
                            #[trigger]
                            ids.take(i + 1).contains(p) && is_unfused_behind(c, p, id);
                        if p != p0 {
                            assert(ids.take(i as int).contains(p));
                            assert(ub.contains(id));
                        }
                    }
                }
            }
            i = i + 1;
        }
        assert(ids.take(n as int) =~= ids);
    }
}

proof fn pending_chain(
    c: ComponentsV,
    some: Seq<Seq<char>>,
    p0: Seq<char>,
    more: Seq<Seq<char>>,
    start: Seq<Vec<Sibling>>,
    mid: Seq<Vec<Sibling>>,
    end: Seq<Vec<Sibling>>,
)
    requires
        forall|p: Seq<char>| #[trigger] more.contains(p) <==> some.contains(p) || p == p0,
        pending_added(c, some, start, mid),
        pending_added(c, seq![p0], mid, end),
    ensures
        pending_added(c, more, start, end),
{
    assert forall|k: int| 0 <= k < start.len() implies #[trigger] end[k] == start[k] by {
        assert(end[k] == mid[k]);
    }
    assert forall|k: int| start.len() <= k < end.len() implies {
        let g = siblings_model((#[trigger] end[k])@);
        &&& g.len() > 0
        &&& belong(c, g)
        &&& exists|p: Seq<char>, s: Seq<SiblingV>|
            #[trigger]
            more.contains(p) && #[trigger] are_behind(c, p, s) && grouped(c, s).contains(g)
    } by {
        let g = siblings_model(end[k]@);
        if k < mid.len() {
            assert(end[k] == mid[k]);
            let (p, s) = choose|p: Seq<char>, s: Seq<SiblingV>|
                #[trigger]
                some.contains(p) && #[trigger] are_behind(c, p, s) && grouped(c, s).contains(g);
            assert(more.contains(p) && are_behind(c, p, s));
        } else {
            let (p, s) = choose|p: Seq<char>, s: Seq<SiblingV>|
                #[trigger]
                seq![p0].contains(p) && #[trigger] are_behind(c, p, s) && grouped(c, s).contains(g);
            assert(p == p0);
            assert(more.contains(p) && are_behind(c, p, s));
        }
    }
    assert forall|p: Seq<char>, x: SiblingV|
        #[trigger]
        more.contains(p) && #[trigger] is_fusible_behind(c, p, x) implies queued(
        end,
        start.len() as int,
        x,
    ) by {
        if p == p0 {
            assert(seq![p0][0] == p0);
            assert(seq![p0].contains(p));
            assert(queued(end, mid.len() as int, x));
            let k = choose|k: int|
                mid.len() <= k < end.len() && #[trigger] siblings_model(end[k]@).contains(x);
            assert(siblings_model(end[k]@).contains(x));
        } else {
            assert(some.contains(p));
            assert(queued(mid, start.len() as int, x));
            let k = choose|k: int|
                start.len() <= k < mid.len() && #[trigger] siblings_model(mid[k]@).contains(x);
            assert(end[k] == mid[k]);
            assert(siblings_model(end[k]@).contains(x));
        }
    }
}

/// Whether the outputs of a group's stage are collections of the pipeline, each
/// listed once.
proof fn outputs_are_there(c: ComponentsV, g: Seq<SiblingV>, stage: ExecutableStage)
    requires
        is_stage_of(c, g, stage),
    ensures
        pcol_ids(stage.output_pcols@).no_duplicates(),
        forall|p: Seq<char>|
            #[trigger]
            pcol_ids(stage.output_pcols@).contains(p) ==> c.pcollections.contains_key(p),
{
    let s = choose|s: ExecutableStage|
        #[trigger]
        is_stage(c, g[0].pcol, transforms_of(g), s) && s.wf() && sanitized(s, stage);
    assert(stage.output_pcols == s.output_pcols);
    assert forall|p: Seq<char>| #[trigger] pcol_ids(stage.output_pcols@).contains(p) implies
        c.pcollections.contains_key(p) by {
        let ids = pcol_ids(s.output_pcols@);
        let i = choose|i: int| 0 <= i < ids.len() && ids[i] == p;
        assert(c.pcollections.contains_key(s.output_pcols@[i].id@));
    }
}

/// The stages of a run, and the runner's transforms by their ids.
struct Run {
    stages: Vec<ExecutableStage>,
    unfused: Vec<String>,
}

/// Whether the ids are those of the first transforms of the runner and of those
/// behind the outputs of the stages.
spec fn unfused_ids(
    c: ComponentsV,
    initial: Seq<Seq<char>>,
    stages: Seq<ExecutableStage>,
    ids: Seq<Seq<char>>,
) -> bool {
    forall|id: Seq<char>|
        #[trigger]
        ids.contains(id) <==> initial.contains(id) || exists|k: int, p: Seq<char>|
            0 <= k < stages.len() && #[trigger] pcol_ids(stages[k].output_pcols@).contains(p)
                && is_unfused_behind(c, p, id)
}

/// Whether the run stopped at this group with this error: only a part of the group is in
/// other groups, or none of it is and it cannot be a stage.
pub open spec fn stops_at(
    c: ComponentsV,
    initial: Seq<SiblingV>,
    groups: Seq<Seq<SiblingV>>,
    stages: Seq<ExecutableStage>,
    g: Seq<SiblingV>,
    e: BeamTranslationError,
) -> bool {
    &&& is_run(c, initial, groups, stages)
    &&& is_due(c, initial, stages, stages.len() as int, g)
    &&& if is_torn(groups, g) {
        e matches BeamTranslationError::InvalidState(m) && m@
            == "Inconsistent collection of siblings reported"@
    } else {
        &&& forall|x: SiblingV| #[trigger] g.contains(x) ==> !in_groups(groups, x)
        &&& !can_be_stage(c, transforms_of(g))
        &&& refuses_stage(c, transforms_of(g), e)
    }
}

impl GreedyPipelineFuser {
    #[verifier::rlimit(100)]
    fn run(&self, initial_unfused: &Vec<String>, consumers: &Vec<CollectionConsumers>) -> (r:
        Result<Run, BeamTranslationError>)
        requires
            self.wf(),
            consumers_belong(self.model(), consumers@),
            texts(initial_unfused@).no_duplicates(),
            forall|id: Seq<char>|
                #[trigger]
                texts(initial_unfused@).contains(id) ==> self.model().transforms.contains_key(id),
            forall|p: Seq<char>|
                #[trigger]
                self.model().pcollections.contains_key(p) ==> ends(self.model(), p),
        ensures
            match r {
                Ok(run) => texts(run.unfused@).no_duplicates() && (forall|id: Seq<char>|
                    #[trigger]
                    texts(run.unfused@).contains(id) ==> self.model().transforms.contains_key(id))
                    && unfused_ids(
                    self.model(),
                    texts(initial_unfused@),
                    run.stages@,
                    texts(run.unfused@),
                ) && exists|groups: Seq<Seq<SiblingV>>|
                    #[trigger]
                    is_run(self.model(), consumers_model(consumers@), groups, run.stages@)
                        && is_complete(
                        self.model(),
                        consumers_model(consumers@),
                        groups,
                        run.stages@,
                    ),
                Err(e) => exists|
                    groups: Seq<Seq<SiblingV>>,
                    stages: Seq<ExecutableStage>,
                    g: Seq<SiblingV>,
                |
                    #[trigger]
                    stops_at(self.model(), consumers_model(consumers@), groups, stages, g, e),
            },
    {
        let ghost c = self.model();
        let ghost init = consumers_model(consumers@);
        let ghost bound = pairs(
            names(self.pipeline.components.transforms.entries@),
            names(self.pipeline.components.pcollections.entries@),
        ).len();
        let siblings: Vec<Sibling> = siblings_of(consumers);
        let ghost first = siblings_model(siblings@);
        proof {
            firsts_belong(c, consumers@, first);
            assert(are_first(init, first));
        }
        let mut pending: Vec<Vec<Sibling>> = group_consumers(&self.pipeline, &siblings);
        let mut head: usize = 0;
        let mut unfused: Vec<String> = crate::named::copy_texts(initial_unfused);
        let mut consumed: Vec<Sibling> = Vec::new();
        let mut stages: Vec<ExecutableStage> = Vec::new();
        let ghost mut groups: Seq<Seq<SiblingV>> = seq![];
        proof {
            assert(groups_model(pending@).len() == pending@.len());
            assert forall|k: int| 0 <= k < pending@.len() implies {
                let g = siblings_model((#[trigger] pending@[k])@);
                &&& g.len() > 0
                &&& belong(c, g)
                &&& is_due(c, init, stages@, 0, g)
            } by {
                assert(groups_model(pending@)[k] == siblings_model(pending@[k]@));
                group_belongs(c, first, k);
                crate::fusion::groups::groups_are_compatible(c, first);
                assert(grouped(c, first).contains(grouped(c, first)[k]));
            }
            assert forall|x: SiblingV| #[trigger] init.contains(x) implies queued(
                pending@,
                0,
                x,
            ) by {
                assert(first.contains(x));
                groups_cover(c, first, x);
                let j = choose|j: int|
                    0 <= j < grouped(c, first).len() && (#[trigger] grouped(c, first)[j]).contains(
                        x,
                    );
                assert(groups_model(pending@)[j] == siblings_model(pending@[j]@));
                assert(siblings_model(pending@[j]@).contains(x));
            }
        }
        while head < pending.len()
            invariant
                self.wf(),
                c == self.model(),
                init == consumers_model(consumers@),
                bound == pairs(
                    names(self.pipeline.components.transforms.entries@),
                    names(self.pipeline.components.pcollections.entries@),
                ).len(),
                forall|p: Seq<char>| #[trigger] c.pcollections.contains_key(p) ==> ends(c, p),
                head <= pending@.len(),
                texts(unfused@).no_duplicates(),
                forall|id: Seq<char>|
                    #[trigger]
                    texts(unfused@).contains(id) ==> c.transforms.contains_key(id),
                unfused_ids(c, texts(initial_unfused@), stages@, texts(unfused@)),
                is_run(c, init, groups, stages@),
                siblings_model(consumed@).no_duplicates(),
                belong(c, siblings_model(consumed@)),
                consumed@.len() <= bound,
                forall|x: SiblingV|
                    #[trigger]
                    siblings_model(consumed@).contains(x) <==> in_groups(groups, x),
                forall|k: int|
                    head <= k < pending@.len() ==> {
                        let g = siblings_model((#[trigger] pending@[k])@);
                        &&& g.len() > 0
                        &&& belong(c, g)
                        &&& is_due(c, init, stages@, stages@.len() as int, g)
                    },
                forall|x: SiblingV|
                    #[trigger]
                    init.contains(x) ==> in_groups(groups, x) || queued(pending@, head as int, x),
                forall|k: int, p: Seq<char>, x: SiblingV|
                    0 <= k < stages@.len() && #[trigger] pcol_ids(
                        stages@[k].output_pcols@,
                    ).contains(p) && #[trigger] is_fusible_behind(c, p, x) ==> in_groups(groups, x)
                        || queued(pending@, head as int, x),
            decreases bound - consumed@.len(), pending@.len() - head,
        {
            let ghost g = siblings_model(pending@[head as int]@);
            let ghost old_pending = pending@;
            let ghost old_head = head as int;
            let ghost old_stages = stages@;
            let ghost old_groups = groups;
            let ghost old_consumed = siblings_model(consumed@);
            let ghost old_unfused = texts(unfused@);
            assert(g.len() == pending@[head as int]@.len());
            match share_of(&pending[head], &consumed) {
                Share::Part => {
                    let e = BeamTranslationError::InvalidState(
                        "Inconsistent collection of siblings reported".to_owned(),
                    );
                    proof {
                        let x = choose|x: SiblingV|
                            #[trigger]
                            g.contains(x) && old_consumed.contains(x);
                        assert(g.contains(x) && in_groups(groups, x));
                        let y = choose|y: SiblingV|
                            #[trigger]
                            g.contains(y) && !old_consumed.contains(y);
                        assert(g.contains(y) && !in_groups(groups, y));
                        assert(is_torn(groups, g));
                        assert(stops_at(c, init, groups, stages@, g, e));
                    }
                    return Err(e);
                },
                Share::Everything => {
                    head = head + 1;
                    proof {
                        assert forall|x: SiblingV|
                            #[trigger]
                            queued(pending@, old_head, x) implies queued(pending@, old_head + 1, x)
                            || in_groups(groups, x) by {
                            let k = choose|k: int|
                                old_head <= k < pending@.len() && #[trigger] siblings_model(
                                    pending@[k]@,
                                ).contains(x);
                            if k > old_head {
                                assert(siblings_model(pending@[k]@).contains(x));
                            } else {
                                assert(g.contains(x));
                            }
                        }
                    }
                },
                Share::Nothing => {
                    let stage: ExecutableStage = match self.fuse_siblings(&pending[head]) {
                        Ok(stage) => stage,
                        Err(e) => {
                            assert(stops_at(c, init, groups, stages@, g, e));
                            return Err(e);
                        },
                    };
                    consume(&mut consumed, &pending[head]);
                    head = head + 1;
                    proof {
                        outputs_are_there(c, g, stage);
                    }
                    self.follow_outputs(&stage.output_pcols, &mut unfused, &mut pending);
                    let ghost s0 = stage;
                    stages.push(stage);
                    proof {
                        assert forall|x: SiblingV| #[trigger] g.contains(x) implies !in_groups(
                            old_groups,
                            x,
                        ) by {}
                        one_more_stage(c, init, old_groups, old_stages, g, s0);
                        groups = old_groups.push(g);
                        assert(stages@ =~= old_stages.push(s0));
                        self.after_stage(
                            init,
                            g,
                            s0,
                            old_stages,
                            old_groups,
                            old_pending,
                            old_head,
                            pending@,
                        );
                        unfused_grow(
                            c,
                            texts(initial_unfused@),
                            old_stages,
                            s0,
                            old_unfused,
                            texts(unfused@),
                        );
                        let now = siblings_model(consumed@);
                        assert forall|i: int| 0 <= i < now.len() implies c.transforms.contains_key(
                            (#[trigger] now[i]).transform,
                        ) && c.pcollections.contains_key(now[i].pcol) by {
                            assert(now.contains(now[i]));
                            if old_consumed.contains(now[i]) {
                                let j = choose|j: int|
                                    0 <= j < old_consumed.len() && old_consumed[j] == now[i];
                                assert(old_consumed[j] == now[i]);
                            } else {
                                let j = choose|j: int| 0 <= j < g.len() && g[j] == now[i];
                                assert(g[j] == now[i]);
                            }
                        }
                        consumers_bound(self.pipeline, now);
                        // a member of the group is new among the consumers
                        assert(g.contains(g[0]));
                        assert(!old_consumed.contains(g[0]));
                        assert(now.contains(g[0]));
                        grows(old_consumed, now, g[0]);
                    }
                },
            }
        }
        proof {
            assert forall|x: SiblingV| !#[trigger] queued(pending@, head as int, x) by {}
            assert(is_complete(c, init, groups, stages@));
        }
        let run = Run { stages, unfused };
        assert(is_run(c, init, groups, run.stages@) && is_complete(c, init, groups, run.stages@));
        Ok(run)
    }

    /// The groups that wait after a stage was made.
    proof fn after_stage(
        self,
        init: Seq<SiblingV>,
        g: Seq<SiblingV>,
        stage: ExecutableStage,
        stages: Seq<ExecutableStage>,
        groups: Seq<Seq<SiblingV>>,
        old_pending: Seq<Vec<Sibling>>,
        old_head: int,
        pending: Seq<Vec<Sibling>>,
    )
        requires
            0 <= old_head < old_pending.len(),
            g == siblings_model(old_pending[old_head]@),
            pending_added(self.model(), pcol_ids(stage.output_pcols@), old_pending, pending),
            forall|x: SiblingV|
                #[trigger]
                in_groups(groups.push(g), x) <==> in_groups(groups, x) || g.contains(x),
            forall|k: int|
                old_head <= k < old_pending.len() ==> {
                    let h = siblings_model((#[trigger] old_pending[k])@);
                    &&& h.len() > 0
                    &&& belong(self.model(), h)
                    &&& is_due(self.model(), init, stages, stages.len() as int, h)
                },
            forall|x: SiblingV|
                #[trigger]
                init.contains(x) ==> in_groups(groups, x) || queued(old_pending, old_head, x),
            forall|k: int, p: Seq<char>, x: SiblingV|
                0 <= k < stages.len() && #[trigger] pcol_ids(stages[k].output_pcols@).contains(p)
                    && #[trigger] is_fusible_behind(self.model(), p, x) ==> in_groups(groups, x)
                    || queued(old_pending, old_head, x),
        ensures
            forall|k: int|
                old_head + 1 <= k < pending.len() ==> {
                    let h = siblings_model((#[trigger] pending[k])@);
                    &&& h.len() > 0
                    &&& belong(self.model(), h)
                    &&& is_due(
                        self.model(),
                        init,
                        stages.push(stage),
                        (stages.len() + 1) as int,
                        h,
                    )
                },
            forall|x: SiblingV|
                #[trigger]
                init.contains(x) ==> in_groups(groups.push(g), x) || queued(
                    pending,
                    old_head + 1,
                    x,
                ),
            forall|k: int, p: Seq<char>, x: SiblingV|
                0 <= k < stages.push(stage).len() && #[trigger] pcol_ids(
                    stages.push(stage)[k].output_pcols@,
                ).contains(p) && #[trigger] is_fusible_behind(self.model(), p, x) ==> in_groups(
                    groups.push(g),
                    x,
                ) || queued(pending, old_head + 1, x),
    {
        let c = self.model();
        let ss = stages.push(stage);
        let n = stages.len() as int;
        assert forall|x: SiblingV| #[trigger] queued(old_pending, old_head, x) implies in_groups(
            groups.push(g),
            x,
        ) || queued(pending, old_head + 1, x) by {
            let k = choose|k: int|
                old_head <= k < old_pending.len() && #[trigger] siblings_model(
                    old_pending[k]@,
                ).contains(x);
            assert(pending[k] == old_pending[k]);
            if k > old_head {
                assert(siblings_model(pending[k]@).contains(x));
            } else {
                assert(g.contains(x));
            }
        }
        assert forall|x: SiblingV| #[trigger] queued(
            pending,
            old_pending.len() as int,
            x,
        ) implies queued(pending, old_head + 1, x) by {
            let k = choose|k: int|
                old_pending.len() <= k < pending.len() && #[trigger] siblings_model(
                    pending[k]@,
                ).contains(x);
            assert(siblings_model(pending[k]@).contains(x));
        }
        assert forall|k: int| old_head + 1 <= k < pending.len() implies {
            let h = siblings_model((#[trigger] pending[k])@);
            &&& h.len() > 0
            &&& belong(c, h)
            &&& is_due(c, init, ss, (stages.len() + 1) as int, h)
        } by {
            let h = siblings_model(pending[k]@);
            if k < old_pending.len() {
                assert(pending[k] == old_pending[k]);
                stays_due(c, init, stages, stage, n, h);
            } else {
                let (p, s) = choose|p: Seq<char>, s: Seq<SiblingV>|
                    #[trigger]
                    pcol_ids(stage.output_pcols@).contains(p) && #[trigger] are_behind(c, p, s)
                        && grouped(c, s).contains(h);
                assert(pcol_ids(stage.output_pcols@).contains(p) && are_behind(c, p, s));
                assert(ss[n] == stage);
                assert(is_group_behind(c, ss[n], h));
            }
        }
        assert forall|k: int, p: Seq<char>, x: SiblingV|
            0 <= k < ss.len() && #[trigger] pcol_ids(ss[k].output_pcols@).contains(p)
                && #[trigger] is_fusible_behind(c, p, x) implies in_groups(groups.push(g), x)
            || queued(pending, old_head + 1, x) by {
            if k < n {
                assert(ss[k] == stages[k]);
                assert(pcol_ids(stages[k].output_pcols@).contains(p));
            } else {
                assert(ss[k] == stage);
                assert(pcol_ids(stage.output_pcols@).contains(p));
                assert(queued(pending, old_pending.len() as int, x));
            }
        }
    }
}

proof fn grows(a: Seq<SiblingV>, b: Seq<SiblingV>, x: SiblingV)
    requires
        a.no_duplicates(),
        b.no_duplicates(),
        forall|y: SiblingV| #[trigger] a.contains(y) ==> b.contains(y),
        b.contains(x),
        !a.contains(x),
    ensures
        b.len() > a.len(),
{
    a.unique_seq_to_set();
    b.unique_seq_to_set();
    assert(a.to_set().insert(x).subset_of(b.to_set()));
    vstd::set_lib::lemma_len_subset(a.to_set().insert(x), b.to_set());
}

proof fn unfused_grow(
    c: ComponentsV,
    initial: Seq<Seq<char>>,
    stages: Seq<ExecutableStage>,
    stage: ExecutableStage,
    before: Seq<Seq<char>>,
    after: Seq<Seq<char>>,
)
    requires
        unfused_ids(c, initial, stages, before),
        forall|id: Seq<char>|
            #[trigger]
            after.contains(id) <==> before.contains(id) || exists|p: Seq<char>|
                #[trigger]
                pcol_ids(stage.output_pcols@).contains(p) && is_unfused_behind(c, p, id),
    ensures
        unfused_ids(c, initial, stages.push(stage), after),
{
    let ss = stages.push(stage);
    let n = stages.len() as int;
    assert forall|id: Seq<char>|
        #[trigger]
        after.contains(id) <==> initial.contains(id) || exists|k: int, p: Seq<char>|
            0 <= k < ss.len() && #[trigger] pcol_ids(ss[k].output_pcols@).contains(p)
                && is_unfused_behind(c, p, id) by {
        if before.contains(id) && !initial.contains(id) {
            let (k, p) = choose|k: int, p: Seq<char>|
                0 <= k < stages.len() && #[trigger] pcol_ids(stages[k].output_pcols@).contains(p)
                    && is_unfused_behind(c, p, id);
            assert(ss[k] == stages[k]);
            assert(pcol_ids(ss[k].output_pcols@).contains(p));
        }
        if exists|p: Seq<char>|
            #[trigger]
            pcol_ids(stage.output_pcols@).contains(p) && is_unfused_behind(c, p, id) {
            let p = choose|p: Seq<char>|
                #[trigger]
                pcol_ids(stage.output_pcols@).contains(p) && is_unfused_behind(c, p, id);
            assert(ss[n] == stage);
            assert(pcol_ids(ss[n].output_pcols@).contains(p));
        }
        if exists|k: int, p: Seq<char>|
            0 <= k < ss.len() && #[trigger] pcol_ids(ss[k].output_pcols@).contains(p)
                && is_unfused_behind(c, p, id) {
            let (k, p) = choose|k: int, p: Seq<char>|
                0 <= k < ss.len() && #[trigger] pcol_ids(ss[k].output_pcols@).contains(p)
                    && is_unfused_behind(c, p, id);
            if k < n {
                assert(ss[k] == stages[k]);
                assert(pcol_ids(stages[k].output_pcols@).contains(p));
                assert(before.contains(id));
            } else {
                assert(pcol_ids(stage.output_pcols@).contains(p));
            }
        }
    }
}

/// Whether the stages come from a run and its runner's transforms: each collection
/// got one producer, and nothing dangles.
pub open spec fn is_outcome(
    stages: Seq<ExecutableStage>,
    unfused: Seq<PTransformNode>,
    d: DeduplicationResult,
    f: FusedPipeline,
) -> bool {
    &&& f.sdk_stages@.len() == stages.len()
    &&& forall|k: int|
        0 <= k < stages.len() ==> (#[trigger] f.sdk_stages@[k]).wf() && came_from(
            stage_after(stages, d, k),
            f.sdk_stages@[k],
        )
    &&& nodes_wf(f.runner_stages@)
    &&& f.runner_stages@.len() == unfused.len() + d.introduced_transforms@.len()
    &&& forall|k: int|
        0 <= k < unfused.len() ==> (#[trigger] f.runner_stages@[k]).model() == node_after(
            unfused,
            d,
            k,
        )
    &&& forall|k: int|
        0 <= k < d.introduced_transforms@.len() ==> f.runner_stages@[unfused.len() + k].model() == (
        #[trigger] d.introduced_transforms@[k]).model()
}

/// What a pipeline is fused into, starting with these transforms of the runner and
/// these consumers.
pub open spec fn is_fused(
    c: ComponentsV,
    initial_unfused: Seq<PTransformNode>,
    initial: Seq<SiblingV>,
    f: FusedPipeline,
) -> bool {
    exists|
        groups: Seq<Seq<SiblingV>>,
        stages: Seq<ExecutableStage>,
        unfused: Seq<PTransformNode>,
        d: DeduplicationResult,
    |
        #[trigger]
        is_run(c, initial, groups, stages) && is_complete(c, initial, groups, stages)
            && are_unfused(c, initial_unfused, stages, unfused) && #[trigger] deduplicated(
            c,
            stages,
            unfused,
            d,
        ) && is_outcome(stages, unfused, d, f)
}

/// Whether the pipeline cannot be fused, and this is the error: the run stops at some
/// group.
pub open spec fn is_stuck(
    c: ComponentsV,
    initial: Seq<SiblingV>,
    e: BeamTranslationError,
) -> bool {
    exists|groups: Seq<Seq<SiblingV>>, stages: Seq<ExecutableStage>, g: Seq<SiblingV>|
        #[trigger]
        stops_at(c, initial, groups, stages, g, e)
}

/// No stage of a run lists a collection twice.
proof fn run_lists_once(
    c: ComponentsV,
    initial: Seq<SiblingV>,
    groups: Seq<Seq<SiblingV>>,
    stages: Seq<ExecutableStage>,
    unfused: Seq<PTransformNode>,
)
    requires
        is_run(c, initial, groups, stages),
    ensures
        !lists_twice(c, stages, unfused),
{
    assert forall|k: int| !#[trigger] stage_lists_twice(c, stages, unfused, k) by {
        if 0 <= k < stages.len() {
            assert(stages[k].wf());
            outputs_are_there(c, groups[k], stages[k]);
            let o = stages[k].output_pcols@;
            assert forall|i: int, j: int| 0 <= i < j < o.len() implies (#[trigger] o[i]).id@ != (
            #[trigger] o[j]).id@ by {
                assert(pcol_ids(o)[i] != pcol_ids(o)[j]);
            }
        }
    }
}

impl GreedyPipelineFuser {
    /// Fuses the pipeline: from the first consumers on, each group of consumers
    /// becomes a stage, and behind the outputs of each stage the next groups are
    /// found.
    pub fn fuse_pipeline(
        &self,
        initial_unfused: &Vec<PTransformNode>,
        initial_consumers: &Vec<CollectionConsumers>,
    ) -> (r: Result<FusedPipeline, BeamTranslationError>)
        requires
            self.wf(),
            nodes_wf(initial_unfused@),
            are_nodes(self.model(), initial_unfused@),
            consumers_belong(self.model(), initial_consumers@),
            forall|p: Seq<char>|
                #[trigger]
                self.model().pcollections.contains_key(p) ==> ends(self.model(), p),
        ensures
            match r {
                Ok(f) => is_fused(
                    self.model(),
                    initial_unfused@,
                    consumers_model(initial_consumers@),
                    f,
                ),
                Err(e) => is_stuck(self.model(), consumers_model(initial_consumers@), e),
            },
    {
        let ghost c = self.model();
        let ghost init = consumers_model(initial_consumers@);
        let n: usize = initial_unfused.len();
        let mut ids: Vec<String> = Vec::new();
        let mut i: usize = 0;
        while i < n
            invariant
                n == initial_unfused@.len(),
                i <= n,
                ids@.len() == i,
                forall|k: int| 0 <= k < i ==> (#[trigger] ids@[k])@ == initial_unfused@[k].id@,
            decreases n - i,
        {
            ids.push(initial_unfused[i].id.clone());
            i = i + 1;
        }
        proof {
            assert(texts(ids@) =~= node_ids(initial_unfused@));
            assert forall|id: Seq<char>| #[trigger] texts(ids@).contains(id) implies
                c.transforms.contains_key(id) by {
                let k = choose|k: int| 0 <= k < texts(ids@).len() && texts(ids@)[k] == id;
                assert(c.transforms.contains_key(initial_unfused@[k].id@));
            }
        }
        let run: Run = match self.run(&ids, initial_consumers) {
            Ok(run) => run,
            Err(e) => {
                return Err(e);
            },
        };
        let ghost groups = choose|groups: Seq<Seq<SiblingV>>|
            #[trigger]
            is_run(c, init, groups, run.stages@) && is_complete(c, init, groups, run.stages@);
        let unfused: Vec<PTransformNode> = self.pipeline.nodes(&run.unfused);
        proof {
            nodes_are(c, run.unfused@, unfused@);
            assert(are_unfused(c, initial_unfused@, run.stages@, unfused@));
            run_lists_once(c, init, groups, run.stages@, unfused@);
            assert forall|k: int| 0 <= k < run.stages@.len() implies (
            #[trigger] run.stages@[k]).wf() by {}
        }
        let d: DeduplicationResult = match ensure_single_producer(
            &self.pipeline,
            &run.stages,
            &unfused,
        ) {
            Ok(d) => d,
            Err(e) => {
                assert(false);
                return Err(e);
            },
        };
        proof {
            assert forall|k: int|
                0 <= k < run.stages@.len() && (#[trigger] d.deduplicated_stages@[k])
                    is Some implies d.deduplicated_stages@[k]->0.wf() by {}
            assert forall|k: int|
                0 <= k < unfused@.len() && (#[trigger] d.deduplicated_transforms@[k])
                    is Some implies d.deduplicated_transforms@[k]->0.wf() by {}
        }
        let f: FusedPipeline = FusedPipeline::of(
            d.get_sdk_stages(&run.stages),
            d.get_runner_stages(&unfused),
        );
        assert(is_outcome(run.stages@, unfused@, d, f));
        Ok(f)
    }
}

} // verus!
