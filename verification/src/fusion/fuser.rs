//! Which transforms go into one stage.
use crate::fusion::payload::{decode_par_do, par_do_payload, ParDoFacts};
use crate::fusion::pipeline::{
    consumes, environment_of, is_par_do_urn, lists, par_do_of, side_consumes, side_names,
    urn_of_transform, QueryablePipeline,
};
use crate::jobservice::urns;
use crate::model::{ComponentsV, Environment, NodeV, PTransform, PTransformNode, TransformV};
use crate::named::{has_text, texts};
use crate::text::same_text;
use vstd::prelude::*;
use vstd::string::*;

pub use crate::fusion::dedup::ensure_single_producer;
pub use crate::fusion::pipeline_fuser::GreedyPipelineFuser;
pub use crate::fusion::sanitize::sanitize_dangling_ptransform_inputs;

verus! {

// ---------------------------------------------------------------------------
// Which transforms may share a stage
// ---------------------------------------------------------------------------
/// The names of the parts of a combine that can be fused.
pub open spec fn is_combine_urn(urn: Seq<char>) -> bool {
    ||| urn == urns::COMBINE_PER_KEY_PRECOMBINE_TRANSFORM_URN@
    ||| urn == urns::COMBINE_PER_KEY_MERGE_ACCUMULATORS_TRANSFORM_URN@
    ||| urn == urns::COMBINE_PER_KEY_EXTRACT_OUTPUTS_TRANSFORM_URN@
}

/// Whether the transform has side inputs, or may have some that cannot be told.
pub open spec fn may_have_side_inputs(c: ComponentsV, t: TransformV) -> bool {
    t.spec is Some && is_par_do_urn(t.spec->0.urn) && (par_do_of(t) is None || exists|n: Seq<char>|
        #[trigger]
        side_names(t).contains(n))
}

/// Whether the transform has states or timers, or may have some that cannot be
/// told.
pub open spec fn may_have_state_or_timers(t: TransformV) -> bool {
    t.spec is Some && t.spec->0.payload.len() > 0 && match par_do_payload(t.spec->0.payload) {
        Some(p) => (exists|n: Seq<char>| #[trigger] p.state_specs.contains(n)) || (exists|
            n: Seq<char>,
        |
            #[trigger]
            p.timer_families.contains(n)),
        None => true,
    }
}

/// Whether the ParDo may stand beside the other: it is the other, or it has
/// neither side inputs nor states nor timers and both have the same environment.
pub open spec fn par_do_compatible(c: ComponentsV, a: NodeV, b: NodeV) -> bool {
    a.id == b.id || (!may_have_side_inputs(c, a.transform) && !may_have_state_or_timers(
        a.transform,
    ) && environment_of(c, a.transform) == environment_of(c, b.transform))
}

/// Whether the first may stand beside the second at the root of a stage.
pub open spec fn compatible_one_way(c: ComponentsV, a: NodeV, b: NodeV) -> bool {
    let urn = urn_of_transform(a.transform);
    if urn == urns::PAR_DO_TRANSFORM@ || urn == urns::SPLITTABLE_PAIR_WITH_RESTRICTION_URN@ || urn
        == urns::SPLITTABLE_SPLIT_AND_SIZE_RESTRICTIONS_URN@ || urn
        == urns::SPLITTABLE_TRUNCATE_SIZED_RESTRICTION_URN@ || urn
        == urns::SPLITTABLE_PROCESS_SIZED_ELEMENTS_AND_RESTRICTIONS_URN@ {
        par_do_compatible(c, a, b)
    } else if is_combine_urn(urn) || urn == urns::ASSIGN_WINDOWS_TRANSFORM@ {
        environment_of(c, a.transform) == environment_of(c, b.transform)
    } else {
        false
    }
}

/// Whether two transforms may root a stage together.
pub open spec fn compatible(c: ComponentsV, a: NodeV, b: NodeV) -> bool {
    compatible_one_way(c, a, b) && compatible_one_way(c, b, a)
}

/// Compatibility does not depend on the order.
pub proof fn compatible_symmetric(c: ComponentsV, a: NodeV, b: NodeV)
    ensures
        compatible(c, a, b) == compatible(c, b, a),
{
}

/// Whether the transform runs in an environment of this kind.
pub open spec fn runs_in(c: ComponentsV, t: TransformV, env: Seq<char>) -> bool {
    environment_of(c, t) is Some && environment_of(c, t)->0.urn == env
}

/// Whether the collection comes back to the ParDo as one of its timers.
pub open spec fn is_timer_loop(t: TransformV, timers: Set<Seq<char>>, pcol: Seq<char>) -> bool {
    exists|n: Seq<char>|
        #[trigger]
        t.inputs.contains_key(n) && t.inputs[n] == pcol && timers.contains(n)
}

/// Whether a ParDo can be fused into a stage of this environment, behind this
/// collection.
pub open spec fn par_do_fuses(c: ComponentsV, t: TransformV, env: Seq<char>, pcol: Seq<char>) -> bool {
    runs_in(c, t, env) && t.spec is Some && t.spec->0.payload.len() > 0 && match par_do_payload(
        t.spec->0.payload,
    ) {
        Some(p) => is_timer_loop(t, p.timer_families, pcol) || (!(exists|n: Seq<char>|
            #[trigger]
            p.state_specs.contains(n)) && !(exists|n: Seq<char>|
            #[trigger]
            p.timer_families.contains(n)) && !may_have_side_inputs(c, t)),
        None => false,
    }
}

/// Whether a transform can be fused into a stage of this environment, behind this
/// collection.
pub open spec fn fuses(c: ComponentsV, t: TransformV, env: Seq<char>, pcol: Seq<char>) -> bool {
    let urn = urn_of_transform(t);
    if urn == urns::PAR_DO_TRANSFORM@ || urn == urns::SPLITTABLE_PAIR_WITH_RESTRICTION_URN@ || urn
        == urns::SPLITTABLE_SPLIT_AND_SIZE_RESTRICTIONS_URN@ {
        par_do_fuses(c, t, env, pcol)
    } else if urn == urns::SPLITTABLE_PROCESS_KEYED_URN@ || urn
        == urns::SPLITTABLE_PROCESS_ELEMENTS_URN@ || urn
        == urns::SPLITTABLE_PROCESS_SIZED_ELEMENTS_AND_RESTRICTIONS_URN@ || urn
        == urns::GROUP_BY_KEY_TRANSFORM@ || urn == urns::CREATE_VIEW_TRANSFORM@ {
        false
    } else if is_combine_urn(urn) || urn == urns::ASSIGN_WINDOWS_TRANSFORM@ {
        runs_in(c, t, env)
    } else {
        urn == urns::FLATTEN_TRANSFORM@
    }
}

/// Whether some transform takes the collection as a side input.
pub open spec fn is_side_input(c: ComponentsV, pcol: Seq<char>) -> bool {
    exists|id: Seq<char>| #[trigger] side_consumes(c, id, pcol)
}

/// Whether the transform takes a collection that some transform takes as a side
/// input.
pub open spec fn shares_side_input(c: ComponentsV, t: TransformV) -> bool {
    exists|n: Seq<char>|
        #[trigger]
        t.inputs.contains_key(n) && c.pcollections.contains_key(t.inputs[n]) && is_side_input(
            c,
            t.inputs[n],
        )
}

/// Whether a collection can be kept inside a stage of this environment: every
/// consumer can be fused and none needs it as a side input.
pub open spec fn collection_fuses(c: ComponentsV, pcol: Seq<char>, env: Seq<char>) -> bool {
    (forall|id: Seq<char>|
        #[trigger]
        consumes(c, id, pcol) ==> !shares_side_input(c, c.transforms[id]) && fuses(
            c,
            c.transforms[id],
            env,
            pcol,
        )) && !is_side_input(c, pcol)
}

/// Whether a collection is kept inside the stage or written out.
#[derive(Debug, Clone, Copy, PartialEq, Eq, Structural)]
pub enum PCollectionFusibility {
    FUSE,
    MATERIALIZE,
}

pub struct GreedyCollectionFuser;

/// What a transform does, or the empty name.
pub fn get_urn(node: &PTransformNode) -> (r: &str)
    ensures
        r@ == urn_of_transform(node.transform.model()),
{
    match &node.transform.spec {
        Some(s) => s.urn.as_str(),
        None => {
            proof {
                reveal_strlit("");
                assert(""@ =~= seq![]);
            }
            ""
        },
    }
}

/// Whether two environments are of the same kind.
pub fn same_environment(a: &Environment, b: &Environment) -> (r: bool)
    ensures
        r == (a.urn@ == b.urn@),
{
    same_text(a.urn.as_str(), b.urn.as_str())
}

fn equal_environments(a: Option<&Environment>, b: Option<&Environment>) -> (r: bool)
    ensures
        r == match (a, b) {
            (Some(x), Some(y)) => x.model() == y.model(),
            (None, None) => true,
            _ => false,
        },
{
    match (a, b) {
        (Some(x), Some(y)) => x.same(y),
        (None, None) => true,
        _ => false,
    }
}

fn is_combine(urn: &str) -> (r: bool)
    ensures
        r == is_combine_urn(urn@),
{
    same_text(urn, urns::COMBINE_PER_KEY_PRECOMBINE_TRANSFORM_URN) || same_text(
        urn,
        urns::COMBINE_PER_KEY_MERGE_ACCUMULATORS_TRANSFORM_URN,
    ) || same_text(urn, urns::COMBINE_PER_KEY_EXTRACT_OUTPUTS_TRANSFORM_URN)
}

/// Whether any text is there, as a set of texts.
proof fn some_text(v: Seq<String>)
    ensures
        v.len() > 0 <==> exists|n: Seq<char>| #[trigger] texts(v).to_set().contains(n),
{
    if v.len() > 0 {
        assert(texts(v)[0] == v[0]@);
        assert(texts(v).to_set().contains(v[0]@));
    }
}

impl GreedyCollectionFuser {
    /// Whether two transforms may root a stage together.
    pub fn is_compatible(
        node: &PTransformNode,
        other: &PTransformNode,
        pipeline: &QueryablePipeline,
    ) -> (r: bool)
        requires
            pipeline.wf(),
        ensures
            r == compatible(pipeline.model(), node.model(), other.model()),
    {
        Self::is_compatible_one_way(node, other, pipeline) && Self::is_compatible_one_way(
            other,
            node,
            pipeline,
        )
    }

    /// Whether the first may stand beside the second.
    pub fn is_compatible_one_way(
        node: &PTransformNode,
        other: &PTransformNode,
        pipeline: &QueryablePipeline,
    ) -> (r: bool)
        requires
            pipeline.wf(),
        ensures
            r == compatible_one_way(pipeline.model(), node.model(), other.model()),
    {
        let urn: &str = get_urn(node);
        if same_text(urn, urns::PAR_DO_TRANSFORM) || same_text(
            urn,
            urns::SPLITTABLE_PAIR_WITH_RESTRICTION_URN,
        ) || same_text(urn, urns::SPLITTABLE_SPLIT_AND_SIZE_RESTRICTIONS_URN) || same_text(
            urn,
            urns::SPLITTABLE_TRUNCATE_SIZED_RESTRICTION_URN,
        ) || same_text(urn, urns::SPLITTABLE_PROCESS_SIZED_ELEMENTS_AND_RESTRICTIONS_URN) {
            Self::par_do_compatibility(node, other, pipeline)
        } else if is_combine(urn) || same_text(urn, urns::ASSIGN_WINDOWS_TRANSFORM) {
            Self::compatible_environments(node, other, pipeline)
        } else {
            false
        }
    }

    pub fn par_do_compatibility(
        par_do: &PTransformNode,
        other: &PTransformNode,
        pipeline: &QueryablePipeline,
    ) -> (r: bool)
        requires
            pipeline.wf(),
        ensures
            r == par_do_compatible(pipeline.model(), par_do.model(), other.model()),
    {
        same_text(par_do.id.as_str(), other.id.as_str()) || (!Self::has_side_inputs_in_payload(
            par_do,
            pipeline,
        ) && !Self::has_state_or_timers(par_do) && Self::compatible_environments(
            par_do,
            other,
            pipeline,
        ))
    }

    /// Whether the payload of the transform declares side inputs, or cannot be
    /// read.
    pub fn has_side_inputs_in_payload(
        transform: &PTransformNode,
        pipeline: &QueryablePipeline,
    ) -> (r: bool)
        ensures
            r == may_have_side_inputs(pipeline.model(), transform.transform.model()),
    {
        let ghost t = transform.transform.model();
        match &transform.transform.spec {
            Some(s) => if crate::fusion::pipeline::has_par_do_payload(s.urn.as_str()) {
                match decode_par_do(s.payload.as_slice()) {
                    Some(f) => {
                        proof {
                            some_text(f.side_inputs@);
                            assert(side_names(t) == texts(f.side_inputs@).to_set());
                        }
                        f.side_inputs.len() > 0
                    },
                    None => true,
                }
            } else {
                false
            },
            None => false,
        }
    }

    /// Whether the payload of the transform declares states or timers, or cannot be
    /// read.
    pub fn has_state_or_timers(par_do: &PTransformNode) -> (r: bool)
        ensures
            r == may_have_state_or_timers(par_do.transform.model()),
    {
        match &par_do.transform.spec {
            Some(s) => if s.payload.len() > 0 {
                match decode_par_do(s.payload.as_slice()) {
                    Some(f) => {
                        proof {
                            some_text(f.state_specs@);
                            some_text(f.timer_families@);
                            let p = par_do_payload(par_do.transform.model().spec->0.payload)->0;
                            assert(p.state_specs == texts(f.state_specs@).to_set());
                            assert(p.timer_families == texts(f.timer_families@).to_set());
                        }
                        f.state_specs.len() > 0 || f.timer_families.len() > 0
                    },
                    None => true,
                }
            } else {
                false
            },
            None => false,
        }
    }

    /// Whether the transform can be fused into a stage of the environment, behind
    /// the collection.
    pub fn can_fuse(
        node: &PTransformNode,
        environment: &Environment,
        candidate: &str,
        pipeline: &QueryablePipeline,
    ) -> (r: bool)
        requires
            pipeline.wf(),
            node.wf(),
        ensures
            r == fuses(pipeline.model(), node.transform.model(), environment.urn@, candidate@),
    {
        let urn: &str = get_urn(node);
        if same_text(urn, urns::PAR_DO_TRANSFORM) || same_text(
            urn,
            urns::SPLITTABLE_PAIR_WITH_RESTRICTION_URN,
        ) || same_text(urn, urns::SPLITTABLE_SPLIT_AND_SIZE_RESTRICTIONS_URN) {
            Self::can_fuse_pardo(node, environment, candidate, pipeline)
        } else if same_text(urn, urns::SPLITTABLE_PROCESS_KEYED_URN) || same_text(
            urn,
            urns::SPLITTABLE_PROCESS_ELEMENTS_URN,
        ) || same_text(urn, urns::SPLITTABLE_PROCESS_SIZED_ELEMENTS_AND_RESTRICTIONS_URN)
            || same_text(urn, urns::GROUP_BY_KEY_TRANSFORM) || same_text(
            urn,
            urns::CREATE_VIEW_TRANSFORM,
        ) {
            false
        } else if is_combine(urn) || same_text(urn, urns::ASSIGN_WINDOWS_TRANSFORM) {
            Self::can_fuse_compatible_env(node, environment, pipeline)
        } else {
            same_text(urn, urns::FLATTEN_TRANSFORM)
        }
    }

    pub fn compatible_environments(
        left: &PTransformNode,
        right: &PTransformNode,
        pipeline: &QueryablePipeline,
    ) -> (r: bool)
        requires
            pipeline.wf(),
        ensures
            r == (environment_of(pipeline.model(), left.transform.model()) == environment_of(
                pipeline.model(),
                right.transform.model(),
            )),
    {
        equal_environments(
            pipeline.get_environment(&left.transform),
            pipeline.get_environment(&right.transform),
        )
    }

    /// Whether a ParDo can be fused: it runs in the environment, its payload can be
    /// read, and the collection comes back to it as a timer or it has neither
    /// states nor timers nor side inputs.
    pub fn can_fuse_pardo(
        pardo: &PTransformNode,
        environment: &Environment,
        candidate: &str,
        pipeline: &QueryablePipeline,
    ) -> (r: bool)
        requires
            pipeline.wf(),
            pardo.wf(),
        ensures
            r == par_do_fuses(
                pipeline.model(),
                pardo.transform.model(),
                environment.urn@,
                candidate@,
            ),
    {
        if !Self::can_fuse_compatible_env(pardo, environment, pipeline) {
            return false;
        }
        let facts: ParDoFacts = match &pardo.transform.spec {
            Some(s) => if s.payload.len() > 0 {
                match decode_par_do(s.payload.as_slice()) {
                    Some(f) => f,
                    None => {
                        return false;
                    },
                }
            } else {
                return false;
            },
            None => {
                return false;
            },
        };
        proof {
            some_text(facts.state_specs@);
            some_text(facts.timer_families@);
            let p = par_do_payload(pardo.transform.model().spec->0.payload)->0;
            assert(p.state_specs == texts(facts.state_specs@).to_set());
            assert(p.timer_families == texts(facts.timer_families@).to_set());
        }
        if Self::loops_back(&pardo.transform, &facts.timer_families, candidate) {
            return true;
        }
        if facts.state_specs.len() > 0 || facts.timer_families.len() > 0 {
            return false;
        }
        !Self::has_side_inputs_in_payload(pardo, pipeline)
    }

    /// Whether the collection comes back to the transform as one of these timers.
    fn loops_back(transform: &PTransform, timers: &Vec<String>, candidate: &str) -> (r: bool)
        requires
            transform.wf(),
        ensures
            r == is_timer_loop(transform.model(), texts(timers@).to_set(), candidate@),
    {
        let ghost t = transform.model();
        let n: usize = transform.inputs.entries.len();
        let mut i: usize = 0;
        while i < n
            invariant
                n == transform.inputs.entries@.len(),
                i <= n,
                transform.wf(),
                t == transform.model(),
                forall|j: int|
                    0 <= j < i ==> !((#[trigger] transform.inputs.entries@[j]).1@ == candidate@
                        && texts(timers@).contains(transform.inputs.entries@[j].0@)),
            decreases n - i,
        {
            proof {
                transform.inputs.entry_at(i as int);
            }
            let name: &String = &transform.inputs.entries[i].0;
            if has_text(timers, name.as_str()) && same_text(
                transform.inputs.entries[i].1.as_str(),
                candidate,
            ) {
                assert(t.inputs.contains_key(name@));
                return true;
            }
            i = i + 1;
        }
        proof {
            assert forall|m: Seq<char>| #[trigger] t.inputs.contains_key(m) && t.inputs[m]
                == candidate@ implies !texts(timers@).to_set().contains(m) by {
                let j = transform.inputs.has_entry(m);
            }
        }
        false
    }

    pub fn can_fuse_compatible_env(
        operation: &PTransformNode,
        environment: &Environment,
        pipeline: &QueryablePipeline,
    ) -> (r: bool)
        requires
            pipeline.wf(),
        ensures
            r == runs_in(pipeline.model(), operation.transform.model(), environment.urn@),
    {
        match pipeline.get_environment(&operation.transform) {
            Some(env) => same_environment(env, environment),
            None => false,
        }
    }
}

/// Whether the transform takes a collection that some transform takes as a side
/// input.
pub fn any_sideinputs(consumer: &PTransformNode, pipeline: &QueryablePipeline) -> (r: bool)
    requires
        pipeline.wf(),
        consumer.wf(),
    ensures
        r == shares_side_input(pipeline.model(), consumer.transform.model()),
{
    let ghost c = pipeline.model();
    let ghost t = consumer.transform.model();
    let inputs = &consumer.transform.inputs;
    let n: usize = inputs.entries.len();
    let mut i: usize = 0;
    while i < n
        invariant
            pipeline.wf(),
            consumer.wf(),
            c == pipeline.model(),
            t == consumer.transform.model(),
            *inputs == consumer.transform.inputs,
            n == inputs.entries@.len(),
            i <= n,
            forall|j: int|
                0 <= j < i ==> !(c.pcollections.contains_key((#[trigger] inputs.entries@[j]).1@)
                    && is_side_input(c, inputs.entries@[j].1@)),
        decreases n - i,
    {
        proof {
            inputs.entry_at(i as int);
        }
        let id: &String = &inputs.entries[i].1;
        if pipeline.components.pcollections.contains_key(id.as_str()) {
            let takers: Vec<String> = pipeline.singleton_consumer_ids(id.as_str());
            if takers.len() > 0 {
                proof {
                    assert(texts(takers@)[0] == takers@[0]@);
                    assert(texts(takers@).contains(takers@[0]@));
                    assert(side_consumes(c, takers@[0]@, id@));
                    assert(t.inputs.contains_key(inputs.entries@[i as int].0@));
                }
                return true;
            }
            proof {
                assert forall|x: Seq<char>| !#[trigger] side_consumes(c, x, id@) by {
                    assert(!texts(takers@).contains(x));
                }
            }
        }
        i = i + 1;
    }
    proof {
        assert forall|m: Seq<char>| #[trigger] t.inputs.contains_key(m) implies !(
        c.pcollections.contains_key(t.inputs[m]) && is_side_input(c, t.inputs[m])) by {
            let j = inputs.has_entry(m);
        }
    }
    false
}

/// Whether the collection is kept inside a stage of the environment.
pub fn can_fuse(pipeline: &QueryablePipeline, candidate: &str, environment: &Environment) -> (r:
    PCollectionFusibility)
    requires
        pipeline.wf(),
    ensures
        (r == PCollectionFusibility::FUSE) == collection_fuses(
            pipeline.model(),
            candidate@,
            environment.urn@,
        ),
{
    let ghost c = pipeline.model();
    let consumers: Vec<String> = pipeline.per_element_consumer_ids(candidate);
    let n: usize = consumers.len();
    let mut i: usize = 0;
    while i < n
        invariant
            pipeline.wf(),
            c == pipeline.model(),
            n == consumers@.len(),
            i <= n,
            lists(consumers@, |id: Seq<char>| consumes(c, id, candidate@)),
            forall|j: int|
                0 <= j < i ==> !shares_side_input(c, c.transforms[(#[trigger] consumers@[j])@])
                    && fuses(c, c.transforms[consumers@[j]@], environment.urn@, candidate@),
        decreases n - i,
    {
        let ghost id = consumers@[i as int]@;
        proof {
            assert(texts(consumers@)[i as int] == id);
            assert(texts(consumers@).contains(id));
            assert(consumes(c, id, candidate@));
        }
        match pipeline.node(consumers[i].as_str()) {
            Some(node) => if any_sideinputs(&node, pipeline) || !GreedyCollectionFuser::can_fuse(
                &node,
                environment,
                candidate,
                pipeline,
            ) {
                return PCollectionFusibility::MATERIALIZE;
            },
            None => {},
        }
        i = i + 1;
    }
    let takers: Vec<String> = pipeline.singleton_consumer_ids(candidate);
    proof {
        assert forall|id: Seq<char>| #[trigger] consumes(c, id, candidate@) implies
            !shares_side_input(c, c.transforms[id]) && fuses(
            c,
            c.transforms[id],
            environment.urn@,
            candidate@,
        ) by {
            assert(texts(consumers@).contains(id));
            let j = choose|j: int| 0 <= j < texts(consumers@).len() && texts(consumers@)[j] == id;
            assert(consumers@[j]@ == id);
        }
    }
    if takers.len() > 0 {
        proof {
            assert(texts(takers@)[0] == takers@[0]@);
            assert(texts(takers@).contains(takers@[0]@));
            assert(side_consumes(c, takers@[0]@, candidate@));
        }
        return PCollectionFusibility::MATERIALIZE;
    }
    proof {
        assert forall|x: Seq<char>| !#[trigger] side_consumes(c, x, candidate@) by {
            assert(!texts(takers@).contains(x));
        }
    }
    PCollectionFusibility::FUSE
}

} // verus!
