//! Stages: transforms that run together in one environment.
use crate::fusion::refs::{
    duplicate_side_inputs, duplicate_states, duplicate_timers, side_inputs_model, states_model,
    timers_model, NameV, SideInputRef, SideInputV, TimerRef, UserStateRef,
};
use crate::jobservice::urns;
use crate::model::{
    duplicate_nodes, duplicate_pcols, nodes_model, nodes_wf, pcols_model, Components, ComponentsV,
    Environment, EnvironmentV, NodeV, PCollectionNode, PTransform, PTransformNode, PcolV, TransformV,
};
use crate::named::{names, NamedMap};
use crate::text::same_text;
use vstd::prelude::*;
use vstd::string::*;

pub use crate::engine::graph::SplittableStage;

verus! {

/// A setting for the coder of a collection at the edge of a stage.
#[derive(Debug, Clone)]
pub struct WireCoderSetting {
    pub urn: String,
    pub payload: Vec<u8>,
}

/// A stage.
#[derive(Debug, Clone)]
pub struct ExecutableStage {
    pub id: String,
    pub components: Components,
    pub environment: Environment,
    pub wire_coder: Vec<WireCoderSetting>,
    pub input_pcol: PCollectionNode,
    pub side_inputs: Vec<SideInputRef>,
    pub user_states: Vec<UserStateRef>,
    pub timers: Vec<TimerRef>,
    pub output_pcols: Vec<PCollectionNode>,
    pub transforms: Vec<PTransformNode>,
}

/// `uuid::Uuid::new_v4` and its text: a random id, of which nothing is claimed.
#[verifier::external_body]
pub(crate) fn random_id() -> String {
    uuid::Uuid::new_v4().to_string()
}

/// The ids of some transforms.
pub open spec fn node_ids(s: Seq<PTransformNode>) -> Seq<Seq<char>> {
    Seq::new(s.len(), |i: int| s[i].id@)
}

/// The ids of some collections.
pub open spec fn pcol_ids(s: Seq<PCollectionNode>) -> Seq<Seq<char>> {
    Seq::new(s.len(), |i: int| s[i].id@)
}

/// The names of the parts of a splittable ParDo.
pub open spec fn is_splittable_part(urn: Seq<char>) -> bool {
    ||| urn == urns::SPLITTABLE_PAIR_WITH_RESTRICTION_URN@
    ||| urn == urns::SPLITTABLE_SPLIT_AND_SIZE_RESTRICTIONS_URN@
    ||| urn == urns::SPLITTABLE_TRUNCATE_SIZED_RESTRICTION_URN@
    ||| urn == urns::SPLITTABLE_PROCESS_SIZED_ELEMENTS_AND_RESTRICTIONS_URN@
}

impl ExecutableStage {
    pub open spec fn wf(self) -> bool {
        &&& self.components.wf()
        &&& nodes_wf(self.transforms@)
        &&& forall|i: int| 0 <= i < self.side_inputs@.len() ==> (#[trigger] self.side_inputs@[i]).wf()
        &&& forall|i: int|
            0 <= i < self.user_states@.len() ==> (#[trigger] self.user_states@[i]).transform.wf()
        &&& forall|i: int| 0 <= i < self.timers@.len() ==> (#[trigger] self.timers@[i]).transform.wf()
    }

    /// A stage of these parts, with a new id.
    pub fn from(
        components: Components,
        environment: Environment,
        wire_coder: Vec<WireCoderSetting>,
        input_pcol: PCollectionNode,
        side_inputs: Vec<SideInputRef>,
        user_states: Vec<UserStateRef>,
        timers: Vec<TimerRef>,
        output_pcols: Vec<PCollectionNode>,
        transforms: Vec<PTransformNode>,
    ) -> (r: ExecutableStage)
        ensures
            r.components == components,
            r.environment == environment,
            r.wire_coder == wire_coder,
            r.input_pcol == input_pcol,
            r.side_inputs == side_inputs,
            r.user_states == user_states,
            r.timers == timers,
            r.output_pcols == output_pcols,
            r.transforms == transforms,
    {
        ExecutableStage {
            id: random_id(),
            components,
            environment,
            wire_coder,
            input_pcol,
            side_inputs,
            user_states,
            timers,
            output_pcols,
            transforms,
        }
    }

    pub fn id(&self) -> (r: String)
        ensures
            r@ == self.id@,
    {
        self.id.clone()
    }

    pub fn transforms(&self) -> (r: &Vec<PTransformNode>)
        ensures
            *r == self.transforms,
    {
        &self.transforms
    }

    pub fn components(&self) -> (r: &Components)
        ensures
            *r == self.components,
    {
        &self.components
    }

    pub fn environment(&self) -> (r: &Environment)
        ensures
            *r == self.environment,
    {
        &self.environment
    }

    pub fn wire_coder(&self) -> (r: &Vec<WireCoderSetting>)
        ensures
            *r == self.wire_coder,
    {
        &self.wire_coder
    }

    pub fn input_pcol(&self) -> (r: &PCollectionNode)
        ensures
            *r == self.input_pcol,
    {
        &self.input_pcol
    }

    pub fn side_inputs(&self) -> (r: &Vec<SideInputRef>)
        ensures
            *r == self.side_inputs,
    {
        &self.side_inputs
    }

    pub fn user_states(&self) -> (r: &Vec<UserStateRef>)
        ensures
            *r == self.user_states,
    {
        &self.user_states
    }

    pub fn timers(&self) -> (r: &Vec<TimerRef>)
        ensures
            *r == self.timers,
    {
        &self.timers
    }

    pub fn output_pcols(&self) -> (r: &Vec<PCollectionNode>)
        ensures
            *r == self.output_pcols,
    {
        &self.output_pcols
    }

    pub fn get_output_pcols(&self) -> (r: &Vec<PCollectionNode>)
        ensures
            *r == self.output_pcols,
    {
        &self.output_pcols
    }

    /// The unique names of the outputs.
    pub fn get_output_pcol_ids(&self) -> (r: Vec<String>)
        ensures
            r@.len() == self.output_pcols@.len(),
            forall|i: int|
                0 <= i < r@.len() ==> (#[trigger] r@[i])@
                    == self.output_pcols@[i].collection.unique_name@,
    {
        let n: usize = self.output_pcols.len();
        let mut out: Vec<String> = Vec::new();
        let mut i: usize = 0;
        while i < n
            invariant
                n == self.output_pcols@.len(),
                i <= n,
                out@.len() == i,
                forall|j: int|
                    0 <= j < i ==> (#[trigger] out@[j])@
                        == self.output_pcols@[j].collection.unique_name@,
            decreases n - i,
        {
            out.push(self.output_pcols[i].collection.unique_name.clone());
            i = i + 1;
        }
        out
    }

    /// The transforms by their ids; the last one where an id stands twice.
    pub fn ptmap(&self) -> (r: NamedMap<PTransform>)
        requires
            self.wf(),
        ensures
            crate::model::transforms_wf(r),
            crate::model::transform_map(r) == map_of_nodes(self.transforms@),
    {
        nodes_by_id(&self.transforms)
    }

    /// Whether a part of a splittable ParDo is in the stage.
    pub fn is_splittable(&self) -> (r: bool)
        ensures
            r == exists|i: int|
                0 <= i < self.transforms@.len() && (#[trigger] self.transforms@[i]).transform.spec
                    is Some && is_splittable_part(self.transforms@[i].transform.spec->0.urn@),
    {
        let n: usize = self.transforms.len();
        let mut i: usize = 0;
        while i < n
            invariant
                n == self.transforms@.len(),
                i <= n,
                forall|j: int|
                    0 <= j < i ==> !((#[trigger] self.transforms@[j]).transform.spec is Some
                        && is_splittable_part(self.transforms@[j].transform.spec->0.urn@)),
            decreases n - i,
        {
            match &self.transforms[i].transform.spec {
                Some(s) => {
                    let urn: &str = s.urn.as_str();
                    if same_text(urn, urns::SPLITTABLE_PAIR_WITH_RESTRICTION_URN) || same_text(
                        urn,
                        urns::SPLITTABLE_SPLIT_AND_SIZE_RESTRICTIONS_URN,
                    ) || same_text(urn, urns::SPLITTABLE_TRUNCATE_SIZED_RESTRICTION_URN)
                        || same_text(
                        urn,
                        urns::SPLITTABLE_PROCESS_SIZED_ELEMENTS_AND_RESTRICTIONS_URN,
                    ) {
                        return true;
                    }
                },
                None => {},
            }
            i = i + 1;
        }
        false
    }
}

/// Some transforms as a map; the last one where an id stands twice.
pub open spec fn map_of_nodes(s: Seq<PTransformNode>) -> Map<Seq<char>, TransformV>
    decreases s.len(),
{
    if s.len() == 0 {
        Map::empty()
    } else {
        map_of_nodes(s.drop_last()).insert(s.last().id@, s.last().transform.model())
    }
}

/// The transforms by their ids.
pub fn nodes_by_id(nodes: &Vec<PTransformNode>) -> (r: NamedMap<PTransform>)
    requires
        nodes_wf(nodes@),
    ensures
        crate::model::transforms_wf(r),
        crate::model::transform_map(r) == map_of_nodes(nodes@),
{
    let n: usize = nodes.len();
    let mut out: NamedMap<PTransform> = NamedMap::new();
    let mut i: usize = 0;
    assert(nodes@.take(0) =~= seq![]);
    assert(crate::model::transform_map(out) =~= Map::<Seq<char>, TransformV>::empty());
    while i < n
        invariant
            n == nodes@.len(),
            i <= n,
            nodes_wf(nodes@),
            crate::model::transforms_wf(out),
            crate::model::transform_map(out) == map_of_nodes(nodes@.take(i as int)),
        decreases n - i,
    {
        let ghost before = out;
        let ghost id = nodes@[i as int].id@;
        assert(nodes@[i as int].wf());
        let transform: PTransform = nodes[i].transform.duplicate();
        out.insert(nodes[i].id.clone(), transform);
        proof {
            assert(nodes@.take(i + 1).drop_last() =~= nodes@.take(i as int));
            assert(nodes@.take(i + 1).last() == nodes@[i as int]);
            assert(crate::model::transform_map(out) =~= crate::model::transform_map(before).insert(
                id,
                transform.model(),
            ));
            assert forall|k: int| 0 <= k < out.entries@.len() implies (
            #[trigger] out.entries@[k]).1.wf() by {
                out.entry_at(k);
                let key = out.entries@[k].0@;
                if key != id {
                    let m = before.has_entry(key);
                    assert(before.entries@[m].1.wf());
                }
            }
        }
        i = i + 1;
    }
    assert(nodes@.take(n as int) =~= nodes@);
    out
}

/// A transform and the collection whose elements it takes.
#[derive(Debug, Clone)]
pub struct CollectionConsumers {
    pub collection: PCollectionNode,
    pub transform: PTransformNode,
}

impl CollectionConsumers {
    pub fn of(pcol: PCollectionNode, pt: PTransformNode) -> (r: CollectionConsumers)
        ensures
            r.collection == pcol,
            r.transform == pt,
    {
        CollectionConsumers { collection: pcol, transform: pt }
    }

    pub fn collection(&self) -> (r: &PCollectionNode)
        ensures
            *r == self.collection,
    {
        &self.collection
    }

    pub fn node(&self) -> (r: &PTransformNode)
        ensures
            *r == self.transform,
    {
        &self.transform
    }
}

/// The runner's transforms and the consumers behind a collection.
pub struct DescendantConsumers {
    pub unfusible: Vec<PTransformNode>,
    pub fusible: Vec<CollectionConsumers>,
}

impl DescendantConsumers {
    pub fn new(unfusible: Vec<PTransformNode>, fusible: Vec<CollectionConsumers>) -> (r:
        DescendantConsumers)
        ensures
            r.unfusible == unfusible,
            r.fusible == fusible,
    {
        DescendantConsumers { unfusible, fusible }
    }

    pub fn get_unfusible(&self) -> (r: &Vec<PTransformNode>)
        ensures
            *r == self.unfusible,
    {
        &self.unfusible
    }

    pub fn get_fusible(&self) -> (r: &Vec<CollectionConsumers>)
        ensures
            *r == self.fusible,
    {
        &self.fusible
    }
}

/// What the members of a group have in common.
#[derive(Debug, Clone)]
pub struct SiblingKey {
    pub pcol: PCollectionNode,
    pub env: Option<Environment>,
}

impl SiblingKey {
    pub fn from(col: &PCollectionNode, env: Option<&Environment>) -> (r: SiblingKey)
        ensures
            r.pcol.model() == col.model(),
            match env {
                Some(e) => r.env matches Some(x) && x.model() == e.model(),
                None => r.env is None,
            },
    {
        SiblingKey {
            pcol: col.duplicate(),
            env: match env {
                Some(e) => Some(e.duplicate()),
                None => None,
            },
        }
    }

    pub fn get_input_pcol(&self) -> (r: &PCollectionNode)
        ensures
            *r == self.pcol,
    {
        &self.pcol
    }

    pub fn get_env(&self) -> (r: &Option<Environment>)
        ensures
            *r == self.env,
    {
        &self.env
    }
}

// ---------------------------------------------------------------------------
// What a stage is
// ---------------------------------------------------------------------------
#[verifier::ext_equal]
pub struct WireCoderV {
    pub urn: Seq<char>,
    pub payload: Seq<u8>,
}

#[verifier::ext_equal]
pub struct StageV {
    pub components: ComponentsV,
    pub environment: EnvironmentV,
    pub wire_coder: Seq<WireCoderV>,
    pub input_pcol: PcolV,
    pub side_inputs: Seq<SideInputV>,
    pub user_states: Seq<NameV>,
    pub timers: Seq<NameV>,
    pub output_pcols: Seq<PcolV>,
    pub transforms: Seq<NodeV>,
}

impl WireCoderSetting {
    pub open spec fn model(self) -> WireCoderV {
        WireCoderV { urn: self.urn@, payload: self.payload@ }
    }

    pub fn duplicate(&self) -> (r: WireCoderSetting)
        ensures
            r.model() == self.model(),
    {
        let payload: Vec<u8> = self.payload.clone();
        assert(payload@ =~= self.payload@);
        WireCoderSetting { urn: self.urn.clone(), payload }
    }
}

pub open spec fn settings_model(s: Seq<WireCoderSetting>) -> Seq<WireCoderV> {
    Seq::new(s.len(), |i: int| s[i].model())
}

pub fn duplicate_settings(v: &Vec<WireCoderSetting>) -> (r: Vec<WireCoderSetting>)
    ensures
        settings_model(r@) == settings_model(v@),
{
    let n: usize = v.len();
    let mut out: Vec<WireCoderSetting> = Vec::new();
    let mut i: usize = 0;
    while i < n
        invariant
            n == v@.len(),
            i <= n,
            out@.len() == i,
            forall|k: int| 0 <= k < i ==> (#[trigger] out@[k]).model() == v@[k].model(),
        decreases n - i,
    {
        out.push(v[i].duplicate());
        i = i + 1;
    }
    assert(settings_model(out@) =~= settings_model(v@));
    out
}

impl ExecutableStage {
    /// What the stage is, but for its id.
    pub open spec fn model(self) -> StageV {
        StageV {
            components: self.components.model(),
            environment: self.environment.model(),
            wire_coder: settings_model(self.wire_coder@),
            input_pcol: self.input_pcol.model(),
            side_inputs: side_inputs_model(self.side_inputs@),
            user_states: states_model(self.user_states@),
            timers: timers_model(self.timers@),
            output_pcols: pcols_model(self.output_pcols@),
            transforms: nodes_model(self.transforms@),
        }
    }

    pub fn duplicate(&self) -> (r: ExecutableStage)
        requires
            self.wf(),
        ensures
            r.wf(),
            r.id@ == self.id@,
            r.model() == self.model(),
    {
        ExecutableStage {
            id: self.id.clone(),
            components: self.components.duplicate(),
            environment: self.environment.duplicate(),
            wire_coder: duplicate_settings(&self.wire_coder),
            input_pcol: self.input_pcol.duplicate(),
            side_inputs: duplicate_side_inputs(&self.side_inputs),
            user_states: duplicate_states(&self.user_states),
            timers: duplicate_timers(&self.timers),
            output_pcols: duplicate_pcols(&self.output_pcols),
            transforms: duplicate_nodes(&self.transforms),
        }
    }
}

/// Some transforms as a map; the last one where an id stands twice.
pub open spec fn node_map(s: Seq<NodeV>) -> Map<Seq<char>, TransformV>
    decreases s.len(),
{
    if s.len() == 0 {
        Map::empty()
    } else {
        node_map(s.drop_last()).insert(s.last().id, s.last().transform)
    }
}

pub proof fn node_map_is(s: Seq<PTransformNode>)
    ensures
        map_of_nodes(s) == node_map(nodes_model(s)),
    decreases s.len(),
{
    if s.len() > 0 {
        node_map_is(s.drop_last());
        assert(nodes_model(s).drop_last() =~= nodes_model(s.drop_last()));
    }
}

} // verus!
