//! The parts of a pipeline, as far as the runner looks at them.
use crate::coders::wire::copy_range;
use crate::named::{copy_texts, names, texts, NamedMap};
use vstd::prelude::*;
use vstd::string::*;

pub use crate::environment::{Environment, EnvironmentV};

verus! {

/// What a transform or coder does: a name, and what goes with it.
#[derive(Debug, Clone)]
pub struct FunctionSpec {
    pub urn: String,
    pub payload: Vec<u8>,
}

/// A step of a pipeline.
#[derive(Debug, Clone)]
pub struct PTransform {
    pub unique_name: String,
    pub spec: Option<FunctionSpec>,
    pub subtransforms: Vec<String>,
    /// Collections by local name.
    pub inputs: NamedMap<String>,
    /// Collections by local name.
    pub outputs: NamedMap<String>,
    pub environment_id: String,
}

/// A collection of a pipeline.
#[derive(Debug, Clone)]
pub struct PCollection {
    pub unique_name: String,
    pub coder_id: String,
    pub is_bounded: i32,
    pub windowing_strategy_id: String,
}

/// A coder of a pipeline.
#[derive(Debug, Clone)]
pub struct Coder {
    pub spec: Option<FunctionSpec>,
    pub component_coder_ids: Vec<String>,
}

/// How a collection is windowed.
#[derive(Debug, Clone)]
pub struct WindowingStrategy {
    pub window_coder_id: String,
}

/// The parts of a pipeline by their ids.
#[derive(Debug, Clone)]
pub struct Components {
    pub transforms: NamedMap<PTransform>,
    pub pcollections: NamedMap<PCollection>,
    pub windowing_strategies: NamedMap<WindowingStrategy>,
    pub coders: NamedMap<Coder>,
    pub environments: NamedMap<Environment>,
}

#[verifier::ext_equal]
pub struct SpecV {
    pub urn: Seq<char>,
    pub payload: Seq<u8>,
}

#[verifier::ext_equal]
pub struct TransformV {
    pub unique_name: Seq<char>,
    pub spec: Option<SpecV>,
    pub subtransforms: Seq<Seq<char>>,
    pub inputs: Map<Seq<char>, Seq<char>>,
    pub outputs: Map<Seq<char>, Seq<char>>,
    pub environment_id: Seq<char>,
}

#[verifier::ext_equal]
pub struct CollectionV {
    pub unique_name: Seq<char>,
    pub coder_id: Seq<char>,
    pub is_bounded: i32,
    pub windowing_strategy_id: Seq<char>,
}

#[verifier::ext_equal]
pub struct CoderV {
    pub spec: Option<SpecV>,
    pub component_coder_ids: Seq<Seq<char>>,
}

#[verifier::ext_equal]
pub struct ComponentsV {
    pub transforms: Map<Seq<char>, TransformV>,
    pub pcollections: Map<Seq<char>, CollectionV>,
    pub windowing_strategies: Map<Seq<char>, Seq<char>>,
    pub coders: Map<Seq<char>, CoderV>,
    pub environments: Map<Seq<char>, EnvironmentV>,
}

pub open spec fn spec_model(s: Option<FunctionSpec>) -> Option<SpecV> {
    match s {
        Some(s) => Some(s.model()),
        None => None,
    }
}

/// A map of strings as a map of texts.
pub open spec fn text_map(m: NamedMap<String>) -> Map<Seq<char>, Seq<char>> {
    m@.map_values(|v: String| v@)
}

impl FunctionSpec {
    pub open spec fn model(self) -> SpecV {
        SpecV { urn: self.urn@, payload: self.payload@ }
    }

    pub fn duplicate(&self) -> (r: FunctionSpec)
        ensures
            r.model() == self.model(),
    {
        FunctionSpec {
            urn: self.urn.clone(),
            payload: copy_range(&self.payload, 0, self.payload.len()),
        }
    }
}

pub fn duplicate_spec(s: &Option<FunctionSpec>) -> (r: Option<FunctionSpec>)
    ensures
        spec_model(r) == spec_model(*s),
{
    match s {
        Some(s) => Some(s.duplicate()),
        None => None,
    }
}

/// The same strings under the same names once more.
pub fn duplicate_text_map(m: &NamedMap<String>) -> (r: NamedMap<String>)
    requires
        m.wf(),
    ensures
        r.wf(),
        text_map(r) == text_map(*m),
        names(r.entries@) == names(m.entries@),
        r.entries@.len() == m.entries@.len(),
        forall|i: int| 0 <= i < m.entries@.len() ==> (#[trigger] r.entries@[i]).1@ == m.entries@[i].1@,
{
    let n: usize = m.entries.len();
    let mut out: NamedMap<String> = NamedMap { entries: Vec::new() };
    let mut i: usize = 0;
    while i < n
        invariant
            n == m.entries@.len(),
            i <= n,
            out.entries@.len() == i,
            forall|j: int|
                0 <= j < i ==> (#[trigger] out.entries@[j]).0@ == m.entries@[j].0@
                    && out.entries@[j].1@ == m.entries@[j].1@,
        decreases n - i,
    {
        out.entries.push((m.entries[i].0.clone(), m.entries[i].1.clone()));
        i = i + 1;
    }
    proof {
        assert(names(out.entries@) =~= names(m.entries@));
        assert(out.wf()) by {
            assert forall|a: int, b: int|
                #![trigger out.entries@[a], out.entries@[b]]
                0 <= a < b < out.entries@.len() implies out.entries@[a].0@
                != out.entries@[b].0@ by {
                let x = m.entries@[a];
                let y = m.entries@[b];
            }
        }
        assert(text_map(out) =~= text_map(*m)) by {
            assert forall|k: Seq<char>| out@.dom().contains(k) implies text_map(out)[k]
                == text_map(*m)[k] by {
                let j = out.has_entry(k);
                assert(m.entries@[j].0@ == k);
                m.entry_at(j);
            }
        }
    }
    out
}

impl PTransform {
    pub open spec fn wf(self) -> bool {
        self.inputs.wf() && self.outputs.wf()
    }

    pub open spec fn model(self) -> TransformV {
        TransformV {
            unique_name: self.unique_name@,
            spec: spec_model(self.spec),
            subtransforms: texts(self.subtransforms@),
            inputs: text_map(self.inputs),
            outputs: text_map(self.outputs),
            environment_id: self.environment_id@,
        }
    }

    pub fn duplicate(&self) -> (r: PTransform)
        requires
            self.wf(),
        ensures
            r.wf(),
            r.model() == self.model(),
    {
        PTransform {
            unique_name: self.unique_name.clone(),
            spec: duplicate_spec(&self.spec),
            subtransforms: copy_texts(&self.subtransforms),
            inputs: duplicate_text_map(&self.inputs),
            outputs: duplicate_text_map(&self.outputs),
            environment_id: self.environment_id.clone(),
        }
    }
}

impl PCollection {
    pub open spec fn model(self) -> CollectionV {
        CollectionV {
            unique_name: self.unique_name@,
            coder_id: self.coder_id@,
            is_bounded: self.is_bounded,
            windowing_strategy_id: self.windowing_strategy_id@,
        }
    }

    pub fn duplicate(&self) -> (r: PCollection)
        ensures
            r.model() == self.model(),
    {
        PCollection {
            unique_name: self.unique_name.clone(),
            coder_id: self.coder_id.clone(),
            is_bounded: self.is_bounded,
            windowing_strategy_id: self.windowing_strategy_id.clone(),
        }
    }
}

impl Coder {
    pub open spec fn model(self) -> CoderV {
        CoderV {
            spec: spec_model(self.spec),
            component_coder_ids: texts(self.component_coder_ids@),
        }
    }

    pub fn duplicate(&self) -> (r: Coder)
        ensures
            r.model() == self.model(),
    {
        Coder {
            spec: duplicate_spec(&self.spec),
            component_coder_ids: copy_texts(&self.component_coder_ids),
        }
    }
}

impl WindowingStrategy {
    pub open spec fn model(self) -> Seq<char> {
        self.window_coder_id@
    }

    pub fn duplicate(&self) -> (r: WindowingStrategy)
        ensures
            r.model() == self.model(),
    {
        WindowingStrategy { window_coder_id: self.window_coder_id.clone() }
    }
}

/// The models of some coders.
pub open spec fn coder_map(m: NamedMap<Coder>) -> Map<Seq<char>, CoderV> {
    m@.map_values(|c: Coder| c.model())
}

pub open spec fn transform_map(m: NamedMap<PTransform>) -> Map<Seq<char>, TransformV> {
    m@.map_values(|t: PTransform| t.model())
}

pub open spec fn pcollection_map(m: NamedMap<PCollection>) -> Map<Seq<char>, CollectionV> {
    m@.map_values(|c: PCollection| c.model())
}

pub open spec fn environment_map(m: NamedMap<Environment>) -> Map<Seq<char>, EnvironmentV> {
    m@.map_values(|e: Environment| e.model())
}

pub open spec fn strategy_map(m: NamedMap<WindowingStrategy>) -> Map<Seq<char>, Seq<char>> {
    m@.map_values(|s: WindowingStrategy| s.model())
}

/// Every transform of the map is well-formed.
pub open spec fn transforms_wf(m: NamedMap<PTransform>) -> bool {
    m.wf() && forall|i: int| 0 <= i < m.entries@.len() ==> (#[trigger] m.entries@[i]).1.wf()
}

impl Components {
    pub open spec fn wf(self) -> bool {
        &&& transforms_wf(self.transforms)
        &&& self.pcollections.wf()
        &&& self.windowing_strategies.wf()
        &&& self.coders.wf()
        &&& self.environments.wf()
    }

    pub open spec fn model(self) -> ComponentsV {
        ComponentsV {
            transforms: transform_map(self.transforms),
            pcollections: pcollection_map(self.pcollections),
            windowing_strategies: strategy_map(self.windowing_strategies),
            coders: coder_map(self.coders),
            environments: environment_map(self.environments),
        }
    }

    /// No parts at all.
    pub fn empty() -> (r: Components)
        ensures
            r.wf(),
            r.transforms@ == Map::<Seq<char>, PTransform>::empty(),
            r.pcollections@ == Map::<Seq<char>, PCollection>::empty(),
            r.windowing_strategies@ == Map::<Seq<char>, WindowingStrategy>::empty(),
            r.coders@ == Map::<Seq<char>, Coder>::empty(),
            r.environments@ == Map::<Seq<char>, Environment>::empty(),
    {
        Components {
            transforms: NamedMap::new(),
            pcollections: NamedMap::new(),
            windowing_strategies: NamedMap::new(),
            coders: NamedMap::new(),
            environments: NamedMap::new(),
        }
    }

    /// The same parts once more.
    pub fn duplicate(&self) -> (r: Components)
        requires
            self.wf(),
        ensures
            r.wf(),
            r.model() == self.model(),
    {
        Components {
            transforms: duplicate_transforms(&self.transforms),
            pcollections: duplicate_pcollections(&self.pcollections),
            windowing_strategies: duplicate_strategies(&self.windowing_strategies),
            coders: duplicate_coders(&self.coders),
            environments: duplicate_environments(&self.environments),
        }
    }
}

/// Two maps with the same names in the same order, and values with the same
/// models, have the same models.
pub proof fn same_models<T, M>(a: NamedMap<T>, b: NamedMap<T>, model: spec_fn(T) -> M)
    requires
        b.wf(),
        a.entries@.len() == b.entries@.len(),
        forall|i: int|
            0 <= i < a.entries@.len() ==> (#[trigger] a.entries@[i]).0@ == b.entries@[i].0@
                && model(a.entries@[i].1) == model(b.entries@[i].1),
    ensures
        a.wf(),
        a@.map_values(model) == b@.map_values(model),
{
    assert(names(a.entries@) =~= names(b.entries@));
    assert forall|i: int, j: int|
        #![trigger a.entries@[i], a.entries@[j]]
        0 <= i < j < a.entries@.len() implies a.entries@[i].0@ != a.entries@[j].0@ by {
        let x = b.entries@[i];
        let y = b.entries@[j];
    }
    assert forall|k: Seq<char>| a@.dom().contains(k) implies #[trigger] a@.map_values(model)[k]
        == b@.map_values(model)[k] by {
        let j = a.has_entry(k);
        assert(b.entries@[j].0@ == k);
        b.entry_at(j);
    }
    assert(a@.map_values(model) =~= b@.map_values(model));
}

pub fn duplicate_transforms(m: &NamedMap<PTransform>) -> (r: NamedMap<PTransform>)
    requires
        transforms_wf(*m),
    ensures
        transforms_wf(r),
        transform_map(r) == transform_map(*m),
{
    let n: usize = m.entries.len();
    let mut out: NamedMap<PTransform> = NamedMap { entries: Vec::new() };
    let mut i: usize = 0;
    while i < n
        invariant
            n == m.entries@.len(),
            i <= n,
            transforms_wf(*m),
            out.entries@.len() == i,
            forall|j: int|
                0 <= j < i ==> (#[trigger] out.entries@[j]).0@ == m.entries@[j].0@
                    && out.entries@[j].1.model() == m.entries@[j].1.model()
                    && out.entries@[j].1.wf(),
        decreases n - i,
    {
        assert(m.entries@[i as int].1.wf());
        out.entries.push((m.entries[i].0.clone(), m.entries[i].1.duplicate()));
        i = i + 1;
    }
    proof {
        same_models(out, *m, |t: PTransform| t.model());
    }
    out
}

pub fn duplicate_pcollections(m: &NamedMap<PCollection>) -> (r: NamedMap<PCollection>)
    requires
        m.wf(),
    ensures
        r.wf(),
        pcollection_map(r) == pcollection_map(*m),
{
    let n: usize = m.entries.len();
    let mut out: NamedMap<PCollection> = NamedMap { entries: Vec::new() };
    let mut i: usize = 0;
    while i < n
        invariant
            n == m.entries@.len(),
            i <= n,
            out.entries@.len() == i,
            forall|j: int|
                0 <= j < i ==> (#[trigger] out.entries@[j]).0@ == m.entries@[j].0@
                    && out.entries@[j].1.model() == m.entries@[j].1.model(),
        decreases n - i,
    {
        out.entries.push((m.entries[i].0.clone(), m.entries[i].1.duplicate()));
        i = i + 1;
    }
    proof {
        same_models(out, *m, |t: PCollection| t.model());
    }
    out
}

pub fn duplicate_strategies(m: &NamedMap<WindowingStrategy>) -> (r: NamedMap<WindowingStrategy>)
    requires
        m.wf(),
    ensures
        r.wf(),
        strategy_map(r) == strategy_map(*m),
{
    let n: usize = m.entries.len();
    let mut out: NamedMap<WindowingStrategy> = NamedMap { entries: Vec::new() };
    let mut i: usize = 0;
    while i < n
        invariant
            n == m.entries@.len(),
            i <= n,
            out.entries@.len() == i,
            forall|j: int|
                0 <= j < i ==> (#[trigger] out.entries@[j]).0@ == m.entries@[j].0@
                    && out.entries@[j].1.model() == m.entries@[j].1.model(),
        decreases n - i,
    {
        out.entries.push((m.entries[i].0.clone(), m.entries[i].1.duplicate()));
        i = i + 1;
    }
    proof {
        same_models(out, *m, |t: WindowingStrategy| t.model());
    }
    out
}

pub fn duplicate_coders(m: &NamedMap<Coder>) -> (r: NamedMap<Coder>)
    requires
        m.wf(),
    ensures
        r.wf(),
        coder_map(r) == coder_map(*m),
{
    let n: usize = m.entries.len();
    let mut out: NamedMap<Coder> = NamedMap { entries: Vec::new() };
    let mut i: usize = 0;
    while i < n
        invariant
            n == m.entries@.len(),
            i <= n,
            out.entries@.len() == i,
            forall|j: int|
                0 <= j < i ==> (#[trigger] out.entries@[j]).0@ == m.entries@[j].0@
                    && out.entries@[j].1.model() == m.entries@[j].1.model(),
        decreases n - i,
    {
        out.entries.push((m.entries[i].0.clone(), m.entries[i].1.duplicate()));
        i = i + 1;
    }
    proof {
        same_models(out, *m, |t: Coder| t.model());
    }
    out
}

pub fn duplicate_environments(m: &NamedMap<Environment>) -> (r: NamedMap<Environment>)
    requires
        m.wf(),
    ensures
        r.wf(),
        environment_map(r) == environment_map(*m),
{
    let n: usize = m.entries.len();
    let mut out: NamedMap<Environment> = NamedMap { entries: Vec::new() };
    let mut i: usize = 0;
    while i < n
        invariant
            n == m.entries@.len(),
            i <= n,
            out.entries@.len() == i,
            forall|j: int|
                0 <= j < i ==> (#[trigger] out.entries@[j]).0@ == m.entries@[j].0@
                    && out.entries@[j].1.model() == m.entries@[j].1.model(),
        decreases n - i,
    {
        out.entries.push((m.entries[i].0.clone(), m.entries[i].1.duplicate()));
        i = i + 1;
    }
    proof {
        same_models(out, *m, |t: Environment| t.model());
    }
    out
}

/// A transform under its id.
#[derive(Debug, Clone)]
pub struct PTransformNode {
    pub id: String,
    pub transform: PTransform,
}

#[verifier::ext_equal]
pub struct NodeV {
    pub id: Seq<char>,
    pub transform: TransformV,
}

impl PTransformNode {
    pub open spec fn wf(self) -> bool {
        self.transform.wf()
    }

    pub open spec fn model(self) -> NodeV {
        NodeV { id: self.id@, transform: self.transform.model() }
    }

    pub fn node(&self) -> (r: &PTransform)
        ensures
            *r == self.transform,
    {
        &self.transform
    }

    pub fn duplicate(&self) -> (r: PTransformNode)
        requires
            self.wf(),
        ensures
            r.wf(),
            r.model() == self.model(),
    {
        PTransformNode { id: self.id.clone(), transform: self.transform.duplicate() }
    }
}

/// A collection under its id.
#[derive(Debug, Clone)]
pub struct PCollectionNode {
    pub id: String,
    pub collection: PCollection,
}

#[verifier::ext_equal]
pub struct PcolV {
    pub id: Seq<char>,
    pub collection: CollectionV,
}

impl PCollectionNode {
    pub open spec fn model(self) -> PcolV {
        PcolV { id: self.id@, collection: self.collection.model() }
    }

    pub fn id(&self) -> (r: &str)
        ensures
            r@ == self.id@,
    {
        self.id.as_str()
    }

    pub fn duplicate(&self) -> (r: PCollectionNode)
        ensures
            r.model() == self.model(),
    {
        PCollectionNode { id: self.id.clone(), collection: self.collection.duplicate() }
    }
}

pub open spec fn nodes_model(s: Seq<PTransformNode>) -> Seq<NodeV> {
    Seq::new(s.len(), |i: int| s[i].model())
}

pub open spec fn nodes_wf(s: Seq<PTransformNode>) -> bool {
    forall|i: int| 0 <= i < s.len() ==> (#[trigger] s[i]).wf()
}

pub open spec fn pcols_model(s: Seq<PCollectionNode>) -> Seq<PcolV> {
    Seq::new(s.len(), |i: int| s[i].model())
}

pub fn duplicate_nodes(v: &Vec<PTransformNode>) -> (r: Vec<PTransformNode>)
    requires
        nodes_wf(v@),
    ensures
        nodes_wf(r@),
        nodes_model(r@) == nodes_model(v@),
{
    let n: usize = v.len();
    let mut out: Vec<PTransformNode> = Vec::new();
    let mut i: usize = 0;
    while i < n
        invariant
            n == v@.len(),
            i <= n,
            nodes_wf(v@),
            out@.len() == i,
            nodes_wf(out@),
            forall|j: int| 0 <= j < i ==> (#[trigger] out@[j]).model() == v@[j].model(),
        decreases n - i,
    {
        assert(v@[i as int].wf());
        out.push(v[i].duplicate());
        i = i + 1;
    }
    assert(nodes_model(out@) =~= nodes_model(v@));
    out
}

pub fn duplicate_pcols(v: &Vec<PCollectionNode>) -> (r: Vec<PCollectionNode>)
    ensures
        pcols_model(r@) == pcols_model(v@),
{
    let n: usize = v.len();
    let mut out: Vec<PCollectionNode> = Vec::new();
    let mut i: usize = 0;
    while i < n
        invariant
            n == v@.len(),
            i <= n,
            out@.len() == i,
            forall|j: int| 0 <= j < i ==> (#[trigger] out@[j]).model() == v@[j].model(),
        decreases n - i,
    {
        out.push(v[i].duplicate());
        i = i + 1;
    }
    assert(pcols_model(out@) =~= pcols_model(v@));
    out
}

/// Puts a transform into a map.
pub fn insert_transform(m: &mut NamedMap<PTransform>, id: String, transform: PTransform)
    requires
        transforms_wf(*old(m)),
        transform.wf(),
    ensures
        transforms_wf(*final(m)),
        transform_map(*final(m)) == transform_map(*old(m)).insert(id@, transform.model()),
{
    let ghost before = *m;
    m.insert(id, transform);
    proof {
        assert(transform_map(*m) =~= transform_map(before).insert(id@, transform.model()));
        assert forall|k: int| 0 <= k < m.entries@.len() implies (#[trigger] m.entries@[k]).1.wf() by {
            m.entry_at(k);
            let key = m.entries@[k].0@;
            if key != id@ {
                let b = before.has_entry(key);
                assert(before.entries@[b].1.wf());
            }
        }
    }
}

} // verus!
