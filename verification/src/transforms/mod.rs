//! The transforms that the runner itself executes.
use crate::fusion::stage::random_id;
use crate::jobservice::urns;
use crate::model::{
    duplicate_text_map, pcollection_map, text_map, transform_map, transforms_wf, Coder, Components,
    Environment, FunctionSpec, PCollection, PTransform, SpecV, TransformV, WindowingStrategy,
};
use crate::named::{texts, NamedMap};
use crate::text::same_text;
use crate::transforms::flatten::Flatten;
use crate::transforms::gbk::GroupByKey;
use crate::transforms::impulse::Impulse;
use vstd::prelude::*;
use vstd::string::*;

pub mod flatten;
pub mod gbk;
pub mod impulse;
pub mod laws;

verus! {

/// What every transform of the runner has.
#[derive(Debug, Clone)]
pub struct TransformParts {
    pub id: String,
    pub name: String,
    pub inputs: NamedMap<String>,
    pub outputs: NamedMap<String>,
}

#[verifier::ext_equal]
pub struct PartsV {
    pub id: Seq<char>,
    pub name: Seq<char>,
    pub inputs: Map<Seq<char>, Seq<char>>,
    pub outputs: Map<Seq<char>, Seq<char>>,
}

impl TransformParts {
    pub open spec fn wf(self) -> bool {
        self.inputs.wf() && self.outputs.wf()
    }

    pub open spec fn model(self) -> PartsV {
        PartsV {
            id: self.id@,
            name: self.name@,
            inputs: text_map(self.inputs),
            outputs: text_map(self.outputs),
        }
    }

    pub fn duplicate(&self) -> (r: TransformParts)
        requires
            self.wf(),
        ensures
            r.wf(),
            r.model() == self.model(),
    {
        TransformParts {
            id: self.id.clone(),
            name: self.name.clone(),
            inputs: duplicate_text_map(&self.inputs),
            outputs: duplicate_text_map(&self.outputs),
        }
    }
}

/// The transform that a worker is told of.
pub open spec fn told(parts: PartsV, urn: Seq<char>) -> TransformV {
    TransformV {
        unique_name: parts.name,
        spec: Some(SpecV { urn, payload: seq![] }),
        subtransforms: seq![],
        inputs: parts.inputs,
        outputs: parts.outputs,
        environment_id: seq![],
    }
}

/// Whether the map has the value.
pub open spec fn has_value(m: Map<Seq<char>, Seq<char>>, p: Seq<char>) -> bool {
    exists|n: Seq<char>| #[trigger] m.contains_key(n) && m[n] == p
}

/// Whether the transform reads or fills the collection.
pub open spec fn touches(parts: PartsV, p: Seq<char>) -> bool {
    has_value(parts.inputs, p) || has_value(parts.outputs, p)
}

/// Adds the values of a map, each once.
fn add_values(out: &mut Vec<String>, m: &NamedMap<String>)
    requires
        m.wf(),
        texts(old(out)@).no_duplicates(),
    ensures
        texts(final(out)@).no_duplicates(),
        forall|p: Seq<char>|
            #[trigger]
            texts(final(out)@).contains(p) <==> texts(old(out)@).contains(p) || has_value(
                text_map(*m),
                p,
            ),
{
    let ghost start = texts(out@);
    let ghost e = m.entries@;
    let n: usize = m.entries.len();
    let mut i: usize = 0;
    while i < n
        invariant
            m.wf(),
            e == m.entries@,
            n == e.len(),
            i <= n,
            texts(out@).no_duplicates(),
            forall|p: Seq<char>|
                #[trigger]
                texts(out@).contains(p) <==> start.contains(p) || exists|k: int|
                    0 <= k < i && (#[trigger] e[k]).1@ == p,
        decreases n - i,
    {
        let ghost before = texts(out@);
        crate::fusion::groups::add_id(out, m.entries[i].1.as_str());
        proof {
            assert forall|p: Seq<char>|
                #[trigger]
                texts(out@).contains(p) <==> start.contains(p) || exists|k: int|
                    0 <= k < i + 1 && (#[trigger] e[k]).1@ == p by {
                if before.contains(p) && !start.contains(p) {
                    let k = choose|k: int| 0 <= k < i && (#[trigger] e[k]).1@ == p;
                    assert(e[k].1@ == p);
                }
                if p == e[i as int].1@ {
                    assert(e[i as int].1@ == p);
                }
            }
        }
        i = i + 1;
    }
    proof {
        assert forall|p: Seq<char>|
            #[trigger]
            texts(out@).contains(p) <==> start.contains(p) || has_value(text_map(*m), p) by {
            if texts(out@).contains(p) && !start.contains(p) {
                let k = choose|k: int| 0 <= k < n && (#[trigger] e[k]).1@ == p;
                m.entry_at(k);
                assert(text_map(*m).contains_key(e[k].0@));
            }
            if has_value(text_map(*m), p) {
                let l = choose|l: Seq<char>|
                    #[trigger]
                    text_map(*m).contains_key(l) && text_map(*m)[l] == p;
                let k = m.has_entry(l);
                assert(e[k].1@ == p);
            }
        }
    }
}

/// A transform that the runner executes.
pub trait FlareTransform {
    /// The name of what the transform does.
    spec fn urn_text() -> Seq<char>;

    spec fn parts_of(&self) -> TransformParts;

    fn urn() -> (r: &'static str)
        ensures
            r@ == Self::urn_text(),
    ;

    fn with(
        id: String,
        inputs: NamedMap<String>,
        outputs: NamedMap<String>,
        name: String,
    ) -> (r: Self) where Self: Sized
        ensures
            r.parts_of() == (TransformParts { id, name, inputs, outputs }),
    ;

    fn parts(&self) -> (r: &TransformParts)
        ensures
            *r == self.parts_of(),
    ;

    fn id(&self) -> (r: String)
        ensures
            r@ == self.parts_of().id@,
    {
        self.parts().id.clone()
    }

    fn unique_name(&self) -> (r: String)
        ensures
            r@ == self.parts_of().name@,
    {
        self.parts().name.clone()
    }

    /// The collections that the transform fills, each once.
    fn output_pcol_ids(&self) -> (r: Vec<String>)
        requires
            self.parts_of().wf(),
        ensures
            texts(r@).no_duplicates(),
            forall|p: Seq<char>|
                #[trigger]
                texts(r@).contains(p) <==> has_value(self.parts_of().model().outputs, p),
    {
        let mut out: Vec<String> = Vec::new();
        assert(texts(out@) =~= seq![]);
        add_values(&mut out, &self.parts().outputs);
        out
    }

    fn windowing_strategies(&self) -> (r: NamedMap<WindowingStrategy>)
        ensures
            r.wf(),
            r@ == Map::<Seq<char>, WindowingStrategy>::empty(),
    {
        NamedMap::new()
    }

    fn coders(&self) -> (r: NamedMap<Coder>)
        ensures
            r.wf(),
            r@ == Map::<Seq<char>, Coder>::empty(),
    {
        NamedMap::new()
    }

    fn environments(&self) -> (r: NamedMap<Environment>)
        ensures
            r.wf(),
            r@ == Map::<Seq<char>, Environment>::empty(),
    {
        NamedMap::new()
    }

    /// The transform as a worker is told of it, under its id.
    fn transfrom_spec(&self) -> (r: NamedMap<PTransform>)
        requires
            self.parts_of().wf(),
        ensures
            transforms_wf(r),
            transform_map(r) == map![
                self.parts_of().id@ => told(self.parts_of().model(), Self::urn_text())
            ],
    {
        let parts: &TransformParts = self.parts();
        let transform = PTransform {
            unique_name: parts.name.clone(),
            spec: Some(FunctionSpec { urn: Self::urn().to_owned(), payload: Vec::new() }),
            subtransforms: Vec::new(),
            inputs: duplicate_text_map(&parts.inputs),
            outputs: duplicate_text_map(&parts.outputs),
            environment_id: String::new(),
        };
        proof {
            assert(transform.model() =~= told(parts.model(), Self::urn_text()));
        }
        let mut out: NamedMap<PTransform> = NamedMap::new();
        out.insert(parts.id.clone(), transform);
        proof {
            assert(transform_map(out) =~= map![parts.id@ => transform.model()]);
            assert forall|i: int| 0 <= i < out.entries@.len() implies (
            #[trigger] out.entries@[i]).1.wf() by {
                out.entry_at(i);
            }
        }
        out
    }

    /// Those collections of the pipeline that the transform reads or fills.
    fn pcollections(&self, components: &Components) -> (r: NamedMap<PCollection>)
        requires
            self.parts_of().wf(),
            components.wf(),
        ensures
            r.wf(),
            forall|p: Seq<char>|
                #[trigger]
                pcollection_map(r).contains_key(p) <==> touches(self.parts_of().model(), p)
                    && components.model().pcollections.contains_key(p),
            forall|p: Seq<char>|
                #[trigger]
                pcollection_map(r).contains_key(p) ==> pcollection_map(r)[p]
                    == components.model().pcollections[p],
    {
        let mut ids: Vec<String> = Vec::new();
        assert(texts(ids@) =~= seq![]);
        add_values(&mut ids, &self.parts().inputs);
        add_values(&mut ids, &self.parts().outputs);
        pick_pcollections(components, &ids)
    }
}

/// Those of the collections that the pipeline has.
fn pick_pcollections(components: &Components, ids: &Vec<String>) -> (r: NamedMap<PCollection>)
    requires
        components.wf(),
    ensures
        r.wf(),
        forall|p: Seq<char>|
            #[trigger]
            pcollection_map(r).contains_key(p) <==> texts(ids@).contains(p)
                && components.model().pcollections.contains_key(p),
        forall|p: Seq<char>|
            #[trigger]
            pcollection_map(r).contains_key(p) ==> pcollection_map(r)[p]
                == components.model().pcollections[p],
{
    let ghost all = components.model().pcollections;
    let n: usize = ids.len();
    let mut out: NamedMap<PCollection> = NamedMap::new();
    let mut i: usize = 0;
    while i < n
        invariant
            components.wf(),
            all == components.model().pcollections,
            n == ids@.len(),
            i <= n,
            out.wf(),
            forall|p: Seq<char>|
                #[trigger]
                pcollection_map(out).contains_key(p) <==> all.contains_key(p) && exists|k: int|
                    0 <= k < i && (#[trigger] ids@[k])@ == p,
            forall|p: Seq<char>|
                #[trigger]
                pcollection_map(out).contains_key(p) ==> pcollection_map(out)[p] == all[p],
        decreases n - i,
    {
        let ghost before = pcollection_map(out);
        let ghost id = ids@[i as int]@;
        match components.pcollections.get(ids[i].as_str()) {
            Some(c) => {
                let copy: PCollection = c.duplicate();
                out.insert(ids[i].clone(), copy);
                proof {
                    assert(pcollection_map(out) =~= before.insert(id, copy.model()));
                }
            },
            None => {},
        }
        proof {
            assert forall|p: Seq<char>|
                #[trigger]
                pcollection_map(out).contains_key(p) <==> all.contains_key(p) && exists|k: int|
                    0 <= k < i + 1 && (#[trigger] ids@[k])@ == p by {
                if before.contains_key(p) {
                    let k = choose|k: int| 0 <= k < i && (#[trigger] ids@[k])@ == p;
                    assert(ids@[k]@ == p);
                }
                if p == id {
                    assert(ids@[i as int]@ == p);
                }
            }
        }
        i = i + 1;
    }
    proof {
        assert forall|p: Seq<char>|
            #[trigger]
            pcollection_map(out).contains_key(p) <==> texts(ids@).contains(p) && all.contains_key(
                p,
            ) by {
            if exists|k: int| 0 <= k < n && (#[trigger] ids@[k])@ == p {
                let k = choose|k: int| 0 <= k < n && (#[trigger] ids@[k])@ == p;
                assert(texts(ids@)[k] == p);
            }
            if texts(ids@).contains(p) {
                let k = choose|k: int| 0 <= k < texts(ids@).len() && texts(ids@)[k] == p;
                assert(ids@[k]@ == p);
            }
        }
    }
    out
}

/// A transform of the runner.
#[derive(Debug, Clone)]
pub enum FlareRunnerTransform {
    Impulse(Impulse),
    GroupByKey(GroupByKey),
    Flatten(Flatten),
}

/// What a transform of the runner is.
#[verifier::ext_equal]
pub struct RunnerV {
    pub urn: Seq<char>,
    pub parts: PartsV,
}

impl FlareRunnerTransform {
    pub open spec fn parts_of(self) -> TransformParts {
        match self {
            FlareRunnerTransform::Impulse(t) => t.parts_of(),
            FlareRunnerTransform::GroupByKey(t) => t.parts_of(),
            FlareRunnerTransform::Flatten(t) => t.parts_of(),
        }
    }

    pub open spec fn wf(self) -> bool {
        self.parts_of().wf()
    }

    pub open spec fn model(self) -> RunnerV {
        RunnerV {
            urn: match self {
                FlareRunnerTransform::Impulse(_) => urns::IMPULSE_TRANSFORM@,
                FlareRunnerTransform::GroupByKey(_) => urns::GROUP_BY_KEY_TRANSFORM@,
                FlareRunnerTransform::Flatten(_) => urns::FLATTEN_TRANSFORM@,
            },
            parts: self.parts_of().model(),
        }
    }

    pub fn id(&self) -> (r: String)
        ensures
            r@ == self.parts_of().id@,
    {
        match self {
            FlareRunnerTransform::Impulse(t) => t.id(),
            FlareRunnerTransform::GroupByKey(t) => t.id(),
            FlareRunnerTransform::Flatten(t) => t.id(),
        }
    }

    /// The collections that the transform fills, each once.
    pub fn output_pcol_ids(&self) -> (r: Vec<String>)
        requires
            self.wf(),
        ensures
            texts(r@).no_duplicates(),
            forall|p: Seq<char>|
                #[trigger]
                texts(r@).contains(p) <==> has_value(self.model().parts.outputs, p),
    {
        match self {
            FlareRunnerTransform::Impulse(t) => t.output_pcol_ids(),
            FlareRunnerTransform::GroupByKey(t) => t.output_pcol_ids(),
            FlareRunnerTransform::Flatten(t) => t.output_pcol_ids(),
        }
    }

    /// The transform as a worker is told of it, under its id.
    pub fn transfrom_spec(&self) -> (r: NamedMap<PTransform>)
        requires
            self.wf(),
        ensures
            transforms_wf(r),
            transform_map(r) == map![
                self.parts_of().id@ => told(self.model().parts, self.model().urn)
            ],
    {
        match self {
            FlareRunnerTransform::Impulse(t) => t.transfrom_spec(),
            FlareRunnerTransform::GroupByKey(t) => t.transfrom_spec(),
            FlareRunnerTransform::Flatten(t) => t.transfrom_spec(),
        }
    }

    /// Those collections of the pipeline that the transform reads or fills.
    pub fn pcollections(&self, components: &Components) -> (r: NamedMap<PCollection>)
        requires
            self.wf(),
            components.wf(),
        ensures
            r.wf(),
            forall|p: Seq<char>|
                #[trigger]
                pcollection_map(r).contains_key(p) <==> touches(self.model().parts, p)
                    && components.model().pcollections.contains_key(p),
            forall|p: Seq<char>|
                #[trigger]
                pcollection_map(r).contains_key(p) ==> pcollection_map(r)[p]
                    == components.model().pcollections[p],
    {
        match self {
            FlareRunnerTransform::Impulse(t) => t.pcollections(components),
            FlareRunnerTransform::GroupByKey(t) => t.pcollections(components),
            FlareRunnerTransform::Flatten(t) => t.pcollections(components),
        }
    }

    pub fn duplicate(&self) -> (r: FlareRunnerTransform)
        requires
            self.wf(),
        ensures
            r.wf(),
            r.model() == self.model(),
    {
        match self {
            FlareRunnerTransform::Impulse(t) => FlareRunnerTransform::Impulse(
                Impulse { parts: t.parts.duplicate() },
            ),
            FlareRunnerTransform::GroupByKey(t) => FlareRunnerTransform::GroupByKey(
                GroupByKey { parts: t.parts.duplicate() },
            ),
            FlareRunnerTransform::Flatten(t) => FlareRunnerTransform::Flatten(
                Flatten { parts: t.parts.duplicate() },
            ),
        }
    }
}

/// The transform of the runner for this urn, with a new id.
pub fn from_urn(
    urn: &str,
    name: String,
    inputs: NamedMap<String>,
    outputs: NamedMap<String>,
) -> (r: FlareRunnerTransform)
    requires
        urn@ == urns::IMPULSE_TRANSFORM@ || urn@ == urns::GROUP_BY_KEY_TRANSFORM@,
        inputs.wf(),
        outputs.wf(),
    ensures
        r.wf(),
        r.model().urn == urn@,
        r.model().parts == (PartsV {
            id: r.parts_of().id@,
            name: name@,
            inputs: text_map(inputs),
            outputs: text_map(outputs),
        }),
{
    if same_text(urn, urns::IMPULSE_TRANSFORM) {
        FlareRunnerTransform::Impulse(Impulse::with(random_id(), inputs, outputs, name))
    } else {
        FlareRunnerTransform::GroupByKey(GroupByKey::with(random_id(), inputs, outputs, name))
    }
}

} // verus!
