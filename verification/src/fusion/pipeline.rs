//! A pipeline that can be asked who consumes and who produces what.
use crate::fusion::payload::{decode_par_do, par_do_payload, ParDoFacts, ParDoV};
use crate::fusion::refs::{SideInputRef, TimerRef, UserStateRef};
use crate::fusion::stage::ExecutableStage;
use crate::jobservice::urns;
use crate::model::{
    Components, ComponentsV, Environment, EnvironmentV, NodeV, PCollectionNode, PTransform,
    PTransformNode, PcolV, TransformV,
};
use crate::named::{has_text, names, texts};
use crate::text::{join2, same_text};
use crate::utils::errors::BeamTranslationError;
use vstd::prelude::*;
use vstd::string::*;

pub use crate::engine::graph::{ConsumerMetaData, ExecutableGraph, ExecutableNode};

verus! {

// ---------------------------------------------------------------------------
// Facts of a pipeline
// ---------------------------------------------------------------------------
/// What a transform does, or the empty name.
pub open spec fn urn_of_transform(t: TransformV) -> Seq<char> {
    match t.spec {
        Some(s) => s.urn,
        None => seq![],
    }
}

/// The names of the transforms whose payload is that of a ParDo.
pub open spec fn is_par_do_urn(urn: Seq<char>) -> bool {
    ||| urn == urns::PAR_DO_TRANSFORM@
    ||| urn == urns::SPLITTABLE_PAIR_WITH_RESTRICTION_URN@
    ||| urn == urns::SPLITTABLE_SPLIT_AND_SIZE_RESTRICTIONS_URN@
    ||| urn == urns::SPLITTABLE_PROCESS_SIZED_ELEMENTS_AND_RESTRICTIONS_URN@
    ||| urn == urns::SPLITTABLE_TRUNCATE_SIZED_RESTRICTION_URN@
    ||| urn == urns::SPLITTABLE_PROCESS_KEYED_URN@
    ||| urn == urns::SPLITTABLE_PROCESS_ELEMENTS_URN@
}

/// What the payload of a ParDo says; nothing for other transforms and for a
/// payload that is none.
pub open spec fn par_do_of(t: TransformV) -> Option<ParDoV> {
    if t.spec is Some && is_par_do_urn(t.spec->0.urn) {
        par_do_payload(t.spec->0.payload)
    } else {
        None
    }
}

/// The local names of the side inputs.
pub open spec fn side_names(t: TransformV) -> Set<Seq<char>> {
    match par_do_of(t) {
        Some(p) => p.side_inputs,
        None => Set::empty(),
    }
}

/// The environment of a transform, if it has one.
pub open spec fn environment_of(c: ComponentsV, t: TransformV) -> Option<EnvironmentV> {
    if c.environments.contains_key(t.environment_id) {
        Some(c.environments[t.environment_id])
    } else {
        None
    }
}

/// Whether the transform has no parts.
pub open spec fn is_primitive(t: TransformV) -> bool {
    t.subtransforms.len() == 0
}

/// Whether the transform takes the elements of the collection.
pub open spec fn takes(t: TransformV, pcol: Seq<char>) -> bool {
    exists|n: Seq<char>|
        #[trigger]
        t.inputs.contains_key(n) && t.inputs[n] == pcol && !side_names(t).contains(n)
}

/// Whether the transform takes the collection as a side input.
pub open spec fn takes_aside(t: TransformV, pcol: Seq<char>) -> bool {
    exists|n: Seq<char>|
        #[trigger]
        t.inputs.contains_key(n) && t.inputs[n] == pcol && side_names(t).contains(n)
}

/// Whether the transform with this id takes the elements of the collection.
pub open spec fn consumes(c: ComponentsV, id: Seq<char>, pcol: Seq<char>) -> bool {
    c.transforms.contains_key(id) && is_primitive(c.transforms[id]) && takes(
        c.transforms[id],
        pcol,
    )
}

/// Whether the transform with this id takes the collection as a side input.
pub open spec fn side_consumes(c: ComponentsV, id: Seq<char>, pcol: Seq<char>) -> bool {
    c.transforms.contains_key(id) && is_primitive(c.transforms[id]) && takes_aside(
        c.transforms[id],
        pcol,
    )
}

/// Whether the transform puts elements into the collection.
pub open spec fn gives(c: ComponentsV, t: TransformV, pcol: Seq<char>) -> bool {
    c.pcollections.contains_key(pcol) && exists|n: Seq<char>|
        #[trigger]
        t.outputs.contains_key(n) && t.outputs[n] == pcol
}

/// Whether the transform with this id puts elements into the collection.
pub open spec fn produces(c: ComponentsV, id: Seq<char>, pcol: Seq<char>) -> bool {
    c.transforms.contains_key(id) && gives(c, c.transforms[id], pcol)
}

/// Whether some ids are those that a predicate admits, each once.
pub open spec fn lists(ids: Seq<String>, which: spec_fn(Seq<char>) -> bool) -> bool {
    &&& texts(ids).no_duplicates()
    &&& forall|id: Seq<char>| #[trigger] texts(ids).contains(id) <==> which(id)
}

/// Pushing a text that is not there yet.
pub proof fn texts_pushed(before: Seq<String>, after: Seq<String>)
    requires
        after.len() == before.len() + 1,
        after.drop_last() =~= before,
    ensures
        texts(after) =~= texts(before).push(after.last()@),
        forall|x: Seq<char>|
            #[trigger]
            texts(after).contains(x) <==> texts(before).contains(x) || x == after.last()@,
        texts(before).no_duplicates() && !texts(before).contains(after.last()@)
            ==> texts(after).no_duplicates(),
{
    let t = texts(after);
    let b = texts(before);
    assert forall|i: int| 0 <= i < before.len() implies t[i] == b[i] by {
        assert(after.drop_last()[i] == before[i]);
    }
    assert(t =~= b.push(after.last()@));
    assert forall|x: Seq<char>|
        #[trigger]
        t.contains(x) <==> b.contains(x) || x == after.last()@ by {
        if b.contains(x) {
            let i = choose|i: int| 0 <= i < b.len() && b[i] == x;
            assert(t[i] == x);
        }
        if x == after.last()@ {
            assert(t[before.len() as int] == x);
        }
        if t.contains(x) {
            let i = choose|i: int| 0 <= i < t.len() && t[i] == x;
            if i < before.len() {
                assert(b[i] == x);
            }
        }
    }
    if b.no_duplicates() && !b.contains(after.last()@) {
        assert forall|i: int, j: int| 0 <= i < t.len() && 0 <= j < t.len() && i != j implies t[i]
            != t[j] by {
            if i < before.len() && j < before.len() {
                assert(b[i] != b[j]);
            } else if i < before.len() {
                assert(b.contains(b[i]));
            } else if j < before.len() {
                assert(b.contains(b[j]));
            }
        }
    }
}

/// A pipeline that can be asked about its parts.
pub struct QueryablePipeline {
    pub components: Components,
}

/// Decodes the payload of a ParDo.
pub fn read_par_do(transform: &PTransform) -> (r: Option<ParDoFacts>)
    ensures
        match r {
            Some(f) => par_do_of(transform.model()) == Some(f.model()),
            None => par_do_of(transform.model()) is None,
        },
{
    match &transform.spec {
        Some(s) => if has_par_do_payload(s.urn.as_str()) {
            decode_par_do(s.payload.as_slice())
        } else {
            None
        },
        None => None,
    }
}

pub fn has_par_do_payload(urn: &str) -> (r: bool)
    ensures
        r == is_par_do_urn(urn@),
{
    same_text(urn, urns::PAR_DO_TRANSFORM) || same_text(
        urn,
        urns::SPLITTABLE_PAIR_WITH_RESTRICTION_URN,
    ) || same_text(urn, urns::SPLITTABLE_SPLIT_AND_SIZE_RESTRICTIONS_URN) || same_text(
        urn,
        urns::SPLITTABLE_PROCESS_SIZED_ELEMENTS_AND_RESTRICTIONS_URN,
    ) || same_text(urn, urns::SPLITTABLE_TRUNCATE_SIZED_RESTRICTION_URN) || same_text(
        urn,
        urns::SPLITTABLE_PROCESS_KEYED_URN,
    ) || same_text(urn, urns::SPLITTABLE_PROCESS_ELEMENTS_URN)
}

/// Whether the transform takes the collection, as a side input or not.
fn has_input(transform: &PTransform, pcol: &str, aside: bool) -> (r: bool)
    requires
        transform.wf(),
    ensures
        r == (if aside {
            takes_aside(transform.model(), pcol@)
        } else {
            takes(transform.model(), pcol@)
        }),
{
    let ghost t = transform.model();
    let facts: Option<ParDoFacts> = read_par_do(transform);
    let n: usize = transform.inputs.entries.len();
    let mut i: usize = 0;
    while i < n
        invariant
            n == transform.inputs.entries@.len(),
            i <= n,
            transform.wf(),
            t == transform.model(),
            match facts {
                Some(f) => par_do_of(t) == Some(f.model()),
                None => par_do_of(t) is None,
            },
            forall|j: int|
                0 <= j < i ==> !((#[trigger] transform.inputs.entries@[j]).1@ == pcol@
                    && side_names(t).contains(transform.inputs.entries@[j].0@) == aside),
        decreases n - i,
    {
        proof {
            transform.inputs.entry_at(i as int);
        }
        let name: &String = &transform.inputs.entries[i].0;
        let is_side: bool = match &facts {
            Some(f) => has_text(&f.side_inputs, name.as_str()),
            None => false,
        };
        assert(is_side == side_names(t).contains(name@));
        if is_side == aside && same_text(transform.inputs.entries[i].1.as_str(), pcol) {
            assert(t.inputs.contains_key(name@));
            return true;
        }
        i = i + 1;
    }
    proof {
        assert forall|m: Seq<char>| #[trigger] t.inputs.contains_key(m) && t.inputs[m]
            == pcol@ implies side_names(t).contains(m) != aside by {
            let j = transform.inputs.has_entry(m);
        }
    }
    false
}

impl QueryablePipeline {
    pub open spec fn wf(&self) -> bool {
        self.components.wf()
    }

    pub open spec fn model(&self) -> ComponentsV {
        self.components.model()
    }

    pub fn new(components: &Components) -> (r: QueryablePipeline)
        requires
            components.wf(),
        ensures
            r.wf(),
            r.model() == components.model(),
    {
        QueryablePipeline { components: components.duplicate() }
    }

    pub fn components(&self) -> (r: &Components)
        ensures
            *r == self.components,
    {
        &self.components
    }

    /// The environment of a transform, if it has one.
    pub fn get_environment(&self, transform: &PTransform) -> (r: Option<&Environment>)
        requires
            self.wf(),
        ensures
            match r {
                Some(e) => environment_of(self.model(), transform.model()) == Some(e.model()),
                None => environment_of(self.model(), transform.model()) is None,
            },
    {
        self.components.environments.get(transform.environment_id.as_str())
    }

    /// The ids of the transforms that take the collection, as a side input or not.
    fn takers(&self, pcol: &str, aside: bool) -> (r: Vec<String>)
        requires
            self.wf(),
        ensures
            lists(
                r@,
                |id: Seq<char>|
                    if aside {
                        side_consumes(self.model(), id, pcol@)
                    } else {
                        consumes(self.model(), id, pcol@)
                    },
            ),
    {
        let ghost c = self.model();
        let ghost which = |id: Seq<char>|
            if aside {
                side_consumes(c, id, pcol@)
            } else {
                consumes(c, id, pcol@)
            };
        let transforms = &self.components.transforms;
        let n: usize = transforms.entries.len();
        let mut out: Vec<String> = Vec::new();
        let mut i: usize = 0;
        while i < n
            invariant
                self.wf(),
                *transforms == self.components.transforms,
                c == self.model(),
                n == transforms.entries@.len(),
                i <= n,
                which == (|id: Seq<char>|
                    if aside {
                        side_consumes(c, id, pcol@)
                    } else {
                        consumes(c, id, pcol@)
                    }),
                texts(out@).no_duplicates(),
                forall|id: Seq<char>|
                    #[trigger]
                    texts(out@).contains(id) <==> which(id) && exists|j: int|
                        0 <= j < i && (#[trigger] transforms.entries@[j]).0@ == id,
            decreases n - i,
        {
            let ghost here = transforms.entries@[i as int].0@;
            let ghost before = out@;
            proof {
                transforms.entry_at(i as int);
                assert(transforms.entries@[i as int].1.wf());
                assert(c.transforms[here] == transforms.entries@[i as int].1.model());
                assert(texts(transforms.entries@[i as int].1.subtransforms@).len()
                    == transforms.entries@[i as int].1.subtransforms@.len());
            }
            let transform: &PTransform = &transforms.entries[i].1;
            let found: bool = transform.subtransforms.len() == 0 && has_input(
                transform,
                pcol,
                aside,
            );
            assert(found == which(here));
            if found {
                out.push(transforms.entries[i].0.clone());
                proof {
                    assert(out@.drop_last() =~= before);
                    texts_pushed(before, out@);
                    if texts(before).contains(here) {
                        let j = choose|j: int|
                            0 <= j < i && (#[trigger] transforms.entries@[j]).0@ == here;
                        let x = transforms.entries@[j];
                        let y = transforms.entries@[i as int];
                    }
                }
            }
            proof {
                assert forall|id: Seq<char>|
                    #[trigger]
                    texts(out@).contains(id) <==> which(id) && exists|j: int|
                        0 <= j < i + 1 && (#[trigger] transforms.entries@[j]).0@ == id by {
                    if texts(out@).contains(id) {
                        if texts(before).contains(id) {
                            let j = choose|j: int|
                                0 <= j < i && (#[trigger] transforms.entries@[j]).0@ == id;
                            assert(transforms.entries@[j].0@ == id);
                        } else {
                            assert(transforms.entries@[i as int].0@ == id);
                        }
                    }
                    if which(id) && exists|j: int|
                        0 <= j < i + 1 && (#[trigger] transforms.entries@[j]).0@ == id {
                        let j = choose|j: int|
                            0 <= j < i + 1 && (#[trigger] transforms.entries@[j]).0@ == id;
                        if j < i {
                            assert(texts(before).contains(id));
                        }
                    }
                }
            }
            i = i + 1;
        }
        proof {
            assert forall|id: Seq<char>| #[trigger] texts(out@).contains(id) <==> which(id) by {
                if which(id) {
                    let j = transforms.has_entry(id);
                    assert(transforms.entries@[j].0@ == id);
                }
            }
        }
        out
    }

    /// The ids of the transforms that take the elements of the collection.
    pub fn per_element_consumer_ids(&self, pcol: &str) -> (r: Vec<String>)
        requires
            self.wf(),
        ensures
            lists(r@, |id: Seq<char>| consumes(self.model(), id, pcol@)),
    {
        self.takers(pcol, false)
    }

    /// The ids of the transforms that take the collection as a side input.
    pub fn singleton_consumer_ids(&self, pcol: &str) -> (r: Vec<String>)
        requires
            self.wf(),
        ensures
            lists(r@, |id: Seq<char>| side_consumes(self.model(), id, pcol@)),
    {
        self.takers(pcol, true)
    }

    /// The node of a transform of the pipeline.
    pub fn node(&self, id: &str) -> (r: Option<PTransformNode>)
        requires
            self.wf(),
        ensures
            match r {
                Some(n) => n.wf() && self.model().transforms.contains_key(id@) && n.model() == (
                NodeV { id: id@, transform: self.model().transforms[id@] }),
                None => !self.model().transforms.contains_key(id@),
            },
    {
        match self.components.transforms.position(id) {
            Some(i) => {
                assert(self.components.transforms.entries@[i as int].1.wf());
                Some(
                    PTransformNode {
                        id: id.to_owned(),
                        transform: self.components.transforms.entries[i].1.duplicate(),
                    },
                )
            },
            None => None,
        }
    }

    /// The node of a collection of the pipeline.
    pub fn pcollection_node(&self, id: &str) -> (r: Option<PCollectionNode>)
        requires
            self.wf(),
        ensures
            match r {
                Some(n) => self.model().pcollections.contains_key(id@) && n.model() == (PcolV {
                    id: id@,
                    collection: self.model().pcollections[id@],
                }),
                None => !self.model().pcollections.contains_key(id@),
            },
    {
        match self.components.pcollections.get(id) {
            Some(c) => Some(PCollectionNode { id: id.to_owned(), collection: c.duplicate() }),
            None => None,
        }
    }

    /// The ids of the collections into which the transform puts elements.
    pub fn output_ids(&self, transform: &PTransform) -> (r: Vec<String>)
        requires
            self.wf(),
            transform.wf(),
        ensures
            lists(r@, |id: Seq<char>| gives(self.model(), transform.model(), id)),
    {
        let ghost c = self.model();
        let ghost t = transform.model();
        let n: usize = transform.outputs.entries.len();
        let mut out: Vec<String> = Vec::new();
        let mut i: usize = 0;
        while i < n
            invariant
                self.wf(),
                transform.wf(),
                c == self.model(),
                t == transform.model(),
                n == transform.outputs.entries@.len(),
                i <= n,
                texts(out@).no_duplicates(),
                forall|id: Seq<char>|
                    #[trigger]
                    texts(out@).contains(id) <==> c.pcollections.contains_key(id) && exists|
                        j: int,
                    |
                        0 <= j < i && (#[trigger] transform.outputs.entries@[j]).1@ == id,
            decreases n - i,
        {
            let ghost here = transform.outputs.entries@[i as int].1@;
            let ghost before = out@;
            let id: &String = &transform.outputs.entries[i].1;
            if self.components.pcollections.contains_key(id.as_str()) && !has_text(
                &out,
                id.as_str(),
            ) {
                out.push(id.clone());
                proof {
                    assert(out@.drop_last() =~= before);
                    texts_pushed(before, out@);
                }
            }
            proof {
                assert forall|id: Seq<char>|
                    #[trigger]
                    texts(out@).contains(id) <==> c.pcollections.contains_key(id) && exists|
                        j: int,
                    |
                        0 <= j < i + 1 && (#[trigger] transform.outputs.entries@[j]).1@ == id by {
                    if texts(out@).contains(id) {
                        if texts(before).contains(id) {
                            let j = choose|j: int|
                                0 <= j < i && (#[trigger] transform.outputs.entries@[j]).1@ == id;
                            assert(transform.outputs.entries@[j].1@ == id);
                        } else {
                            assert(transform.outputs.entries@[i as int].1@ == id);
                        }
                    }
                    if c.pcollections.contains_key(id) && exists|j: int|
                        0 <= j < i + 1 && (#[trigger] transform.outputs.entries@[j]).1@ == id {
                        let j = choose|j: int|
                            0 <= j < i + 1 && (#[trigger] transform.outputs.entries@[j]).1@ == id;
                        if j < i {
                            assert(texts(before).contains(id));
                        }
                    }
                }
            }
            i = i + 1;
        }
        proof {
            assert forall|id: Seq<char>|
                #[trigger]
                texts(out@).contains(id) <==> gives(c, t, id) by {
                if gives(c, t, id) {
                    let m = choose|m: Seq<char>|
                        #[trigger]
                        t.outputs.contains_key(m) && t.outputs[m] == id;
                    let j = transform.outputs.has_entry(m);
                    assert(transform.outputs.entries@[j].1@ == id);
                }
                if texts(out@).contains(id) {
                    let j = choose|j: int|
                        0 <= j < n && (#[trigger] transform.outputs.entries@[j]).1@ == id;
                    transform.outputs.entry_at(j);
                    assert(t.outputs.contains_key(transform.outputs.entries@[j].0@));
                }
            }
        }
        out
    }

    /// The transforms without inputs.
    pub fn root_ids(&self) -> (r: Vec<String>)
        requires
            self.wf(),
        ensures
            lists(r@, |id: Seq<char>| is_root(self.model(), id)),
    {
        let ghost c = self.model();
        let transforms = &self.components.transforms;
        let n: usize = transforms.entries.len();
        let mut out: Vec<String> = Vec::new();
        let mut i: usize = 0;
        while i < n
            invariant
                self.wf(),
                *transforms == self.components.transforms,
                c == self.model(),
                n == transforms.entries@.len(),
                i <= n,
                texts(out@).no_duplicates(),
                forall|id: Seq<char>|
                    #[trigger]
                    texts(out@).contains(id) <==> is_root(c, id) && exists|j: int|
                        0 <= j < i && (#[trigger] transforms.entries@[j]).0@ == id,
            decreases n - i,
        {
            let ghost here = transforms.entries@[i as int].0@;
            let ghost before = out@;
            let transform: &PTransform = &transforms.entries[i].1;
            proof {
                transforms.entry_at(i as int);
                assert(transform.wf());
                assert(c.transforms[here] == transform.model());
                assert(texts(transform.subtransforms@).len() == transform.subtransforms@.len());
                if transform.inputs.entries@.len() > 0 {
                    transform.inputs.entry_at(0);
                    assert(c.transforms[here].inputs.contains_key(transform.inputs.entries@[0].0@));
                } else {
                    assert forall|m: Seq<char>| !c.transforms[here].inputs.contains_key(m) by {
                        if transform.inputs@.contains_key(m) {
                            let j = transform.inputs.has_entry(m);
                        }
                    }
                }
            }
            let found: bool = transform.subtransforms.len() == 0 && transform.inputs.entries.len()
                == 0;
            assert(found == is_root(c, here));
            if found {
                out.push(transforms.entries[i].0.clone());
                proof {
                    assert(out@.drop_last() =~= before);
                    texts_pushed(before, out@);
                    if texts(before).contains(here) {
                        let j = choose|j: int|
                            0 <= j < i && (#[trigger] transforms.entries@[j]).0@ == here;
                        let x = transforms.entries@[j];
                        let y = transforms.entries@[i as int];
                    }
                }
            }
            proof {
                assert forall|id: Seq<char>|
                    #[trigger]
                    texts(out@).contains(id) <==> is_root(c, id) && exists|j: int|
                        0 <= j < i + 1 && (#[trigger] transforms.entries@[j]).0@ == id by {
                    if texts(out@).contains(id) {
                        if texts(before).contains(id) {
                            let j = choose|j: int|
                                0 <= j < i && (#[trigger] transforms.entries@[j]).0@ == id;
                            assert(transforms.entries@[j].0@ == id);
                        } else {
                            assert(transforms.entries@[i as int].0@ == id);
                        }
                    }
                    if is_root(c, id) && exists|j: int|
                        0 <= j < i + 1 && (#[trigger] transforms.entries@[j]).0@ == id {
                        let j = choose|j: int|
                            0 <= j < i + 1 && (#[trigger] transforms.entries@[j]).0@ == id;
                        if j < i {
                            assert(texts(before).contains(id));
                        }
                    }
                }
            }
            i = i + 1;
        }
        proof {
            assert forall|id: Seq<char>| #[trigger] texts(out@).contains(id) <==> is_root(c, id) by {
                if is_root(c, id) {
                    let j = transforms.has_entry(id);
                    assert(transforms.entries@[j].0@ == id);
                }
            }
        }
        out
    }

    /// The transforms without inputs.
    pub fn get_root_transforms(&self) -> (r: Vec<PTransformNode>)
        requires
            self.wf(),
        ensures
            crate::model::nodes_wf(r@),
            exists|ids: Seq<String>|
                lists(ids, |id: Seq<char>| is_root(self.model(), id)) && nodes_of(
                    self.model(),
                    ids,
                    r@,
                ),
    {
        let ids: Vec<String> = self.root_ids();
        let nodes = self.nodes(&ids);
        nodes
    }

    /// The nodes of some transforms of the pipeline.
    pub fn nodes(&self, ids: &Vec<String>) -> (r: Vec<PTransformNode>)
        requires
            self.wf(),
            forall|id: Seq<char>|
                #[trigger]
                texts(ids@).contains(id) ==> self.model().transforms.contains_key(id),
        ensures
            crate::model::nodes_wf(r@),
            nodes_of(self.model(), ids@, r@),
    {
        let n: usize = ids.len();
        let mut out: Vec<PTransformNode> = Vec::new();
        let mut i: usize = 0;
        while i < n
            invariant
                self.wf(),
                n == ids@.len(),
                i <= n,
                out@.len() == i,
                crate::model::nodes_wf(out@),
                forall|id: Seq<char>|
                    #[trigger]
                    texts(ids@).contains(id) ==> self.model().transforms.contains_key(id),
                forall|j: int|
                    0 <= j < i ==> (#[trigger] out@[j]).model() == (NodeV {
                        id: ids@[j]@,
                        transform: self.model().transforms[ids@[j]@],
                    }),
            decreases n - i,
        {
            proof {
                assert(texts(ids@)[i as int] == ids@[i as int]@);
                assert(texts(ids@).contains(ids@[i as int]@));
            }
            match self.node(ids[i].as_str()) {
                Some(node) => {
                    out.push(node);
                },
                None => {},
            }
            i = i + 1;
        }
        out
    }

    /// The collections with these ids.
    pub fn pcollection_nodes(&self, ids: &Vec<String>) -> (r: Vec<PCollectionNode>)
        requires
            self.wf(),
            forall|id: Seq<char>|
                #[trigger]
                texts(ids@).contains(id) ==> self.model().pcollections.contains_key(id),
        ensures
            r@.len() == ids@.len(),
            forall|j: int|
                0 <= j < ids@.len() ==> (#[trigger] r@[j]).model() == (PcolV {
                    id: ids@[j]@,
                    collection: self.model().pcollections[ids@[j]@],
                }),
    {
        let n: usize = ids.len();
        let mut out: Vec<PCollectionNode> = Vec::new();
        let mut i: usize = 0;
        while i < n
            invariant
                self.wf(),
                n == ids@.len(),
                i <= n,
                out@.len() == i,
                forall|id: Seq<char>|
                    #[trigger]
                    texts(ids@).contains(id) ==> self.model().pcollections.contains_key(id),
                forall|j: int|
                    0 <= j < i ==> (#[trigger] out@[j]).model() == (PcolV {
                        id: ids@[j]@,
                        collection: self.model().pcollections[ids@[j]@],
                    }),
            decreases n - i,
        {
            proof {
                assert(texts(ids@)[i as int] == ids@[i as int]@);
                assert(texts(ids@).contains(ids@[i as int]@));
            }
            match self.pcollection_node(ids[i].as_str()) {
                Some(node) => {
                    out.push(node);
                },
                None => {},
            }
            i = i + 1;
        }
        out
    }
}

/// Whether the transform with this id has neither inputs nor parts.
pub open spec fn is_root(c: ComponentsV, id: Seq<char>) -> bool {
    c.transforms.contains_key(id) && is_primitive(c.transforms[id]) && forall|n: Seq<char>|
        !#[trigger] c.transforms[id].inputs.contains_key(n)
}

/// Whether the nodes are those of the transforms with these ids.
pub open spec fn nodes_of(c: ComponentsV, ids: Seq<String>, nodes: Seq<PTransformNode>) -> bool {
    &&& nodes.len() == ids.len()
    &&& forall|j: int|
        0 <= j < ids.len() ==> (#[trigger] nodes[j]).model() == (NodeV {
            id: ids[j]@,
            transform: c.transforms[ids[j]@],
        })
}

// ---------------------------------------------------------------------------
// References of a transform
// ---------------------------------------------------------------------------
/// Whether the collections under these local names are there.
pub open spec fn inputs_resolve(c: ComponentsV, t: TransformV, locals: Set<Seq<char>>) -> bool {
    forall|n: Seq<char>|
        #[trigger]
        locals.contains(n) ==> t.inputs.contains_key(n) && c.pcollections.contains_key(t.inputs[n])
}

/// Whether the side inputs of a transform can be told.
pub open spec fn side_inputs_resolve(c: ComponentsV, t: TransformV) -> bool {
    (t.spec is Some && is_par_do_urn(t.spec->0.urn) ==> par_do_of(t) is Some) && inputs_resolve(
        c,
        t,
        side_names(t),
    )
}

/// Whether this is why the payload of a transform cannot be read.
pub open spec fn refuses_payload(node: NodeV, e: BeamTranslationError) -> bool {
    &&& !readable(node.transform)
    &&& e matches BeamTranslationError::PipelineGraphError(m) && m@
        == "failed to decode ParDoPayload of "@ + node.id
}

/// Whether this is why the side input of this name cannot be told: the transform has no
/// such input, or the collection is not there.
pub open spec fn refuses_input(
    c: ComponentsV,
    node: NodeV,
    name: Seq<char>,
    e: BeamTranslationError,
) -> bool {
    if !node.transform.inputs.contains_key(name) {
        e matches BeamTranslationError::NotFound(m) && m@ == "side input of "@ + node.id
    } else {
        !c.pcollections.contains_key(node.transform.inputs[name]) && (
        e matches BeamTranslationError::NotFound(m) && m@ == "side input collection of "@
            + node.id)
    }
}

/// Whether this is why the side inputs of a transform cannot be told.
pub open spec fn refuses_side_inputs(c: ComponentsV, node: NodeV, e: BeamTranslationError) -> bool {
    refuses_payload(node, e) || exists|name: Seq<char>| #[trigger]
        side_names(node.transform).contains(name) && refuses_input(c, node, name, e)
}

impl QueryablePipeline {
    /// The side inputs of a transform.
    pub fn get_side_inputs(&self, node: &PTransformNode) -> (r: Result<
        Vec<SideInputRef>,
        BeamTranslationError,
    >)
        requires
            self.wf(),
            node.wf(),
        ensures
            match r {
                Ok(refs) => side_inputs_resolve(self.model(), node.transform.model())
                    && refs@.len() == refs_names(refs@).len() && refs_names(refs@).to_set()
                    == side_names(node.transform.model()) && forall|i: int|
                    0 <= i < refs@.len() ==> (#[trigger] refs@[i]).wf() && refs@[i].points_at(
                        self.model(),
                        node.model(),
                    ),
                Err(e) => !side_inputs_resolve(self.model(), node.transform.model())
                    && refuses_side_inputs(self.model(), node.model(), e),
            },
    {
        let ghost c = self.model();
        let ghost t = node.transform.model();
        let facts: ParDoFacts = match &node.transform.spec {
            Some(s) => if has_par_do_payload(s.urn.as_str()) {
                match decode_par_do(s.payload.as_slice()) {
                    Some(f) => f,
                    None => {
                        return Err(
                            BeamTranslationError::PipelineGraphError(
                                join2("failed to decode ParDoPayload of ", node.id.as_str()),
                            ),
                        );
                    },
                }
            } else {
                assert(refs_names(Seq::empty()).to_set() =~= side_names(t));
                return Ok(Vec::new());
            },
            None => {
                assert(refs_names(Seq::empty()).to_set() =~= side_names(t));
                return Ok(Vec::new());
            },
        };
        assert(par_do_of(t) == Some(facts.model()));
        let n: usize = facts.side_inputs.len();
        let mut out: Vec<SideInputRef> = Vec::new();
        let mut i: usize = 0;
        while i < n
            invariant
                self.wf(),
                node.wf(),
                c == self.model(),
                t == node.transform.model(),
                par_do_of(t) == Some(facts.model()),
                n == facts.side_inputs@.len(),
                i <= n,
                out@.len() == i,
                forall|j: int|
                    0 <= j < i ==> (#[trigger] out@[j]).wf() && out@[j].points_at(c, node.model())
                        && out@[j].local_name@ == facts.side_inputs@[j]@,
            decreases n - i,
        {
            let local: &String = &facts.side_inputs[i];
            proof {
                assert(texts(facts.side_inputs@)[i as int] == local@);
                assert(texts(facts.side_inputs@).contains(local@));
                assert(side_names(t).contains(local@));
            }
            let collection: PCollectionNode = match node.transform.inputs.get(local.as_str()) {
                Some(id) => match self.pcollection_node(id.as_str()) {
                    Some(p) => p,
                    None => {
                        let e = BeamTranslationError::NotFound(
                            join2("side input collection of ", node.id.as_str()),
                        );
                        assert(refuses_input(c, node.model(), local@, e));
                        return Err(e);
                    },
                },
                None => {
                    let e = BeamTranslationError::NotFound(
                        join2("side input of ", node.id.as_str()),
                    );
                    assert(refuses_input(c, node.model(), local@, e));
                    return Err(e);
                },
            };
            out.push(
                SideInputRef {
                    transform: node.duplicate(),
                    local_name: local.clone(),
                    collection,
                },
            );
            i = i + 1;
        }
        proof {
            assert(refs_names(out@) =~= texts(facts.side_inputs@));
            assert forall|m: Seq<char>| #[trigger] side_names(t).contains(m) implies t.inputs
                .contains_key(m) && c.pcollections.contains_key(t.inputs[m]) by {
                assert(texts(facts.side_inputs@).contains(m));
                let j = choose|j: int|
                    0 <= j < texts(facts.side_inputs@).len() && texts(facts.side_inputs@)[j] == m;
                assert(out@[j].points_at(c, node.model()));
            }
        }
        Ok(out)
    }

    /// The states of a transform, by their local names.
    pub fn get_user_states(&self, node: &PTransformNode) -> (r: Result<
        Vec<UserStateRef>,
        BeamTranslationError,
    >)
        requires
            self.wf(),
            node.wf(),
        ensures
            match r {
                Ok(refs) => readable(node.transform.model()) && state_names(refs@).to_set() == (
                match par_do_of(node.transform.model()) {
                    Some(p) => p.state_specs,
                    None => Set::empty(),
                }) && forall|i: int|
                    0 <= i < refs@.len() ==> (#[trigger] refs@[i]).transform.wf()
                        && refs@[i].transform.model() == node.model(),
                Err(e) => refuses_payload(node.model(), e),
            },
    {
        let ghost t = node.transform.model();
        let facts: ParDoFacts = match self.readable_facts(node) {
            Ok(Some(f)) => f,
            Ok(None) => {
                assert(state_names(Seq::empty()).to_set() =~= Set::empty());
                return Ok(Vec::new());
            },
            Err(e) => {
                return Err(e);
            },
        };
        let n: usize = facts.state_specs.len();
        let mut out: Vec<UserStateRef> = Vec::new();
        let mut i: usize = 0;
        while i < n
            invariant
                node.wf(),
                n == facts.state_specs@.len(),
                i <= n,
                out@.len() == i,
                forall|j: int|
                    0 <= j < i ==> (#[trigger] out@[j]).transform.wf() && out@[j].transform.model()
                        == node.model() && out@[j].local_name@ == facts.state_specs@[j]@,
            decreases n - i,
        {
            out.push(
                UserStateRef {
                    transform: node.duplicate(),
                    local_name: facts.state_specs[i].clone(),
                },
            );
            i = i + 1;
        }
        assert(state_names(out@) =~= texts(facts.state_specs@));
        Ok(out)
    }

    /// The timers of a transform, by their local names.
    pub fn get_timers(&self, node: &PTransformNode) -> (r: Result<
        Vec<TimerRef>,
        BeamTranslationError,
    >)
        requires
            self.wf(),
            node.wf(),
        ensures
            match r {
                Ok(refs) => readable(node.transform.model()) && timer_names(refs@).to_set() == (
                match par_do_of(node.transform.model()) {
                    Some(p) => p.timer_families,
                    None => Set::empty(),
                }) && forall|i: int|
                    0 <= i < refs@.len() ==> (#[trigger] refs@[i]).transform.wf()
                        && refs@[i].transform.model() == node.model(),
                Err(e) => refuses_payload(node.model(), e),
            },
    {
        let ghost t = node.transform.model();
        let facts: ParDoFacts = match self.readable_facts(node) {
            Ok(Some(f)) => f,
            Ok(None) => {
                assert(timer_names(Seq::empty()).to_set() =~= Set::empty());
                return Ok(Vec::new());
            },
            Err(e) => {
                return Err(e);
            },
        };
        let n: usize = facts.timer_families.len();
        let mut out: Vec<TimerRef> = Vec::new();
        let mut i: usize = 0;
        while i < n
            invariant
                node.wf(),
                n == facts.timer_families@.len(),
                i <= n,
                out@.len() == i,
                forall|j: int|
                    0 <= j < i ==> (#[trigger] out@[j]).transform.wf() && out@[j].transform.model()
                        == node.model() && out@[j].local_name@ == facts.timer_families@[j]@,
            decreases n - i,
        {
            out.push(
                TimerRef {
                    transform: node.duplicate(),
                    local_name: facts.timer_families[i].clone(),
                },
            );
            i = i + 1;
        }
        assert(timer_names(out@) =~= texts(facts.timer_families@));
        Ok(out)
    }

    /// The facts of a ParDo; nothing for another transform.
    fn readable_facts(&self, node: &PTransformNode) -> (r: Result<
        Option<ParDoFacts>,
        BeamTranslationError,
    >)
        ensures
            match r {
                Ok(f) => readable(node.transform.model()) && match f {
                    Some(f) => par_do_of(node.transform.model()) == Some(f.model()),
                    None => par_do_of(node.transform.model()) is None,
                },
                Err(e) => refuses_payload(node.model(), e),
            },
    {
        match &node.transform.spec {
            Some(s) => if has_par_do_payload(s.urn.as_str()) {
                match decode_par_do(s.payload.as_slice()) {
                    Some(f) => Ok(Some(f)),
                    None => Err(
                        BeamTranslationError::PipelineGraphError(
                            join2("failed to decode ParDoPayload of ", node.id.as_str()),
                        ),
                    ),
                }
            } else {
                Ok(None)
            },
            None => Ok(None),
        }
    }
}

/// Whether the payload of a transform that should have that of a ParDo is one.
pub open spec fn readable(t: TransformV) -> bool {
    t.spec is Some && is_par_do_urn(t.spec->0.urn) ==> par_do_of(t) is Some
}

pub open spec fn refs_names(s: Seq<SideInputRef>) -> Seq<Seq<char>> {
    Seq::new(s.len(), |i: int| s[i].local_name@)
}

pub open spec fn state_names(s: Seq<UserStateRef>) -> Seq<Seq<char>> {
    Seq::new(s.len(), |i: int| s[i].local_name@)
}

pub open spec fn timer_names(s: Seq<TimerRef>) -> Seq<Seq<char>> {
    Seq::new(s.len(), |i: int| s[i].local_name@)
}

/// The stages of a pipeline: those of the workers and those of the runner.
#[derive(Debug)]
pub struct FusedPipeline {
    pub sdk_stages: Vec<ExecutableStage>,
    pub runner_stages: Vec<PTransformNode>,
}

impl FusedPipeline {
    pub fn of(sdk_stages: Vec<ExecutableStage>, runner_stages: Vec<PTransformNode>) -> (r:
        FusedPipeline)
        ensures
            r.sdk_stages == sdk_stages,
            r.runner_stages == runner_stages,
    {
        FusedPipeline { sdk_stages, runner_stages }
    }

    pub fn sdk_stages(&self) -> (r: &Vec<ExecutableStage>)
        ensures
            *r == self.sdk_stages,
    {
        &self.sdk_stages
    }

    pub fn runner_stages(&self) -> (r: &Vec<PTransformNode>)
        ensures
            *r == self.runner_stages,
    {
        &self.runner_stages
    }
}

} // verus!
