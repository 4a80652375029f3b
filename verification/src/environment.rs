//! Where transforms run.
use crate::coders::wire::copy_range;
use crate::jobservice::artifact::{artifacts_model, ArtifactInformation, ArtifactV};
use crate::named::{copy_texts, texts, NamedMap};
use crate::store::record::same_bytes;
use crate::text::same_text;
use vstd::prelude::*;
use vstd::string::*;

verus! {

/// What is shown of an environment.
#[derive(Debug, Clone)]
pub struct DisplayData {
    pub urn: String,
    pub payload: Vec<u8>,
}

#[verifier::ext_equal]
pub struct DisplayV {
    pub urn: Seq<char>,
    pub payload: Seq<u8>,
}

/// Where a transform runs.
#[derive(Debug, Clone)]
pub struct Environment {
    pub urn: String,
    pub payload: Vec<u8>,
    pub display_data: Vec<DisplayData>,
    pub capabilities: Vec<String>,
    pub dependencies: Vec<ArtifactInformation>,
    pub resource_hints: ResourceHints,
}

#[verifier::ext_equal]
pub struct EnvironmentV {
    pub urn: Seq<char>,
    pub payload: Seq<u8>,
    pub display_data: Seq<DisplayV>,
    pub capabilities: Seq<Seq<char>>,
    pub dependencies: Seq<ArtifactV>,
    pub resource_hints: Map<Seq<char>, Seq<u8>>,
}

/// The resources that an environment asks for, by their names.
#[derive(Debug)]
pub struct ResourceHints {
    pub(crate) hints: NamedMap<Vec<u8>>,
}

/// Whether every name of the first map stands in the second for the same bytes.
spec fn is_part(a: Map<Seq<char>, Seq<u8>>, b: Map<Seq<char>, Seq<u8>>) -> bool {
    forall|k: Seq<char>| #[trigger] a.contains_key(k) ==> b.contains_key(k) && b[k] == a[k]
}

spec fn bytes_map(m: NamedMap<Vec<u8>>) -> Map<Seq<char>, Seq<u8>> {
    m@.map_values(|v: Vec<u8>| v@)
}

fn is_part_of(a: &NamedMap<Vec<u8>>, b: &NamedMap<Vec<u8>>) -> (r: bool)
    requires
        a.wf(),
        b.wf(),
    ensures
        r == is_part(bytes_map(*a), bytes_map(*b)),
{
    let n: usize = a.entries.len();
    let mut i: usize = 0;
    while i < n
        invariant
            n == a.entries@.len(),
            i <= n,
            a.wf(),
            b.wf(),
            forall|j: int|
                0 <= j < i ==> bytes_map(*b).contains_key((#[trigger] a.entries@[j]).0@)
                    && bytes_map(*b)[a.entries@[j].0@] == a.entries@[j].1@,
        decreases n - i,
    {
        proof {
            a.entry_at(i as int);
            assert(bytes_map(*a).contains_key(a.entries@[i as int].0@));
        }
        let found = match b.get(a.entries[i].0.as_str()) {
            Some(v) => same_bytes(v, &a.entries[i].1),
            None => false,
        };
        if !found {
            return false;
        }
        i = i + 1;
    }
    proof {
        assert forall|k: Seq<char>| #[trigger] bytes_map(*a).contains_key(k) implies bytes_map(
            *b,
        ).contains_key(k) && bytes_map(*b)[k] == bytes_map(*a)[k] by {
            let j = a.has_entry(k);
            assert(a.entries@[j].0@ == k);
        }
    }
    true
}

impl ResourceHints {
    /// No name stands twice.
    #[verifier::type_invariant]
    spec fn are_distinct(self) -> bool {
        self.hints.wf()
    }

    pub closed spec fn model(self) -> Map<Seq<char>, Seq<u8>> {
        bytes_map(self.hints)
    }

    pub fn new() -> (r: ResourceHints)
        ensures
            r.model() == Map::<Seq<char>, Seq<u8>>::empty(),
    {
        let r = ResourceHints { hints: NamedMap::new() };
        assert(r.model() =~= Map::<Seq<char>, Seq<u8>>::empty());
        r
    }

    /// Asks for a resource.
    pub fn insert(&mut self, name: String, value: Vec<u8>)
        ensures
            final(self).model() == old(self).model().insert(name@, value@),
    {
        proof {
            use_type_invariant(&*self);
        }
        let ghost before = self.model();
        let mut hints: NamedMap<Vec<u8>> = NamedMap::new();
        std::mem::swap(&mut hints, &mut self.hints);
        let _ = hints.insert(name, value);
        self.hints = hints;
        assert(self.model() =~= before.insert(name@, value@));
    }

    /// The names and what they stand for.
    pub fn entries(&self) -> (r: &Vec<(String, Vec<u8>)>)
        ensures
            forall|i: int|
                0 <= i < r@.len() ==> self.model().contains_key((#[trigger] r@[i]).0@)
                    && self.model()[r@[i].0@] == r@[i].1@,
            forall|k: Seq<char>| #[trigger]
                self.model().contains_key(k) ==> exists|i: int|
                    0 <= i < r@.len() && (#[trigger] r@[i]).0@ == k,
    {
        proof {
            use_type_invariant(self);
            assert forall|i: int| 0 <= i < self.hints.entries@.len() implies self.model().contains_key(
                (#[trigger] self.hints.entries@[i]).0@,
            ) && self.model()[self.hints.entries@[i].0@] == self.hints.entries@[i].1@ by {
                self.hints.entry_at(i);
            }
            assert forall|k: Seq<char>| #[trigger] self.model().contains_key(k) implies exists|
                i: int,
            |
                0 <= i < self.hints.entries@.len() && (#[trigger] self.hints.entries@[i]).0@
                    == k by {
                let i = self.hints.has_entry(k);
                assert(self.hints.entries@[i].0@ == k);
            }
        }
        &self.hints.entries
    }

    pub fn duplicate(&self) -> (r: ResourceHints)
        ensures
            r.model() == self.model(),
    {
        proof {
            use_type_invariant(self);
        }
        let n: usize = self.hints.entries.len();
        let mut hints: NamedMap<Vec<u8>> = NamedMap { entries: Vec::new() };
        let mut i: usize = 0;
        while i < n
            invariant
                n == self.hints.entries@.len(),
                i <= n,
                hints.entries@.len() == i,
                forall|j: int|
                    0 <= j < i ==> (#[trigger] hints.entries@[j]).0@ == self.hints.entries@[j].0@
                        && hints.entries@[j].1@ == self.hints.entries@[j].1@,
            decreases n - i,
        {
            let value: &Vec<u8> = &self.hints.entries[i].1;
            hints.entries.push((self.hints.entries[i].0.clone(), copy_range(value, 0, value.len())));
            assert(self.hints.entries@[i as int].1@.subrange(
                0,
                self.hints.entries@[i as int].1@.len() as int,
            ) =~= self.hints.entries@[i as int].1@);
            i = i + 1;
        }
        proof {
            crate::model::same_models(hints, self.hints, |v: Vec<u8>| v@);
        }
        ResourceHints { hints }
    }

    /// Whether both ask for the same.
    pub fn same(&self, other: &ResourceHints) -> (r: bool)
        ensures
            r == (self.model() == other.model()),
    {
        proof {
            use_type_invariant(self);
            use_type_invariant(other);
        }
        let r: bool = is_part_of(&self.hints, &other.hints) && is_part_of(&other.hints, &self.hints);
        proof {
            let a = self.model();
            let b = other.model();
            if r {
                assert forall|k: Seq<char>| a.contains_key(k) == b.contains_key(k) by {}
                assert(a =~= b);
            }
        }
        r
    }
}

impl Clone for ResourceHints {
    fn clone(&self) -> (r: ResourceHints)
        ensures
            r.model() == self.model(),
    {
        self.duplicate()
    }
}

impl DisplayData {
    pub open spec fn model(self) -> DisplayV {
        DisplayV { urn: self.urn@, payload: self.payload@ }
    }
}

pub open spec fn displays_model(s: Seq<DisplayData>) -> Seq<DisplayV> {
    Seq::new(s.len(), |i: int| s[i].model())
}

fn duplicate_displays(v: &Vec<DisplayData>) -> (r: Vec<DisplayData>)
    ensures
        displays_model(r@) == displays_model(v@),
{
    let n: usize = v.len();
    let mut out: Vec<DisplayData> = Vec::new();
    let mut i: usize = 0;
    while i < n
        invariant
            n == v@.len(),
            i <= n,
            out@.len() == i,
            forall|j: int| 0 <= j < i ==> (#[trigger] out@[j]).model() == v@[j].model(),
        decreases n - i,
    {
        let d = DisplayData {
            urn: v[i].urn.clone(),
            payload: copy_range(&v[i].payload, 0, v[i].payload.len()),
        };
        assert(d.payload@ =~= v@[i as int].payload@);
        out.push(d);
        i = i + 1;
    }
    assert(displays_model(out@) =~= displays_model(v@));
    out
}

fn same_displays(a: &Vec<DisplayData>, b: &Vec<DisplayData>) -> (r: bool)
    ensures
        r == (displays_model(a@) == displays_model(b@)),
{
    if a.len() != b.len() {
        assert(displays_model(a@).len() != displays_model(b@).len());
        return false;
    }
    let n: usize = a.len();
    let mut i: usize = 0;
    while i < n
        invariant
            n == a@.len(),
            n == b@.len(),
            i <= n,
            forall|j: int| 0 <= j < i ==> (#[trigger] a@[j]).model() == b@[j].model(),
        decreases n - i,
    {
        if !(same_text(a[i].urn.as_str(), b[i].urn.as_str()) && same_bytes(
            &a[i].payload,
            &b[i].payload,
        )) {
            assert(displays_model(a@)[i as int] != displays_model(b@)[i as int]);
            return false;
        }
        i = i + 1;
    }
    assert(displays_model(a@) =~= displays_model(b@));
    true
}

fn duplicate_artifacts(v: &Vec<ArtifactInformation>) -> (r: Vec<ArtifactInformation>)
    ensures
        artifacts_model(r@) == artifacts_model(v@),
{
    let n: usize = v.len();
    let mut out: Vec<ArtifactInformation> = Vec::new();
    let mut i: usize = 0;
    while i < n
        invariant
            n == v@.len(),
            i <= n,
            out@.len() == i,
            forall|j: int| 0 <= j < i ==> (#[trigger] out@[j]).model() == v@[j].model(),
        decreases n - i,
    {
        out.push(v[i].duplicate());
        i = i + 1;
    }
    assert(artifacts_model(out@) =~= artifacts_model(v@));
    out
}

fn same_artifacts(a: &Vec<ArtifactInformation>, b: &Vec<ArtifactInformation>) -> (r: bool)
    ensures
        r == (artifacts_model(a@) == artifacts_model(b@)),
{
    if a.len() != b.len() {
        assert(artifacts_model(a@).len() != artifacts_model(b@).len());
        return false;
    }
    let n: usize = a.len();
    let mut i: usize = 0;
    while i < n
        invariant
            n == a@.len(),
            n == b@.len(),
            i <= n,
            forall|j: int| 0 <= j < i ==> (#[trigger] a@[j]).model() == b@[j].model(),
        decreases n - i,
    {
        if !(same_text(a[i].type_urn.as_str(), b[i].type_urn.as_str()) && same_bytes(
            &a[i].type_payload,
            &b[i].type_payload,
        ) && same_text(a[i].role_urn.as_str(), b[i].role_urn.as_str()) && same_bytes(
            &a[i].role_payload,
            &b[i].role_payload,
        )) {
            assert(artifacts_model(a@)[i as int] != artifacts_model(b@)[i as int]);
            return false;
        }
        i = i + 1;
    }
    assert(artifacts_model(a@) =~= artifacts_model(b@));
    true
}

fn same_texts(a: &Vec<String>, b: &Vec<String>) -> (r: bool)
    ensures
        r == (texts(a@) == texts(b@)),
{
    if a.len() != b.len() {
        assert(texts(a@).len() != texts(b@).len());
        return false;
    }
    let n: usize = a.len();
    let mut i: usize = 0;
    while i < n
        invariant
            n == a@.len(),
            n == b@.len(),
            i <= n,
            forall|j: int| 0 <= j < i ==> (#[trigger] a@[j])@ == b@[j]@,
        decreases n - i,
    {
        if !same_text(a[i].as_str(), b[i].as_str()) {
            assert(texts(a@)[i as int] != texts(b@)[i as int]);
            return false;
        }
        i = i + 1;
    }
    assert(texts(a@) =~= texts(b@));
    true
}

impl Environment {
    pub open spec fn model(self) -> EnvironmentV {
        EnvironmentV {
            urn: self.urn@,
            payload: self.payload@,
            display_data: displays_model(self.display_data@),
            capabilities: texts(self.capabilities@),
            dependencies: artifacts_model(self.dependencies@),
            resource_hints: self.resource_hints.model(),
        }
    }

    /// An environment of which nothing more is said.
    pub fn new(urn: String, payload: Vec<u8>) -> (r: Environment)
        ensures
            r.urn == urn,
            r.payload == payload,
            r.display_data@.len() == 0,
            r.capabilities@.len() == 0,
            r.dependencies@.len() == 0,
            r.resource_hints.model() == Map::<Seq<char>, Seq<u8>>::empty(),
    {
        Environment {
            urn,
            payload,
            display_data: Vec::new(),
            capabilities: Vec::new(),
            dependencies: Vec::new(),
            resource_hints: ResourceHints::new(),
        }
    }

    pub fn duplicate(&self) -> (r: Environment)
        ensures
            r.model() == self.model(),
    {
        let r = Environment {
            urn: self.urn.clone(),
            payload: copy_range(&self.payload, 0, self.payload.len()),
            display_data: duplicate_displays(&self.display_data),
            capabilities: copy_texts(&self.capabilities),
            dependencies: duplicate_artifacts(&self.dependencies),
            resource_hints: self.resource_hints.duplicate(),
        };
        assert(r.payload@ =~= self.payload@);
        r
    }

    /// Whether the two are the same in all their parts.
    pub fn same(&self, other: &Environment) -> (r: bool)
        ensures
            r == (self.model() == other.model()),
    {
        same_text(self.urn.as_str(), other.urn.as_str()) && same_bytes(
            &self.payload,
            &other.payload,
        ) && same_displays(&self.display_data, &other.display_data) && same_texts(
            &self.capabilities,
            &other.capabilities,
        ) && same_artifacts(&self.dependencies, &other.dependencies) && self.resource_hints.same(
            &other.resource_hints,
        )
    }
}

} // verus!
