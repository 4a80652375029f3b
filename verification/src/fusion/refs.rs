//! References of a transform to what it reads besides its main input.
use crate::model::{ComponentsV, NodeV, PCollectionNode, PTransformNode, PcolV};
use vstd::prelude::*;

verus! {

/// A side input: the transform, its local name, and the collection.
#[derive(Debug, Clone)]
pub struct SideInputRef {
    pub transform: PTransformNode,
    pub local_name: String,
    pub collection: PCollectionNode,
}

/// A state of a transform.
#[derive(Debug, Clone)]
pub struct UserStateRef {
    pub transform: PTransformNode,
    pub local_name: String,
}

/// A timer family of a transform.
#[derive(Debug, Clone)]
pub struct TimerRef {
    pub transform: PTransformNode,
    pub local_name: String,
}

impl SideInputRef {
    pub open spec fn wf(self) -> bool {
        self.transform.wf()
    }

    /// Whether this is a side input of the transform, to a collection of the
    /// pipeline.
    pub open spec fn points_at(self, c: ComponentsV, node: NodeV) -> bool {
        &&& self.transform.model() == node
        &&& node.transform.inputs.contains_key(self.local_name@)
        &&& self.collection.id@ == node.transform.inputs[self.local_name@]
        &&& c.pcollections.contains_key(self.collection.id@)
        &&& self.collection.collection.model() == c.pcollections[self.collection.id@]
    }

    pub fn collection(&self) -> (r: &PCollectionNode)
        ensures
            *r == self.collection,
    {
        &self.collection
    }
}

impl TimerRef {
    pub fn transform(&self) -> (r: &PTransformNode)
        ensures
            *r == self.transform,
    {
        &self.transform
    }

    pub fn local_name(&self) -> (r: &str)
        ensures
            r@ == self.local_name@,
    {
        self.local_name.as_str()
    }
}

/// What a side input is.
#[verifier::ext_equal]
pub struct SideInputV {
    pub transform: NodeV,
    pub local_name: Seq<char>,
    pub collection: PcolV,
}

/// What a state or a timer is.
#[verifier::ext_equal]
pub struct NameV {
    pub transform: NodeV,
    pub local_name: Seq<char>,
}

impl SideInputRef {
    pub open spec fn model(self) -> SideInputV {
        SideInputV {
            transform: self.transform.model(),
            local_name: self.local_name@,
            collection: self.collection.model(),
        }
    }

    pub fn duplicate(&self) -> (r: SideInputRef)
        requires
            self.wf(),
        ensures
            r.wf(),
            r.model() == self.model(),
    {
        SideInputRef {
            transform: self.transform.duplicate(),
            local_name: self.local_name.clone(),
            collection: self.collection.duplicate(),
        }
    }
}

impl UserStateRef {
    pub open spec fn model(self) -> NameV {
        NameV { transform: self.transform.model(), local_name: self.local_name@ }
    }

    pub fn duplicate(&self) -> (r: UserStateRef)
        requires
            self.transform.wf(),
        ensures
            r.transform.wf(),
            r.model() == self.model(),
    {
        UserStateRef {
            transform: self.transform.duplicate(),
            local_name: self.local_name.clone(),
        }
    }
}

impl TimerRef {
    pub open spec fn model(self) -> NameV {
        NameV { transform: self.transform.model(), local_name: self.local_name@ }
    }

    pub fn duplicate(&self) -> (r: TimerRef)
        requires
            self.transform.wf(),
        ensures
            r.transform.wf(),
            r.model() == self.model(),
    {
        TimerRef {
            transform: self.transform.duplicate(),
            local_name: self.local_name.clone(),
        }
    }
}

pub open spec fn side_inputs_model(s: Seq<SideInputRef>) -> Seq<SideInputV> {
    Seq::new(s.len(), |i: int| s[i].model())
}

pub fn duplicate_side_inputs(v: &Vec<SideInputRef>) -> (r: Vec<SideInputRef>)
    requires
        forall|i: int| 0 <= i < v@.len() ==> (#[trigger] v@[i]).wf(),
    ensures
        side_inputs_model(r@) == side_inputs_model(v@),
        forall|i: int| 0 <= i < r@.len() ==> (#[trigger] r@[i]).wf(),
{
    let n: usize = v.len();
    let mut out: Vec<SideInputRef> = Vec::new();
    let mut i: usize = 0;
    while i < n
        invariant
            n == v@.len(),
            i <= n,
            out@.len() == i,
            forall|k: int| 0 <= k < v@.len() ==> (#[trigger] v@[k]).wf(),
            forall|k: int| 0 <= k < out@.len() ==> (#[trigger] out@[k]).wf(),
            forall|k: int| 0 <= k < i ==> (#[trigger] out@[k]).model() == v@[k].model(),
        decreases n - i,
    {
        out.push(v[i].duplicate());
        i = i + 1;
    }
    assert(side_inputs_model(out@) =~= side_inputs_model(v@));
    out
}

pub open spec fn states_model(s: Seq<UserStateRef>) -> Seq<NameV> {
    Seq::new(s.len(), |i: int| s[i].model())
}

pub fn duplicate_states(v: &Vec<UserStateRef>) -> (r: Vec<UserStateRef>)
    requires
        forall|i: int| 0 <= i < v@.len() ==> (#[trigger] v@[i]).transform.wf(),
    ensures
        states_model(r@) == states_model(v@),
        forall|i: int| 0 <= i < r@.len() ==> (#[trigger] r@[i]).transform.wf(),
{
    let n: usize = v.len();
    let mut out: Vec<UserStateRef> = Vec::new();
    let mut i: usize = 0;
    while i < n
        invariant
            n == v@.len(),
            i <= n,
            out@.len() == i,
            forall|k: int| 0 <= k < v@.len() ==> (#[trigger] v@[k]).transform.wf(),
            forall|k: int| 0 <= k < out@.len() ==> (#[trigger] out@[k]).transform.wf(),
            forall|k: int| 0 <= k < i ==> (#[trigger] out@[k]).model() == v@[k].model(),
        decreases n - i,
    {
        out.push(v[i].duplicate());
        i = i + 1;
    }
    assert(states_model(out@) =~= states_model(v@));
    out
}

pub open spec fn timers_model(s: Seq<TimerRef>) -> Seq<NameV> {
    Seq::new(s.len(), |i: int| s[i].model())
}

pub fn duplicate_timers(v: &Vec<TimerRef>) -> (r: Vec<TimerRef>)
    requires
        forall|i: int| 0 <= i < v@.len() ==> (#[trigger] v@[i]).transform.wf(),
    ensures
        timers_model(r@) == timers_model(v@),
        forall|i: int| 0 <= i < r@.len() ==> (#[trigger] r@[i]).transform.wf(),
{
    let n: usize = v.len();
    let mut out: Vec<TimerRef> = Vec::new();
    let mut i: usize = 0;
    while i < n
        invariant
            n == v@.len(),
            i <= n,
            out@.len() == i,
            forall|k: int| 0 <= k < v@.len() ==> (#[trigger] v@[k]).transform.wf(),
            forall|k: int| 0 <= k < out@.len() ==> (#[trigger] out@[k]).transform.wf(),
            forall|k: int| 0 <= k < i ==> (#[trigger] out@[k]).model() == v@[k].model(),
        decreases n - i,
    {
        out.push(v[i].duplicate());
        i = i + 1;
    }
    assert(timers_model(out@) =~= timers_model(v@));
    out
}

} // verus!
