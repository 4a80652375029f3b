//! Stages without inputs that lead nowhere.
use crate::fusion::stage::{map_of_nodes, nodes_by_id, pcol_ids, ExecutableStage};
use crate::model::{
    nodes_wf, pcollection_map, text_map, Components, ComponentsV, PCollection, PTransform,
    PTransformNode, TransformV,
};
use crate::named::{has_text, texts, NamedMap};
use vstd::prelude::*;
use vstd::string::*;

verus! {

/// Whether a transform of the stage puts elements into the collection.
pub open spec fn made_inside(s: ExecutableStage, p: Seq<char>) -> bool {
    exists|i: int, n: Seq<char>|
        0 <= i < s.transforms@.len() && #[trigger] s.transforms@[i].transform.model().outputs
            .contains_key(n) && s.transforms@[i].transform.model().outputs[n] == p
}

/// Whether the collection is one of the timers of the stage.
pub open spec fn is_timer_input(s: ExecutableStage, p: Seq<char>) -> bool {
    exists|i: int|
        0 <= i < s.timers@.len() && (#[trigger] s.timers@[i]).transform.transform.model().inputs
            .contains_key(s.timers@[i].local_name@)
            && s.timers@[i].transform.transform.model().inputs[s.timers@[i].local_name@] == p
}

/// Whether a transform of the stage can take the collection: it is the input of the
/// stage, one of its outputs, a side input, a timer, or made inside.
pub open spec fn can_be_taken(s: ExecutableStage, p: Seq<char>) -> bool {
    ||| s.input_pcol.id@ == p
    ||| pcol_ids(s.output_pcols@).contains(p)
    ||| exists|i: int|
        0 <= i < s.side_inputs@.len() && (#[trigger] s.side_inputs@[i]).collection.id@ == p
    ||| is_timer_input(s, p)
    ||| made_inside(s, p)
}

/// Whether some transform of the stage takes the collection.
pub open spec fn is_taken(s: ExecutableStage, p: Seq<char>) -> bool {
    exists|i: int, n: Seq<char>|
        0 <= i < s.transforms@.len() && #[trigger] s.transforms@[i].transform.model().inputs
            .contains_key(n) && s.transforms@[i].transform.model().inputs[n] == p
}

/// Whether the collection is taken though it cannot be.
pub open spec fn is_dangling(s: ExecutableStage, p: Seq<char>) -> bool {
    is_taken(s, p) && !can_be_taken(s, p)
}

/// A transform without its dangling inputs.
pub open spec fn without_dangling(s: ExecutableStage, t: TransformV) -> TransformV {
    TransformV {
        inputs: t.inputs.restrict(
            t.inputs.dom().filter(|n: Seq<char>| !is_dangling(s, t.inputs[n])),
        ),
        ..t
    }
}

/// Whether `r` is the stage without dangling inputs: the stage itself where there
/// are none; else one with the same parts but for the inputs of its transforms, and
/// with components that hold these transforms and no dangling collection.
pub open spec fn sanitized(s: ExecutableStage, r: ExecutableStage) -> bool {
    if forall|p: Seq<char>| !is_dangling(s, p) {
        r == s
    } else {
        &&& r.environment == s.environment
        &&& r.wire_coder == s.wire_coder
        &&& r.input_pcol == s.input_pcol
        &&& r.side_inputs == s.side_inputs
        &&& r.user_states == s.user_states
        &&& r.timers == s.timers
        &&& r.output_pcols == s.output_pcols
        &&& r.transforms@.len() == s.transforms@.len()
        &&& forall|i: int|
            0 <= i < s.transforms@.len() ==> (#[trigger] r.transforms@[i]).id@
                == s.transforms@[i].id@ && r.transforms@[i].transform.model() == without_dangling(
                s,
                s.transforms@[i].transform.model(),
            )
        &&& r.components.model() == ComponentsV {
            transforms: map_of_nodes(r.transforms@),
            pcollections: s.components.model().pcollections.restrict(
                s.components.model().pcollections.dom().filter(
                    |p: Seq<char>| !is_dangling(s, p),
                ),
            ),
            ..s.components.model()
        }
    }
}

/// After sanitizing nothing dangles.
pub proof fn sanitized_has_no_dangling(s: ExecutableStage, r: ExecutableStage, p: Seq<char>)
    requires
        sanitized(s, r),
    ensures
        !is_dangling(r, p),
{
    if exists|q: Seq<char>| is_dangling(s, q) {
        assert(made_inside(r, p) == made_inside(s, p)) by {
            if made_inside(r, p) {
                let (i, n) = choose|i: int, n: Seq<char>|
                    0 <= i < r.transforms@.len() && #[trigger] r.transforms@[i].transform.model()
                        .outputs.contains_key(n) && r.transforms@[i].transform.model().outputs[n]
                        == p;
                assert(s.transforms@[i].transform.model().outputs.contains_key(n));
            }
            if made_inside(s, p) {
                let (i, n) = choose|i: int, n: Seq<char>|
                    0 <= i < s.transforms@.len() && #[trigger] s.transforms@[i].transform.model()
                        .outputs.contains_key(n) && s.transforms@[i].transform.model().outputs[n]
                        == p;
                assert(r.transforms@[i].transform.model().outputs.contains_key(n));
            }
        }
        assert(is_timer_input(r, p) == is_timer_input(s, p));
        assert(can_be_taken(r, p) == can_be_taken(s, p));
        if is_dangling(r, p) {
            let (i, n) = choose|i: int, n: Seq<char>|
                0 <= i < r.transforms@.len() && #[trigger] r.transforms@[i].transform.model()
                    .inputs.contains_key(n) && r.transforms@[i].transform.model().inputs[n] == p;
            let t = s.transforms@[i].transform.model();
            assert(r.transforms@[i].transform.model() == without_dangling(s, t));
            assert(t.inputs.contains_key(n));
            assert(is_taken(s, p));
        }
    }
}

/// Sanitizing once is enough.
pub proof fn sanitizing_is_idempotent(
    s: ExecutableStage,
    r: ExecutableStage,
    again: ExecutableStage,
)
    requires
        sanitized(s, r),
        sanitized(r, again),
    ensures
        again == r,
{
    assert forall|p: Seq<char>| !is_dangling(r, p) by {
        sanitized_has_no_dangling(s, r, p);
    }
}

/// The collections that the transforms of the stage can take.
fn takeable(s: &ExecutableStage) -> (r: Vec<String>)
    requires
        s.wf(),
    ensures
        forall|p: Seq<char>| #[trigger] texts(r@).contains(p) <==> can_be_taken(*s, p),
{
    let mut out: Vec<String> = Vec::new();
    push_text(&mut out, s.input_pcol.id.as_str());
    let ghost o1 = texts(out@);
    assert forall|p: Seq<char>| #[trigger] o1.contains(p) <==> s.input_pcol.id@ == p by {
        assert(!texts(Seq::<String>::empty()).contains(p));
    }
    let n: usize = s.output_pcols.len();
    let mut i: usize = 0;
    while i < n
        invariant
            n == s.output_pcols@.len(),
            i <= n,
            forall|p: Seq<char>|
                #[trigger]
                texts(out@).contains(p) <==> o1.contains(p) || pcol_ids(s.output_pcols@).take(
                    i as int,
                ).contains(p),
        decreases n - i,
    {
        let ghost ids = pcol_ids(s.output_pcols@);
        push_text(&mut out, s.output_pcols[i].id.as_str());
        proof {
            taken_one_more(ids, i as int);
        }
        i = i + 1;
    }
    proof {
        assert(pcol_ids(s.output_pcols@).take(n as int) =~= pcol_ids(s.output_pcols@));
    }
    let ghost o2 = texts(out@);
    let n: usize = s.side_inputs.len();
    let mut i: usize = 0;
    while i < n
        invariant
            n == s.side_inputs@.len(),
            i <= n,
            forall|p: Seq<char>|
                #[trigger]
                texts(out@).contains(p) <==> o2.contains(p) || exists|j: int|
                    0 <= j < i && (#[trigger] s.side_inputs@[j]).collection.id@ == p,
        decreases n - i,
    {
        let ghost before = texts(out@);
        push_text(&mut out, s.side_inputs[i].collection.id.as_str());
        proof {
            assert forall|p: Seq<char>|
                #[trigger]
                texts(out@).contains(p) <==> o2.contains(p) || exists|j: int|
                    0 <= j < i + 1 && (#[trigger] s.side_inputs@[j]).collection.id@ == p by {
                if texts(out@).contains(p) && !before.contains(p) {
                    assert(s.side_inputs@[i as int].collection.id@ == p);
                }
                if before.contains(p) && !o2.contains(p) {
                    let j = choose|j: int|
                        0 <= j < i && (#[trigger] s.side_inputs@[j]).collection.id@ == p;
                    assert(s.side_inputs@[j].collection.id@ == p);
                }
                if exists|j: int|
                    0 <= j < i + 1 && (#[trigger] s.side_inputs@[j]).collection.id@ == p {
                    let j = choose|j: int|
                        0 <= j < i + 1 && (#[trigger] s.side_inputs@[j]).collection.id@ == p;
                    if j < i {
                        assert(before.contains(p));
                    }
                }
            }
        }
        i = i + 1;
    }
    let ghost o3 = texts(out@);
    let n: usize = s.timers.len();
    let mut i: usize = 0;
    while i < n
        invariant
            s.wf(),
            n == s.timers@.len(),
            i <= n,
            forall|p: Seq<char>|
                #[trigger]
                texts(out@).contains(p) <==> o3.contains(p) || exists|j: int|
                    0 <= j < i && (
                    #[trigger] s.timers@[j]).transform.transform.model().inputs.contains_key(
                        s.timers@[j].local_name@,
                    )
                        && s.timers@[j].transform.transform.model().inputs[s.timers@[j].local_name@]
                        == p,
        decreases n - i,
    {
        let ghost before = texts(out@);
        let timer = &s.timers[i];
        assert(timer.transform.wf());
        match timer.transform.transform.inputs.get(timer.local_name.as_str()) {
            Some(id) => {
                push_text(&mut out, id.as_str());
            },
            None => {},
        }
        proof {
            let t = timer.transform.transform.model();
            assert forall|p: Seq<char>|
                #[trigger]
                texts(out@).contains(p) <==> o3.contains(p) || exists|j: int|
                    0 <= j < i + 1 && (
                    #[trigger] s.timers@[j]).transform.transform.model().inputs.contains_key(
                        s.timers@[j].local_name@,
                    )
                        && s.timers@[j].transform.transform.model().inputs[s.timers@[j].local_name@]
                        == p by {
                if texts(out@).contains(p) && !before.contains(p) {
                    assert(s.timers@[i as int].transform.transform.model().inputs.contains_key(
                        s.timers@[i as int].local_name@,
                    ));
                }
                if before.contains(p) && !o3.contains(p) {
                    let j = choose|j: int|
                        0 <= j < i && (
                        #[trigger] s.timers@[j]).transform.transform.model().inputs.contains_key(
                            s.timers@[j].local_name@,
                        )
                            && s.timers@[j].transform.transform.model()
                            .inputs[s.timers@[j].local_name@] == p;
                    let x = s.timers@[j];
                }
                if exists|j: int|
                    0 <= j < i + 1 && (
                    #[trigger] s.timers@[j]).transform.transform.model().inputs.contains_key(
                        s.timers@[j].local_name@,
                    )
                        && s.timers@[j].transform.transform.model().inputs[s.timers@[j].local_name@]
                        == p {
                    let j = choose|j: int|
                        0 <= j < i + 1 && (
                        #[trigger] s.timers@[j]).transform.transform.model().inputs.contains_key(
                            s.timers@[j].local_name@,
                        )
                            && s.timers@[j].transform.transform.model()
                            .inputs[s.timers@[j].local_name@] == p;
                    if j < i {
                        assert(before.contains(p));
                    }
                }
            }
        }
        i = i + 1;
    }
    let ghost o4 = texts(out@);
    let n: usize = s.transforms.len();
    let mut i: usize = 0;
    while i < n
        invariant
            s.wf(),
            n == s.transforms@.len(),
            i <= n,
            forall|p: Seq<char>|
                #[trigger]
                texts(out@).contains(p) <==> o4.contains(p) || exists|j: int, m: Seq<char>|
                    0 <= j < i && #[trigger] s.transforms@[j].transform.model().outputs.contains_key(
                        m,
                    ) && s.transforms@[j].transform.model().outputs[m] == p,
        decreases n - i,
    {
        let ghost before = texts(out@);
        assert(s.transforms@[i as int].wf());
        push_values(&mut out, &s.transforms[i].transform.outputs);
        proof {
            let t = s.transforms@[i as int].transform.model();
            assert forall|p: Seq<char>|
                #[trigger]
                texts(out@).contains(p) <==> o4.contains(p) || exists|j: int, m: Seq<char>|
                    0 <= j < i + 1
                        && #[trigger] s.transforms@[j].transform.model().outputs.contains_key(m)
                        && s.transforms@[j].transform.model().outputs[m] == p by {
                if texts(out@).contains(p) && !before.contains(p) {
                    let m = choose|m: Seq<char>|
                        #[trigger]
                        t.outputs.contains_key(m) && t.outputs[m] == p;
                    assert(s.transforms@[i as int].transform.model().outputs.contains_key(m));
                }
                if before.contains(p) && !o4.contains(p) {
                    let (j, m) = choose|j: int, m: Seq<char>|
                        0 <= j < i && #[trigger] s.transforms@[j].transform.model().outputs
                            .contains_key(m) && s.transforms@[j].transform.model().outputs[m] == p;
                    assert(s.transforms@[j].transform.model().outputs.contains_key(m));
                }
                if exists|j: int, m: Seq<char>|
                    0 <= j < i + 1
                        && #[trigger] s.transforms@[j].transform.model().outputs.contains_key(m)
                        && s.transforms@[j].transform.model().outputs[m] == p {
                    let (j, m) = choose|j: int, m: Seq<char>|
                        0 <= j < i + 1 && #[trigger] s.transforms@[j].transform.model().outputs
                            .contains_key(m) && s.transforms@[j].transform.model().outputs[m] == p;
                    if j < i {
                        assert(before.contains(p));
                    } else {
                        assert(t.outputs.contains_key(m));
                    }
                }
            }
        }
        i = i + 1;
    }
    out
}

pub proof fn taken_one_more(ids: Seq<Seq<char>>, i: int)
    requires
        0 <= i < ids.len(),
    ensures
        forall|p: Seq<char>|
            #[trigger]
            ids.take(i + 1).contains(p) <==> ids.take(i).contains(p) || p == ids[i],
{
    assert forall|p: Seq<char>|
        #[trigger]
        ids.take(i + 1).contains(p) <==> ids.take(i).contains(p) || p == ids[i] by {
        if ids.take(i + 1).contains(p) {
            let longer = ids.take(i + 1);
            let j = choose|j: int| 0 <= j < longer.len() && longer[j] == p;
            if j < i {
                assert(ids.take(i)[j] == p);
            }
        }
        if ids.take(i).contains(p) {
            let j = choose|j: int| 0 <= j < ids.take(i).len() && ids.take(i)[j] == p;
            assert(ids.take(i + 1)[j] == p);
        }
        if p == ids[i] {
            assert(ids.take(i + 1)[i] == p);
        }
    }
}

/// Adds a text.
fn push_text(out: &mut Vec<String>, id: &str)
    ensures
        forall|p: Seq<char>|
            #[trigger]
            texts(final(out)@).contains(p) <==> texts(old(out)@).contains(p) || p == id@,
{
    let ghost before = out@;
    out.push(id.to_owned());
    proof {
        assert(out@.drop_last() =~= before);
        crate::fusion::pipeline::texts_pushed(before, out@);
    }
}

/// Adds the values of a map.
fn push_values(out: &mut Vec<String>, m: &NamedMap<String>)
    requires
        m.wf(),
    ensures
        forall|p: Seq<char>|
            #[trigger]
            texts(final(out)@).contains(p) <==> texts(old(out)@).contains(p) || exists|
                k: Seq<char>,
            |
                #[trigger]
                text_map(*m).contains_key(k) && text_map(*m)[k] == p,
{
    let ghost o0 = texts(out@);
    let n: usize = m.entries.len();
    let mut i: usize = 0;
    while i < n
        invariant
            n == m.entries@.len(),
            i <= n,
            forall|p: Seq<char>|
                #[trigger]
                texts(out@).contains(p) <==> o0.contains(p) || exists|j: int|
                    0 <= j < i && (#[trigger] m.entries@[j]).1@ == p,
        decreases n - i,
    {
        let ghost before = texts(out@);
        push_text(out, m.entries[i].1.as_str());
        proof {
            assert forall|p: Seq<char>|
                #[trigger]
                texts(out@).contains(p) <==> o0.contains(p) || exists|j: int|
                    0 <= j < i + 1 && (#[trigger] m.entries@[j]).1@ == p by {
                if texts(out@).contains(p) && !before.contains(p) {
                    assert(m.entries@[i as int].1@ == p);
                }
                if before.contains(p) && !o0.contains(p) {
                    let j = choose|j: int| 0 <= j < i && (#[trigger] m.entries@[j]).1@ == p;
                    assert(m.entries@[j].1@ == p);
                }
                if exists|j: int| 0 <= j < i + 1 && (#[trigger] m.entries@[j]).1@ == p {
                    let j = choose|j: int| 0 <= j < i + 1 && (#[trigger] m.entries@[j]).1@ == p;
                    if j < i {
                        assert(before.contains(p));
                    }
                }
            }
        }
        i = i + 1;
    }
    proof {
        assert forall|p: Seq<char>|
            #[trigger]
            texts(out@).contains(p) <==> o0.contains(p) || exists|k: Seq<char>|
                #[trigger]
                text_map(*m).contains_key(k) && text_map(*m)[k] == p by {
            if exists|k: Seq<char>| #[trigger] text_map(*m).contains_key(k) && text_map(*m)[k] == p {
                let k = choose|k: Seq<char>|
                    #[trigger]
                    text_map(*m).contains_key(k) && text_map(*m)[k] == p;
                let j = m.has_entry(k);
                assert(m.entries@[j].1@ == p);
            }
            if texts(out@).contains(p) && !o0.contains(p) {
                let j = choose|j: int| 0 <= j < n && (#[trigger] m.entries@[j]).1@ == p;
                m.entry_at(j);
                assert(text_map(*m).contains_key(m.entries@[j].0@));
            }
        }
    }
}

/// The collections that are taken though they cannot be.
fn dangling_ids(s: &ExecutableStage) -> (r: Vec<String>)
    requires
        s.wf(),
    ensures
        forall|p: Seq<char>| #[trigger] texts(r@).contains(p) <==> is_dangling(*s, p),
{
    let possible: Vec<String> = takeable(s);
    let mut out: Vec<String> = Vec::new();
    let n: usize = s.transforms.len();
    let mut i: usize = 0;
    assert forall|p: Seq<char>| !#[trigger] texts(out@).contains(p) by {
        assert(texts(out@).len() == 0);
    }
    while i < n
        invariant
            s.wf(),
            n == s.transforms@.len(),
            i <= n,
            forall|p: Seq<char>| #[trigger] texts(possible@).contains(p) <==> can_be_taken(*s, p),
            forall|p: Seq<char>|
                #[trigger]
                texts(out@).contains(p) <==> !can_be_taken(*s, p) && exists|j: int, m: Seq<char>|
                    0 <= j < i && #[trigger] s.transforms@[j].transform.model().inputs.contains_key(
                        m,
                    ) && s.transforms@[j].transform.model().inputs[m] == p,
        decreases n - i,
    {
        let ghost before = texts(out@);
        let ghost t = s.transforms@[i as int].transform.model();
        assert(s.transforms@[i as int].wf());
        let mut taken: Vec<String> = Vec::new();
        let ghost none = texts(taken@);
        push_values(&mut taken, &s.transforms[i].transform.inputs);
        assert forall|p: Seq<char>|
            #[trigger]
            texts(taken@).contains(p) <==> exists|k: Seq<char>|
                #[trigger]
                t.inputs.contains_key(k) && t.inputs[k] == p by {
            assert(none.len() == 0);
            assert(!none.contains(p));
            assert(t.inputs == text_map(s.transforms@[i as int].transform.inputs));
        }
        let m: usize = taken.len();
        let mut k: usize = 0;
        while k < m
            invariant
                m == taken@.len(),
                k <= m,
                forall|p: Seq<char>|
                    #[trigger]
                    texts(possible@).contains(p) <==> can_be_taken(*s, p),
                forall|p: Seq<char>|
                    #[trigger]
                    texts(out@).contains(p) <==> before.contains(p) || (!can_be_taken(*s, p)
                        && texts(taken@).take(k as int).contains(p)),
            decreases m - k,
        {
            let ghost mid = texts(out@);
            let ghost here = taken@[k as int]@;
            proof {
                assert(texts(taken@)[k as int] == here);
                taken_one_more(texts(taken@), k as int);
                assert(texts(possible@).contains(here) == can_be_taken(*s, here));
            }
            if !has_text(&possible, taken[k].as_str()) {
                push_text(&mut out, taken[k].as_str());
            }
            k = k + 1;
        }
        proof {
            assert(texts(taken@).take(m as int) =~= texts(taken@));
            assert forall|p: Seq<char>|
                #[trigger]
                texts(out@).contains(p) <==> !can_be_taken(*s, p) && exists|j: int, m: Seq<char>|
                    0 <= j < i + 1 && #[trigger] s.transforms@[j].transform.model().inputs
                        .contains_key(m) && s.transforms@[j].transform.model().inputs[m] == p by {
                if texts(out@).contains(p) {
                    if before.contains(p) {
                        let (j, n) = choose|j: int, n: Seq<char>|
                            0 <= j < i && #[trigger] s.transforms@[j].transform.model().inputs
                                .contains_key(n) && s.transforms@[j].transform.model().inputs[n]
                                == p;
                        assert(s.transforms@[j].transform.model().inputs.contains_key(n));
                    } else {
                        let n = choose|n: Seq<char>|
                            #[trigger]
                            t.inputs.contains_key(n) && t.inputs[n] == p;
                        assert(s.transforms@[i as int].transform.model().inputs.contains_key(n));
                    }
                }
                if !can_be_taken(*s, p) && exists|j: int, m: Seq<char>|
                    0 <= j < i + 1 && #[trigger] s.transforms@[j].transform.model().inputs
                        .contains_key(m) && s.transforms@[j].transform.model().inputs[m] == p {
                    let (j, n) = choose|j: int, n: Seq<char>|
                        0 <= j < i + 1 && #[trigger] s.transforms@[j].transform.model().inputs
                            .contains_key(n) && s.transforms@[j].transform.model().inputs[n] == p;
                    if j < i {
                        assert(before.contains(p));
                    } else {
                        assert(t.inputs.contains_key(n));
                        assert(texts(taken@).contains(p));
                    }
                }
            }
        }
        i = i + 1;
    }
    out
}

/// The entries of a map whose values are not among those.
fn keep_values(m: &NamedMap<String>, gone: &Vec<String>) -> (r: NamedMap<String>)
    requires
        m.wf(),
    ensures
        r.wf(),
        text_map(r) == text_map(*m).restrict(
            text_map(*m).dom().filter(
                |k: Seq<char>| !texts(gone@).contains(text_map(*m)[k]),
            ),
        ),
{
    let ghost tm = text_map(*m);
    let ghost want = tm.restrict(
        tm.dom().filter(|k: Seq<char>| !texts(gone@).contains(tm[k])),
    );
    let mut out: NamedMap<String> = NamedMap::new();
    let n: usize = m.entries.len();
    let mut i: usize = 0;
    while i < n
        invariant
            n == m.entries@.len(),
            i <= n,
            m.wf(),
            tm == text_map(*m),
            want == tm.restrict(tm.dom().filter(|k: Seq<char>| !texts(gone@).contains(tm[k]))),
            out.wf(),
            forall|k: Seq<char>|
                #[trigger]
                text_map(out).contains_key(k) <==> want.contains_key(k) && exists|j: int|
                    0 <= j < i && (#[trigger] m.entries@[j]).0@ == k,
            forall|k: Seq<char>| #[trigger] text_map(out).contains_key(k) ==> text_map(out)[k] == tm[k],
        decreases n - i,
    {
        let ghost before = out;
        let ghost key = m.entries@[i as int].0@;
        proof {
            m.entry_at(i as int);
        }
        if !has_text(gone, m.entries[i].1.as_str()) {
            out.insert(m.entries[i].0.clone(), m.entries[i].1.clone());
            assert(text_map(out) =~= text_map(before).insert(key, tm[key]));
        }
        proof {
            assert forall|k: Seq<char>|
                #[trigger]
                text_map(out).contains_key(k) <==> want.contains_key(k) && exists|j: int|
                    0 <= j < i + 1 && (#[trigger] m.entries@[j]).0@ == k by {
                if text_map(out).contains_key(k) {
                    if text_map(before).contains_key(k) {
                        let j = choose|j: int| 0 <= j < i && (#[trigger] m.entries@[j]).0@ == k;
                        assert(m.entries@[j].0@ == k);
                    } else {
                        assert(m.entries@[i as int].0@ == k);
                    }
                }
                if want.contains_key(k) && exists|j: int|
                    0 <= j < i + 1 && (#[trigger] m.entries@[j]).0@ == k {
                    let j = choose|j: int| 0 <= j < i + 1 && (#[trigger] m.entries@[j]).0@ == k;
                    if j < i {
                        assert(text_map(before).contains_key(k));
                    }
                }
            }
        }
        i = i + 1;
    }
    proof {
        assert forall|k: Seq<char>| text_map(out).contains_key(k) == want.contains_key(k) by {
            if want.contains_key(k) {
                let j = m.has_entry(k);
                assert(m.entries@[j].0@ == k);
            }
        }
        assert(text_map(out) =~= want);
    }
    out
}

/// The collections whose ids are not among those.
fn keep_pcollections(m: &NamedMap<PCollection>, gone: &Vec<String>) -> (r: NamedMap<PCollection>)
    requires
        m.wf(),
    ensures
        r.wf(),
        pcollection_map(r) == pcollection_map(*m).restrict(
            pcollection_map(*m).dom().filter(|k: Seq<char>| !texts(gone@).contains(k)),
        ),
{
    let ghost pm = pcollection_map(*m);
    let ghost want = pm.restrict(pm.dom().filter(|k: Seq<char>| !texts(gone@).contains(k)));
    let mut out: NamedMap<PCollection> = NamedMap::new();
    let n: usize = m.entries.len();
    let mut i: usize = 0;
    while i < n
        invariant
            n == m.entries@.len(),
            i <= n,
            m.wf(),
            pm == pcollection_map(*m),
            want == pm.restrict(pm.dom().filter(|k: Seq<char>| !texts(gone@).contains(k))),
            out.wf(),
            forall|k: Seq<char>|
                #[trigger]
                pcollection_map(out).contains_key(k) <==> want.contains_key(k) && exists|j: int|
                    0 <= j < i && (#[trigger] m.entries@[j]).0@ == k,
            forall|k: Seq<char>|
                #[trigger]
                pcollection_map(out).contains_key(k) ==> pcollection_map(out)[k] == pm[k],
        decreases n - i,
    {
        let ghost before = out;
        let ghost key = m.entries@[i as int].0@;
        proof {
            m.entry_at(i as int);
        }
        if !has_text(gone, m.entries[i].0.as_str()) {
            out.insert(m.entries[i].0.clone(), m.entries[i].1.duplicate());
            assert(pcollection_map(out) =~= pcollection_map(before).insert(key, pm[key]));
        }
        proof {
            assert forall|k: Seq<char>|
                #[trigger]
                pcollection_map(out).contains_key(k) <==> want.contains_key(k) && exists|j: int|
                    0 <= j < i + 1 && (#[trigger] m.entries@[j]).0@ == k by {
                if pcollection_map(out).contains_key(k) {
                    if pcollection_map(before).contains_key(k) {
                        let j = choose|j: int| 0 <= j < i && (#[trigger] m.entries@[j]).0@ == k;
                        assert(m.entries@[j].0@ == k);
                    } else {
                        assert(m.entries@[i as int].0@ == k);
                    }
                }
                if want.contains_key(k) && exists|j: int|
                    0 <= j < i + 1 && (#[trigger] m.entries@[j]).0@ == k {
                    let j = choose|j: int| 0 <= j < i + 1 && (#[trigger] m.entries@[j]).0@ == k;
                    if j < i {
                        assert(pcollection_map(before).contains_key(k));
                    }
                }
            }
        }
        i = i + 1;
    }
    proof {
        assert forall|k: Seq<char>| pcollection_map(out).contains_key(k) == want.contains_key(k) by {
            if want.contains_key(k) {
                let j = m.has_entry(k);
                assert(m.entries@[j].0@ == k);
            }
        }
        assert(pcollection_map(out) =~= want);
    }
    out
}

/// Takes the dangling inputs out of a stage, and the dangling collections out of
/// its components.
pub fn sanitize_dangling_ptransform_inputs(stage: ExecutableStage) -> (r: ExecutableStage)
    requires
        stage.wf(),
    ensures
        r.wf(),
        sanitized(stage, r),
{
    let gone: Vec<String> = dangling_ids(&stage);
    if gone.len() == 0 {
        proof {
            assert forall|p: Seq<char>| !is_dangling(stage, p) by {
                assert(!texts(gone@).contains(p));
            }
        }
        return stage;
    }
    proof {
        assert(texts(gone@)[0] == gone@[0]@);
        assert(texts(gone@).contains(gone@[0]@));
        assert(is_dangling(stage, gone@[0]@));
    }
    let n: usize = stage.transforms.len();
    let mut kept: Vec<PTransformNode> = Vec::new();
    let mut i: usize = 0;
    while i < n
        invariant
            stage.wf(),
            n == stage.transforms@.len(),
            i <= n,
            kept@.len() == i,
            nodes_wf(kept@),
            forall|p: Seq<char>| #[trigger] texts(gone@).contains(p) <==> is_dangling(stage, p),
            forall|j: int|
                0 <= j < i ==> (#[trigger] kept@[j]).id@ == stage.transforms@[j].id@
                    && kept@[j].transform.model() == without_dangling(
                    stage,
                    stage.transforms@[j].transform.model(),
                ),
        decreases n - i,
    {
        let node: &PTransformNode = &stage.transforms[i];
        assert(stage.transforms@[i as int].wf());
        let inputs: NamedMap<String> = keep_values(&node.transform.inputs, &gone);
        let transform = PTransform {
            unique_name: node.transform.unique_name.clone(),
            spec: crate::model::duplicate_spec(&node.transform.spec),
            subtransforms: crate::named::copy_texts(&node.transform.subtransforms),
            inputs,
            outputs: crate::model::duplicate_text_map(&node.transform.outputs),
            environment_id: node.transform.environment_id.clone(),
        };
        proof {
            let t = node.transform.model();
            assert(t.inputs.dom().filter(|k: Seq<char>| !texts(gone@).contains(t.inputs[k]))
                =~= t.inputs.dom().filter(|k: Seq<char>| !is_dangling(stage, t.inputs[k])));
            assert(transform.model() == without_dangling(stage, t));
        }
        kept.push(PTransformNode { id: node.id.clone(), transform });
        i = i + 1;
    }
    let components = Components {
        transforms: nodes_by_id(&kept),
        pcollections: keep_pcollections(&stage.components.pcollections, &gone),
        windowing_strategies: crate::model::duplicate_strategies(
            &stage.components.windowing_strategies,
        ),
        coders: crate::model::duplicate_coders(&stage.components.coders),
        environments: crate::model::duplicate_environments(&stage.components.environments),
    };
    proof {
        let ps = stage.components.model().pcollections;
        assert(ps.dom().filter(|k: Seq<char>| !texts(gone@).contains(k)) =~= ps.dom().filter(
            |p: Seq<char>| !is_dangling(stage, p),
        ));
    }
    ExecutableStage::from(
        components,
        stage.environment,
        stage.wire_coder,
        stage.input_pcol,
        stage.side_inputs,
        stage.user_states,
        stage.timers,
        stage.output_pcols,
        kept,
    )
}

} // verus!
