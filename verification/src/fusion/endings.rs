//! Whether the runner's transforms come to an end, wherever one starts.
use crate::fusion::groups::{ends_within, is_runner};
use crate::fusion::pipeline::{consumes, lists, produces, QueryablePipeline};
use crate::fusion::pipeline_fuser::ends;
use crate::model::{ComponentsV, PCollection};
use crate::named::texts;
use vstd::prelude::*;
use vstd::string::*;

verus! {

/// Whether the runner's transforms behind every collection come to an end.
pub open spec fn all_end(c: ComponentsV) -> bool {
    forall|p: Seq<char>| #[trigger] c.pcollections.contains_key(p) ==> ends(c, p)
}

/// The collections that are marked.
spec fn marked(e: Seq<(String, PCollection)>, marks: Seq<bool>) -> Set<Seq<char>> {
    Set::new(|q: Seq<char>| exists|i: int| 0 <= i < marks.len() && marks[i] && #[trigger] e[i].0@ == q)
}

/// How many are marked.
spec fn count(marks: Seq<bool>) -> nat
    decreases marks.len(),
{
    if marks.len() == 0 {
        0
    } else if marks.last() {
        count(marks.drop_last()) + 1
    } else {
        count(marks.drop_last())
    }
}

proof fn count_grows(marks: Seq<bool>, i: int)
    requires
        0 <= i < marks.len(),
        !marks[i],
    ensures
        count(marks.update(i, true)) == count(marks) + 1,
    decreases marks.len(),
{
    let more = marks.update(i, true);
    if i == marks.len() - 1 {
        assert(more.drop_last() =~= marks.drop_last());
    } else {
        assert(more.drop_last() =~= marks.drop_last().update(i, true));
        count_grows(marks.drop_last(), i);
    }
}

proof fn count_bounded(marks: Seq<bool>)
    ensures
        count(marks) <= marks.len(),
    decreases marks.len(),
{
    if marks.len() > 0 {
        count_bounded(marks.drop_last());
    }
}

/// What ends within some steps ends within one more.
proof fn ends_later(c: ComponentsV, p: Seq<char>, d: nat)
    requires
        ends_within(c, p, d),
    ensures
        ends_within(c, p, d + 1),
    decreases d,
{
    assert forall|id: Seq<char>, q: Seq<char>|
        consumes(c, id, p) && is_runner(c, id) && #[trigger] produces(c, id, q)
            && #[trigger] consumes(c, id, p) implies ends_within(c, q, d) by {
        ends_later(c, q, (d - 1) as nat);
    }
}

/// Whether what the runner makes of a collection goes to collections of a set.
spec fn leads_into(c: ComponentsV, p: Seq<char>, s: Set<Seq<char>>) -> bool {
    forall|id: Seq<char>, q: Seq<char>|
        consumes(c, id, p) && is_runner(c, id) && #[trigger] produces(c, id, q)
            && #[trigger] consumes(c, id, p) ==> s.contains(q)
}

/// Where nothing but collections outside a set lead out of it, those outside do not end.
proof fn outside_goes_on(c: ComponentsV, s: Set<Seq<char>>, p: Seq<char>, d: nat)
    requires
        c.pcollections.contains_key(p),
        !s.contains(p),
        forall|q: Seq<char>|
            c.pcollections.contains_key(q) && !s.contains(q) ==> !(#[trigger] leads_into(c, q, s)),
    ensures
        !ends_within(c, p, d),
    decreases d,
{
    assert(!leads_into(c, p, s));
    let (id, q) = choose|id: Seq<char>, q: Seq<char>|
        consumes(c, id, p) && is_runner(c, id) && #[trigger] produces(c, id, q)
            && #[trigger] consumes(c, id, p) && !s.contains(q);
    if ends_within(c, p, d) {
        outside_goes_on(c, s, q, (d - 1) as nat);
    }
}

/// Whether all outputs of a transform are marked.
fn outputs_marked(pipeline: &QueryablePipeline, outputs: &Vec<String>, marks: &Vec<bool>) -> (r:
    bool)
    requires
        pipeline.wf(),
        marks@.len() == pipeline.components.pcollections.entries@.len(),
    ensures
        r == (forall|q: Seq<char>|
            #[trigger]
            texts(outputs@).contains(q) ==> marked(
                pipeline.components.pcollections.entries@,
                marks@,
            ).contains(q)),
{
    let ghost e = pipeline.components.pcollections.entries@;
    let n: usize = outputs.len();
    let mut i: usize = 0;
    while i < n
        invariant
            pipeline.wf(),
            e == pipeline.components.pcollections.entries@,
            marks@.len() == e.len(),
            n == outputs@.len(),
            i <= n,
            forall|k: int| 0 <= k < i ==> marked(e, marks@).contains((#[trigger] outputs@[k])@),
        decreases n - i,
    {
        let known: bool = match pipeline.components.pcollections.position(outputs[i].as_str()) {
            Some(k) => {
                assert(e[k as int].0@ == outputs@[i as int]@);
                marks[k]
            },
            None => false,
        };
        proof {
            if marked(e, marks@).contains(outputs@[i as int]@) {
                let k = choose|k: int|
                    0 <= k < marks@.len() && marks@[k] && #[trigger] e[k].0@
                        == outputs@[i as int]@;
                pipeline.components.pcollections.entry_at(k);
            }
        }
        if !known {
            assert(texts(outputs@)[i as int] == outputs@[i as int]@);
            assert(texts(outputs@).contains(outputs@[i as int]@));
            return false;
        }
        i = i + 1;
    }
    assert forall|q: Seq<char>| #[trigger] texts(outputs@).contains(q) implies marked(
        e,
        marks@,
    ).contains(q) by {
        let k = choose|k: int| 0 <= k < texts(outputs@).len() && texts(outputs@)[k] == q;
        assert(outputs@[k]@ == q);
    }
    true
}

/// Whether what the runner makes of a collection goes to collections that are marked.
fn is_settled(pipeline: &QueryablePipeline, pcol: &str, marks: &Vec<bool>) -> (r: bool)
    requires
        pipeline.wf(),
        marks@.len() == pipeline.components.pcollections.entries@.len(),
    ensures
        r == leads_into(
            pipeline.model(),
            pcol@,
            marked(pipeline.components.pcollections.entries@, marks@),
        ),
{
    let ghost c = pipeline.model();
    let ghost s = marked(pipeline.components.pcollections.entries@, marks@);
    let consumers: Vec<String> = pipeline.per_element_consumer_ids(pcol);
    let n: usize = consumers.len();
    let mut i: usize = 0;
    while i < n
        invariant
            pipeline.wf(),
            marks@.len() == pipeline.components.pcollections.entries@.len(),
            c == pipeline.model(),
            s == marked(pipeline.components.pcollections.entries@, marks@),
            lists(consumers@, |id: Seq<char>| consumes(c, id, pcol@)),
            n == consumers@.len(),
            i <= n,
            forall|k: int, q: Seq<char>|
                0 <= k < i && is_runner(c, consumers@[k]@) && #[trigger] produces(
                    c,
                    consumers@[k]@,
                    q,
                ) ==> s.contains(q),
        decreases n - i,
    {
        let ghost id = consumers@[i as int]@;
        proof {
            assert(texts(consumers@)[i as int] == id);
            assert(texts(consumers@).contains(id));
        }
        match pipeline.node(consumers[i].as_str()) {
            Some(node) => match pipeline.get_environment(&node.transform) {
                Some(_) => {},
                None => {
                    let outputs: Vec<String> = pipeline.output_ids(&node.transform);
                    let known: bool = outputs_marked(pipeline, &outputs, marks);
                    if !known {
                        proof {
                            let q = choose|q: Seq<char>|
                                #[trigger]
                                texts(outputs@).contains(q) && !s.contains(q);
                            assert(produces(c, id, q) && consumes(c, id, pcol@));
                        }
                        return false;
                    }
                    assert forall|q: Seq<char>| #[trigger] produces(c, id, q) implies s.contains(
                        q,
                    ) by {
                        assert(texts(outputs@).contains(q));
                    }
                },
            },
            None => {},
        }
        i = i + 1;
    }
    assert forall|id: Seq<char>, q: Seq<char>|
        consumes(c, id, pcol@) && is_runner(c, id) && #[trigger] produces(c, id, q)
            && #[trigger] consumes(c, id, pcol@) implies s.contains(q) by {
        assert(texts(consumers@).contains(id));
        let k = choose|k: int| 0 <= k < texts(consumers@).len() && texts(consumers@)[k] == id;
        assert(consumers@[k]@ == id);
    }
    true
}

/// Marks a collection from which what the runner makes goes to marked ones only.
///
/// Says whether there was one.
fn mark_one(pipeline: &QueryablePipeline, marks: &mut Vec<bool>, Ghost(depth): Ghost<nat>) -> (r:
    bool)
    requires
        pipeline.wf(),
        old(marks)@.len() == pipeline.components.pcollections.entries@.len(),
        forall|i: int|
            0 <= i < old(marks)@.len() && old(marks)@[i] ==> ends_within(
                pipeline.model(),
                (#[trigger] pipeline.components.pcollections.entries@[i]).0@,
                depth,
            ),
    ensures
        final(marks)@.len() == old(marks)@.len(),
        if r {
            count(final(marks)@) == count(old(marks)@) + 1
        } else {
            *final(marks) == *old(marks)
        },
        forall|i: int|
            0 <= i < final(marks)@.len() && final(marks)@[i] ==> ends_within(
                pipeline.model(),
                (#[trigger] pipeline.components.pcollections.entries@[i]).0@,
                depth + 1,
            ),
        !r ==> forall|i: int|
            0 <= i < final(marks)@.len() && !final(marks)@[i] ==> !leads_into(
                pipeline.model(),
                (#[trigger] pipeline.components.pcollections.entries@[i]).0@,
                marked(pipeline.components.pcollections.entries@, final(marks)@),
            ),
{
    let ghost c = pipeline.model();
    let ghost e = pipeline.components.pcollections.entries@;
    let ghost before = marks@;
    let n: usize = marks.len();
    let mut i: usize = 0;
    proof {
        assert forall|k: int| 0 <= k < before.len() && before[k] implies ends_within(
            c,
            (#[trigger] e[k]).0@,
            depth + 1,
        ) by {
            ends_later(c, e[k].0@, depth);
        }
    }
    while i < n
        invariant
            pipeline.wf(),
            c == pipeline.model(),
            e == pipeline.components.pcollections.entries@,
            before == marks@,
            *marks == *old(marks),
            n == marks@.len(),
            n == e.len(),
            i <= n,
            forall|k: int|
                0 <= k < before.len() && before[k] ==> ends_within(
                    c,
                    (#[trigger] e[k]).0@,
                    depth,
                ),
            forall|k: int|
                0 <= k < before.len() && before[k] ==> ends_within(
                    c,
                    (#[trigger] e[k]).0@,
                    depth + 1,
                ),
            forall|k: int|
                0 <= k < i && !before[k] ==> !leads_into(
                    c,
                    (#[trigger] e[k]).0@,
                    marked(e, before),
                ),
        decreases n - i,
    {
        if !marks[i] && is_settled(
            pipeline,
            pipeline.components.pcollections.entries[i].0.as_str(),
            marks,
        ) {
            proof {
                let p = e[i as int].0@;
                count_grows(before, i as int);
                assert(ends_within(c, p, depth + 1)) by {
                    assert forall|id: Seq<char>, q: Seq<char>|
                        consumes(c, id, p) && is_runner(c, id) && #[trigger] produces(c, id, q)
                            && #[trigger] consumes(c, id, p) implies ends_within(c, q, depth) by {
                        assert(marked(e, before).contains(q));
                        let k = choose|k: int|
                            0 <= k < before.len() && before[k] && #[trigger] e[k].0@ == q;
                        assert(ends_within(c, e[k].0@, depth));
                    }
                }
            }
            marks.set(i, true);
            return true;
        }
        i = i + 1;
    }
    false
}

/// Whether the runner's transforms behind every collection come to an end. Where they
/// do not, there is no order in which they could be executed.
pub fn do_all_end(pipeline: &QueryablePipeline) -> (r: bool)
    requires
        pipeline.wf(),
    ensures
        r == all_end(pipeline.model()),
{
    let ghost c = pipeline.model();
    let ghost e = pipeline.components.pcollections.entries@;
    let n: usize = pipeline.components.pcollections.entries.len();
    let mut marks: Vec<bool> = Vec::new();
    let mut i: usize = 0;
    while i < n
        invariant
            i <= n,
            marks@.len() == i,
            forall|k: int| 0 <= k < i ==> !marks@[k],
        decreases n - i,
    {
        marks.push(false);
        i = i + 1;
    }
    let ghost mut depth: nat = 0;
    let mut going: bool = true;
    proof {
        count_bounded(marks@);
    }
    while going
        invariant
            pipeline.wf(),
            c == pipeline.model(),
            e == pipeline.components.pcollections.entries@,
            n == e.len(),
            marks@.len() == n,
            count(marks@) <= n,
            forall|k: int|
                0 <= k < n && marks@[k] ==> ends_within(c, (#[trigger] e[k]).0@, depth),
            !going ==> forall|k: int|
                0 <= k < n && !marks@[k] ==> !leads_into(
                    c,
                    (#[trigger] e[k]).0@,
                    marked(e, marks@),
                ),
        decreases
            n - count(marks@) + (if going {
                1int
            } else {
                0int
            }),
    {
        going = mark_one(pipeline, &mut marks, Ghost(depth));
        proof {
            depth = depth + 1;
            count_bounded(marks@);
        }
    }
    let ghost s = marked(e, marks@);
    let mut j: usize = 0;
    while j < n
        invariant
            pipeline.wf(),
            c == pipeline.model(),
            e == pipeline.components.pcollections.entries@,
            n == e.len(),
            marks@.len() == n,
            s == marked(e, marks@),
            j <= n,
            forall|k: int| 0 <= k < j ==> marks@[k],
            forall|k: int|
                0 <= k < n && !marks@[k] ==> !leads_into(c, (#[trigger] e[k]).0@, s),
        decreases n - j,
    {
        if !marks[j] {
            proof {
                let p = e[j as int].0@;
                pipeline.components.pcollections.entry_at(j as int);
                assert(c.pcollections.contains_key(p));
                assert(!s.contains(p)) by {
                    if s.contains(p) {
                        let k = choose|k: int|
                            0 <= k < marks@.len() && marks@[k] && #[trigger] e[k].0@ == p;
                        let (a, b) = (e[k], e[j as int]);
                    }
                }
                assert forall|q: Seq<char>|
                    c.pcollections.contains_key(q) && !s.contains(q) implies !(
                #[trigger] leads_into(c, q, s)) by {
                    let k = pipeline.components.pcollections.has_entry(q);
                    assert(e[k].0@ == q);
                }
                if ends(c, p) {
                    let d = choose|d: nat| ends_within(c, p, d);
                    outside_goes_on(c, s, p, d);
                }
            }
            return false;
        }
        j = j + 1;
    }
    assert forall|p: Seq<char>| #[trigger] c.pcollections.contains_key(p) implies ends(c, p) by {
        let k = pipeline.components.pcollections.has_entry(p);
        assert(ends_within(c, e[k].0@, depth));
    }
    true
}

} // verus!
