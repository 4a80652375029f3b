//! Consumers of collections, and the groups of them that root a stage together.
use crate::fusion::fuser::{compatible, GreedyCollectionFuser};
use crate::fusion::pipeline::{
    consumes, environment_of, gives, lists, produces, texts_pushed, QueryablePipeline,
};
use crate::model::{ComponentsV, NodeV, PTransformNode};
use crate::named::{has_text, texts};
use crate::text::{is_before, same_text, text_before};
use vstd::prelude::*;
use vstd::string::*;

verus! {

/// A transform that takes the elements of a collection, by their ids.
#[derive(Debug)]
pub struct Sibling {
    pub pcol: String,
    pub transform: String,
}

#[verifier::ext_equal]
pub struct SiblingV {
    pub pcol: Seq<char>,
    pub transform: Seq<char>,
}

impl Sibling {
    pub open spec fn model(self) -> SiblingV {
        SiblingV { pcol: self.pcol@, transform: self.transform@ }
    }

    pub fn duplicate(&self) -> (r: Sibling)
        ensures
            r.model() == self.model(),
    {
        Sibling { pcol: self.pcol.clone(), transform: self.transform.clone() }
    }
}

pub open spec fn siblings_model(s: Seq<Sibling>) -> Seq<SiblingV> {
    Seq::new(s.len(), |i: int| s[i].model())
}

/// The order of consumers: by collection, then by transform.
pub open spec fn sibling_before(a: SiblingV, b: SiblingV) -> bool {
    text_before(a.pcol, b.pcol) || (a.pcol == b.pcol && text_before(a.transform, b.transform))
}

/// Whether consumers stand in their order, each once.
pub open spec fn is_sorted(s: Seq<SiblingV>) -> bool {
    forall|i: int, j: int| 0 <= i < j < s.len() ==> sibling_before(#[trigger] s[i], #[trigger] s[j])
}

pub proof fn sibling_before_total(a: SiblingV, b: SiblingV)
    ensures
        !sibling_before(a, b) && !sibling_before(b, a) ==> a == b,
        !(sibling_before(a, b) && sibling_before(b, a)),
        a == b ==> !sibling_before(a, b),
{
    crate::text::text_before_total(a.pcol, b.pcol);
    crate::text::text_before_total(a.transform, b.transform);
}

proof fn sibling_before_transitive(a: SiblingV, b: SiblingV, c: SiblingV)
    requires
        sibling_before(a, b),
        sibling_before(b, c),
    ensures
        sibling_before(a, c),
{
    if text_before(a.pcol, b.pcol) && text_before(b.pcol, c.pcol) {
        crate::text::text_before_transitive(a.pcol, b.pcol, c.pcol);
    }
    crate::text::text_before_total(a.pcol, a.pcol);
    if a.pcol == b.pcol && b.pcol == c.pcol {
        crate::text::text_before_transitive(a.transform, b.transform, c.transform);
    }
}

fn comes_before(a: &Sibling, b: &Sibling) -> (r: bool)
    ensures
        r == sibling_before(a.model(), b.model()),
{
    is_before(a.pcol.as_str(), b.pcol.as_str()) || (same_text(a.pcol.as_str(), b.pcol.as_str())
        && is_before(a.transform.as_str(), b.transform.as_str()))
}

fn same_sibling(a: &Sibling, b: &Sibling) -> (r: bool)
    ensures
        r == (a.model() == b.model()),
{
    same_text(a.pcol.as_str(), b.pcol.as_str()) && same_text(
        a.transform.as_str(),
        b.transform.as_str(),
    )
}

/// Whether the consumer is among those.
pub fn has_sibling(v: &Vec<Sibling>, x: &Sibling) -> (r: bool)
    ensures
        r == siblings_model(v@).contains(x.model()),
{
    let n: usize = v.len();
    let mut i: usize = 0;
    while i < n
        invariant
            n == v@.len(),
            i <= n,
            forall|j: int| 0 <= j < i ==> (#[trigger] v@[j]).model() != x.model(),
        decreases n - i,
    {
        if same_sibling(&v[i], x) {
            assert(siblings_model(v@)[i as int] == x.model());
            return true;
        }
        i = i + 1;
    }
    proof {
        if siblings_model(v@).contains(x.model()) {
            let j = choose|j: int|
                0 <= j < siblings_model(v@).len() && siblings_model(v@)[j] == x.model();
            let y = v@[j];
        }
    }
    false
}

/// Adds a consumer at its place.
pub fn insert_sibling(v: &mut Vec<Sibling>, x: Sibling)
    requires
        is_sorted(siblings_model(old(v)@)),
    ensures
        is_sorted(siblings_model(final(v)@)),
        forall|y: SiblingV|
            #[trigger]
            siblings_model(final(v)@).contains(y) <==> siblings_model(old(v)@).contains(y) || y
                == x.model(),
{
    let ghost before = siblings_model(v@);
    let ghost xm = x.model();
    let n: usize = v.len();
    let mut i: usize = 0;
    while i < n && comes_before(&v[i], &x)
        invariant
            n == v@.len(),
            i <= n,
            before == siblings_model(v@),
            xm == x.model(),
            forall|j: int| 0 <= j < i ==> sibling_before(#[trigger] before[j], xm),
        decreases n - i,
    {
        assert(before[i as int] == v@[i as int].model());
        i = i + 1;
    }
    if i < n && same_sibling(&v[i], &x) {
        assert(before[i as int] == xm);
        return;
    }
    let ghost old_v = v@;
    v.insert(i, x);
    proof {
        let after = siblings_model(v@);
        assert(after =~= before.insert(i as int, xm));
        if i < n {
            assert(before[i as int] == old_v[i as int].model());
            sibling_before_total(before[i as int], xm);
        }
        assert forall|a: int, b: int| 0 <= a < b < after.len() implies sibling_before(
            #[trigger] after[a],
            #[trigger] after[b],
        ) by {
            let pa = if a < i { a } else { a - 1 };
            let pb = if b < i { b } else { b - 1 };
            if a == i {
                assert(after[b] == before[pb]);
                if pb > i {
                    sibling_before_transitive(xm, before[i as int], before[pb]);
                }
            } else if b == i {
                assert(after[a] == before[pa]);
            } else {
                assert(after[a] == before[pa]);
                assert(after[b] == before[pb]);
            }
        }
        assert forall|y: SiblingV|
            #[trigger]
            after.contains(y) <==> before.contains(y) || y == xm by {
            if before.contains(y) {
                let j = choose|j: int| 0 <= j < before.len() && before[j] == y;
                let k = if j < i { j } else { j + 1 };
                assert(after[k] == y);
            }
            if y == xm {
                assert(after[i as int] == y);
            }
            if after.contains(y) {
                let k = choose|k: int| 0 <= k < after.len() && after[k] == y;
                if k < i {
                    assert(before[k] == y);
                } else if k > i {
                    assert(before[k - 1] == y);
                }
            }
        }
    }
}

pub fn duplicate_siblings(v: &Vec<Sibling>) -> (r: Vec<Sibling>)
    ensures
        siblings_model(r@) == siblings_model(v@),
{
    let n: usize = v.len();
    let mut out: Vec<Sibling> = Vec::new();
    let mut i: usize = 0;
    while i < n
        invariant
            n == v@.len(),
            i <= n,
            out@.len() == i,
            forall|j: int| 0 <= j < i ==> (#[trigger] out@[j]).model() == v@[j].model(),
        decreases n - i,
    {
        out.push(v[i].duplicate());
        i = i + 1;
    }
    assert(siblings_model(out@) =~= siblings_model(v@));
    out
}

// ---------------------------------------------------------------------------
// Groups
// ---------------------------------------------------------------------------
/// The node of a transform of the pipeline.
pub open spec fn node_at(c: ComponentsV, id: Seq<char>) -> NodeV {
    NodeV { id, transform: c.transforms[id] }
}

/// Whether two consumers take the same collection in the same environment.
pub open spec fn same_key(c: ComponentsV, a: SiblingV, b: SiblingV) -> bool {
    a.pcol == b.pcol && environment_of(c, c.transforms[a.transform]) == environment_of(
        c,
        c.transforms[b.transform],
    )
}

/// Whether a consumer may join a group: it has the group's collection and
/// environment and is compatible with every member.
pub open spec fn may_join(c: ComponentsV, group: Seq<SiblingV>, x: SiblingV) -> bool {
    group.len() > 0 && same_key(c, group[0], x) && forall|i: int|
        0 <= i < group.len() ==> compatible(
            c,
            node_at(c, (#[trigger] group[i]).transform),
            node_at(c, x.transform),
        )
}

/// Where a consumer goes, looking at the groups from the `i`th on: into the first
/// that it may join, or into a new one.
pub open spec fn place(
    c: ComponentsV,
    groups: Seq<Seq<SiblingV>>,
    x: SiblingV,
    i: nat,
) -> Seq<Seq<SiblingV>>
    decreases groups.len() - i,
{
    if i >= groups.len() {
        groups.push(seq![x])
    } else if may_join(c, groups[i as int], x) {
        groups.update(i as int, groups[i as int].push(x))
    } else {
        place(c, groups, x, i + 1)
    }
}

/// The groups of some consumers, taken in their order.
pub open spec fn grouped(c: ComponentsV, s: Seq<SiblingV>) -> Seq<Seq<SiblingV>>
    decreases s.len(),
{
    if s.len() == 0 {
        seq![]
    } else {
        place(c, grouped(c, s.drop_last()), s.last(), 0)
    }
}

/// Whether all members of a group take one collection in one environment and are
/// compatible with each other.
pub open spec fn is_group(c: ComponentsV, group: Seq<SiblingV>) -> bool {
    &&& group.len() > 0
    &&& forall|i: int| 0 <= i < group.len() ==> same_key(c, group[0], #[trigger] group[i])
    &&& forall|i: int, j: int|
        0 <= i < j < group.len() ==> compatible(
            c,
            node_at(c, (#[trigger] group[i]).transform),
            node_at(c, (#[trigger] group[j]).transform),
        )
}

proof fn placed_are_groups(
    c: ComponentsV,
    groups: Seq<Seq<SiblingV>>,
    x: SiblingV,
    i: nat,
)
    requires
        i <= groups.len(),
        forall|k: int| 0 <= k < groups.len() ==> is_group(c, #[trigger] groups[k]),
    ensures
        forall|k: int|
            0 <= k < place(c, groups, x, i).len() ==> is_group(
                c,
                #[trigger] place(c, groups, x, i)[k],
            ),
    decreases groups.len() - i,
{
    if i < groups.len() {
        if may_join(c, groups[i as int], x) {
            let g = groups[i as int];
            let h = g.push(x);
            assert(is_group(c, g));
            assert forall|a: int, b: int| 0 <= a < b < h.len() implies compatible(
                c,
                node_at(c, (#[trigger] h[a]).transform),
                node_at(c, (#[trigger] h[b]).transform),
            ) by {
                assert(h[a] == g[a]);
                if b < g.len() {
                    assert(h[b] == g[b]);
                }
            }
            assert(is_group(c, h));
            assert forall|k: int| 0 <= k < place(c, groups, x, i).len() implies is_group(
                c,
                #[trigger] place(c, groups, x, i)[k],
            ) by {
                if k != i {
                    assert(place(c, groups, x, i)[k] == groups[k]);
                }
            }
        } else {
            placed_are_groups(c, groups, x, i + 1);
            let after = place(c, groups, x, i);
            assert(after == place(c, groups, x, i + 1));
            assert forall|k: int| 0 <= k < place(c, groups, x, i).len() implies is_group(
                c,
                #[trigger] place(c, groups, x, i)[k],
            ) by {
                assert(is_group(c, place(c, groups, x, i + 1)[k]));
            }
        }
    } else {
        assert(is_group(c, seq![x]));
        assert forall|k: int| 0 <= k < place(c, groups, x, i).len() implies is_group(
            c,
            #[trigger] place(c, groups, x, i)[k],
        ) by {
            if k < groups.len() {
                assert(place(c, groups, x, i)[k] == groups[k]);
            }
        }
    }
}

/// The members of each group take one collection in one environment and are
/// mutually compatible.
pub proof fn groups_are_compatible(c: ComponentsV, s: Seq<SiblingV>)
    ensures
        forall|k: int|
            0 <= k < grouped(c, s).len() ==> is_group(c, #[trigger] grouped(c, s)[k]),
    decreases s.len(),
{
    if s.len() > 0 {
        groups_are_compatible(c, s.drop_last());
        placed_are_groups(c, grouped(c, s.drop_last()), s.last(), 0);
    }
}

/// Whether the consumer is in some group.
pub open spec fn in_groups(groups: Seq<Seq<SiblingV>>, x: SiblingV) -> bool {
    exists|k: int| 0 <= k < groups.len() && (#[trigger] groups[k]).contains(x)
}

proof fn placed_members(
    c: ComponentsV,
    groups: Seq<Seq<SiblingV>>,
    x: SiblingV,
    i: nat,
    y: SiblingV,
)
    requires
        i <= groups.len(),
    ensures
        in_groups(place(c, groups, x, i), y) <==> in_groups(groups, y) || y == x,
    decreases groups.len() - i,
{
    let after = place(c, groups, x, i);
    if i >= groups.len() {
        if in_groups(groups, y) {
            let k = choose|k: int| 0 <= k < groups.len() && (#[trigger] groups[k]).contains(y);
            assert(after[k] == groups[k]);
        }
        assert(after[groups.len() as int] == seq![x]);
        assert(seq![x][0] == x);
        if in_groups(after, y) {
            let k = choose|k: int| 0 <= k < after.len() && (#[trigger] after[k]).contains(y);
            if k < groups.len() {
                assert(after[k] == groups[k]);
            }
        }
    } else if may_join(c, groups[i as int], x) {
        let g = groups[i as int];
        let h = g.push(x);
        assert(h[g.len() as int] == x);
        assert forall|z: SiblingV| #[trigger] h.contains(z) <==> g.contains(z) || z == x by {
            if g.contains(z) {
                let m = choose|m: int| 0 <= m < g.len() && g[m] == z;
                assert(h[m] == z);
            }
            if h.contains(z) {
                let m = choose|m: int| 0 <= m < h.len() && h[m] == z;
                if m < g.len() {
                    assert(g[m] == z);
                }
            }
        }
        assert(after[i as int] == h);
        if in_groups(groups, y) {
            let k = choose|k: int| 0 <= k < groups.len() && (#[trigger] groups[k]).contains(y);
            if k != i {
                assert(after[k] == groups[k]);
            }
        }
        if in_groups(after, y) {
            let k = choose|k: int| 0 <= k < after.len() && (#[trigger] after[k]).contains(y);
            if k != i {
                assert(after[k] == groups[k]);
            }
        }
    } else {
        placed_members(c, groups, x, i + 1, y);
    }
}

/// Every consumer is in a group, and the groups hold no others.
pub proof fn groups_cover(c: ComponentsV, s: Seq<SiblingV>, y: SiblingV)
    ensures
        in_groups(grouped(c, s), y) <==> s.contains(y),
    decreases s.len(),
{
    if s.len() > 0 {
        let before = s.drop_last();
        groups_cover(c, before, y);
        placed_members(c, grouped(c, before), s.last(), 0, y);
        if before.contains(y) {
            let j = choose|j: int| 0 <= j < before.len() && before[j] == y;
            assert(s[j] == y);
        }
        if s.contains(y) {
            let j = choose|j: int| 0 <= j < s.len() && s[j] == y;
            if j < before.len() {
                assert(before[j] == y);
            }
        }
    }
}

pub open spec fn groups_model(s: Seq<Vec<Sibling>>) -> Seq<Seq<SiblingV>> {
    Seq::new(s.len(), |i: int| siblings_model(s[i]@))
}

/// Whether the consumers are of the pipeline.
pub open spec fn belong(c: ComponentsV, s: Seq<SiblingV>) -> bool {
    forall|i: int|
        0 <= i < s.len() ==> c.transforms.contains_key((#[trigger] s[i]).transform)
            && c.pcollections.contains_key(s[i].pcol)
}

fn joins(pipeline: &QueryablePipeline, group: &Vec<Sibling>, x: &Sibling) -> (r: bool)
    requires
        pipeline.wf(),
        belong(pipeline.model(), siblings_model(group@)),
        pipeline.model().transforms.contains_key(x.transform@),
    ensures
        r == may_join(pipeline.model(), siblings_model(group@), x.model()),
{
    let ghost c = pipeline.model();
    let ghost g = siblings_model(group@);
    if group.len() == 0 {
        return false;
    }
    let node: PTransformNode = match pipeline.node(x.transform.as_str()) {
        Some(n) => n,
        None => {
            return false;
        },
    };
    assert(g[0] == group@[0].model());
    let first: PTransformNode = match pipeline.node(group[0].transform.as_str()) {
        Some(n) => n,
        None => {
            return false;
        },
    };
    if !same_text(group[0].pcol.as_str(), x.pcol.as_str())
        || !GreedyCollectionFuser::compatible_environments(&first, &node, pipeline) {
        return false;
    }
    let n: usize = group.len();
    let mut i: usize = 0;
    while i < n
        invariant
            pipeline.wf(),
            c == pipeline.model(),
            g == siblings_model(group@),
            belong(c, g),
            n == group@.len(),
            i <= n,
            node.wf(),
            node.model() == node_at(c, x.transform@),
            forall|j: int|
                0 <= j < i ==> compatible(c, node_at(c, (#[trigger] g[j]).transform), node.model()),
        decreases n - i,
    {
        assert(g[i as int] == group@[i as int].model());
        match pipeline.node(group[i].transform.as_str()) {
            Some(member) => if !GreedyCollectionFuser::is_compatible(&member, &node, pipeline) {
                assert(!compatible(c, node_at(c, g[i as int].transform), node.model()));
                return false;
            },
            None => {},
        }
        i = i + 1;
    }
    true
}

/// The groups of some consumers.
///
/// A consumer joins the first group of its collection and environment with whose
/// members it is compatible, and starts a new one where there is none.
pub fn group_consumers(pipeline: &QueryablePipeline, consumers: &Vec<Sibling>) -> (r: Vec<
    Vec<Sibling>,
>)
    requires
        pipeline.wf(),
        belong(pipeline.model(), siblings_model(consumers@)),
    ensures
        groups_model(r@) == grouped(pipeline.model(), siblings_model(consumers@)),
{
    let ghost c = pipeline.model();
    let ghost s = siblings_model(consumers@);
    let n: usize = consumers.len();
    let mut groups: Vec<Vec<Sibling>> = Vec::new();
    let mut i: usize = 0;
    assert(s.take(0) =~= seq![]);
    assert(groups_model(groups@) =~= seq![]);
    while i < n
        invariant
            pipeline.wf(),
            c == pipeline.model(),
            s == siblings_model(consumers@),
            belong(c, s),
            n == consumers@.len(),
            i <= n,
            groups_model(groups@) == grouped(c, s.take(i as int)),
        decreases n - i,
    {
        let ghost before = groups_model(groups@);
        let ghost x = consumers@[i as int].model();
        proof {
            assert(s[i as int] == x);
            assert(s.take(i + 1).drop_last() =~= s.take(i as int));
            assert(s.take(i + 1).last() == x);
            assert forall|k: int| 0 <= k < groups@.len() implies belong(
                c,
                siblings_model((#[trigger] groups@[k])@),
            ) by {
                assert(before[k] == siblings_model(groups@[k]@));
                assert forall|m: int| 0 <= m < before[k].len() implies c.transforms.contains_key(
                    (#[trigger] before[k][m]).transform,
                ) && c.pcollections.contains_key(before[k][m].pcol) by {
                    assert(before[k].contains(before[k][m]));
                    assert(in_groups(before, before[k][m]));
                    groups_cover(c, s.take(i as int), before[k][m]);
                    let q = choose|q: int|
                        0 <= q < s.take(i as int).len() && s.take(i as int)[q] == before[k][m];
                    assert(s[q] == before[k][m]);
                }
            }
        }
        let count: usize = groups.len();
        let mut k: usize = 0;
        while k < count && !joins(pipeline, &groups[k], &consumers[i])
            invariant
                pipeline.wf(),
                c == pipeline.model(),
                s == siblings_model(consumers@),
                belong(c, s),
                n == consumers@.len(),
                i < n,
                x == consumers@[i as int].model(),
                s[i as int] == x,
                count == groups@.len(),
                k <= count,
                before == groups_model(groups@),
                forall|k: int|
                    0 <= k < groups@.len() ==> belong(c, siblings_model((#[trigger] groups@[k])@)),
                place(c, before, x, 0) == place(c, before, x, k as nat),
            decreases count - k,
        {
            assert(before[k as int] == siblings_model(groups@[k as int]@));
            k = k + 1;
        }
        let added: Sibling = consumers[i].duplicate();
        if k < count {
            assert(before[k as int] == siblings_model(groups@[k as int]@));
            let ghost old_groups = groups@;
            let mut group: Vec<Sibling> = duplicate_siblings(&groups[k]);
            let ghost old_group = group@;
            group.push(added);
            proof {
                assert(siblings_model(group@) =~= siblings_model(old_group).push(x));
            }
            groups[k] = group;
            assert(groups_model(groups@) =~= before.update(k as int, before[k as int].push(x)));
        } else {
            let mut group: Vec<Sibling> = Vec::new();
            group.push(added);
            assert(siblings_model(group@) =~= seq![x]);
            groups.push(group);
            assert(groups_model(groups@) =~= before.push(seq![x]));
        }
        i = i + 1;
    }
    assert(s.take(n as int) =~= s);
    groups
}

// ---------------------------------------------------------------------------
// Descendants
// ---------------------------------------------------------------------------
/// Whether the transform with this id is the runner's own: it has no environment.
pub open spec fn is_runner(c: ComponentsV, id: Seq<char>) -> bool {
    environment_of(c, c.transforms[id]) is None
}

/// Whether the runner's transforms behind a collection end within `depth` steps.
pub open spec fn ends_within(c: ComponentsV, pcol: Seq<char>, depth: nat) -> bool
    decreases depth,
{
    forall|id: Seq<char>, q: Seq<char>|
        consumes(c, id, pcol) && is_runner(c, id) && #[trigger] produces(c, id, q)
            && #[trigger] consumes(c, id, pcol) ==> depth > 0 && ends_within(
            c,
            q,
            (depth - 1) as nat,
        )
}

/// Whether the runner's transform is among those behind the collection, with no
/// other than the runner's in between.
pub open spec fn unfused_behind(c: ComponentsV, pcol: Seq<char>, id: Seq<char>, depth: nat) -> bool
    decreases depth,
{
    (consumes(c, id, pcol) && is_runner(c, id)) || (depth > 0 && exists|u: Seq<char>, q: Seq<char>|
        #[trigger]
        consumes(c, u, pcol) && is_runner(c, u) && #[trigger] produces(c, u, q)
            && unfused_behind(c, q, id, (depth - 1) as nat))
}

/// Whether the consumer is among those behind the collection, with none but the
/// runner's transforms in between.
pub open spec fn fusible_behind(c: ComponentsV, pcol: Seq<char>, x: SiblingV, depth: nat) -> bool
    decreases depth,
{
    (x.pcol == pcol && consumes(c, x.transform, pcol) && !is_runner(c, x.transform)) || (depth > 0
        && exists|u: Seq<char>, q: Seq<char>|
        #[trigger]
        consumes(c, u, pcol) && is_runner(c, u) && #[trigger] produces(c, u, q)
            && fusible_behind(c, q, x, (depth - 1) as nat))
}

/// What one consumer of a collection adds to the runner's transforms behind it.
pub open spec fn adds_unfused(c: ComponentsV, u: Seq<char>, id: Seq<char>, depth: nat) -> bool {
    is_runner(c, u) && (u == id || (depth > 0 && exists|q: Seq<char>|
        #[trigger]
        produces(c, u, q) && unfused_behind(c, q, id, (depth - 1) as nat)))
}

/// What one consumer of a collection adds to the consumers behind it.
pub open spec fn adds_fusible(
    c: ComponentsV,
    pcol: Seq<char>,
    u: Seq<char>,
    x: SiblingV,
    depth: nat,
) -> bool {
    if is_runner(c, u) {
        depth > 0 && exists|q: Seq<char>|
            #[trigger]
            produces(c, u, q) && fusible_behind(c, q, x, (depth - 1) as nat)
    } else {
        x == SiblingV { pcol, transform: u }
    }
}

proof fn behind_by_consumer(c: ComponentsV, pcol: Seq<char>, depth: nat)
    ensures
        forall|id: Seq<char>|
            #[trigger]
            unfused_behind(c, pcol, id, depth) <==> exists|u: Seq<char>|
                #[trigger]
                consumes(c, u, pcol) && adds_unfused(c, u, id, depth),
        forall|x: SiblingV|
            #[trigger]
            fusible_behind(c, pcol, x, depth) <==> exists|u: Seq<char>|
                #[trigger]
                consumes(c, u, pcol) && adds_fusible(c, pcol, u, x, depth),
{
    assert forall|id: Seq<char>|
        #[trigger]
        unfused_behind(c, pcol, id, depth) <==> exists|u: Seq<char>|
            #[trigger]
            consumes(c, u, pcol) && adds_unfused(c, u, id, depth) by {
        if unfused_behind(c, pcol, id, depth) {
            if consumes(c, id, pcol) && is_runner(c, id) {
                assert(adds_unfused(c, id, id, depth));
            } else {
                let (u, q) = choose|u: Seq<char>, q: Seq<char>|
                    #[trigger]
                    consumes(c, u, pcol) && is_runner(c, u) && #[trigger] produces(c, u, q)
                        && unfused_behind(c, q, id, (depth - 1) as nat);
                assert(adds_unfused(c, u, id, depth));
            }
        }
        if exists|u: Seq<char>| #[trigger] consumes(c, u, pcol) && adds_unfused(c, u, id, depth) {
            let u = choose|u: Seq<char>|
                #[trigger]
                consumes(c, u, pcol) && adds_unfused(c, u, id, depth);
            if u != id {
                let q = choose|q: Seq<char>|
                    #[trigger]
                    produces(c, u, q) && unfused_behind(c, q, id, (depth - 1) as nat);
                assert(consumes(c, u, pcol) && is_runner(c, u) && produces(c, u, q));
            }
        }
    }
    assert forall|x: SiblingV|
        #[trigger]
        fusible_behind(c, pcol, x, depth) <==> exists|u: Seq<char>|
            #[trigger]
            consumes(c, u, pcol) && adds_fusible(c, pcol, u, x, depth) by {
        if fusible_behind(c, pcol, x, depth) {
            if x.pcol == pcol && consumes(c, x.transform, pcol) && !is_runner(c, x.transform) {
                assert(adds_fusible(c, pcol, x.transform, x, depth));
            } else {
                let (u, q) = choose|u: Seq<char>, q: Seq<char>|
                    #[trigger]
                    consumes(c, u, pcol) && is_runner(c, u) && #[trigger] produces(c, u, q)
                        && fusible_behind(c, q, x, (depth - 1) as nat);
                assert(adds_fusible(c, pcol, u, x, depth));
            }
        }
        if exists|u: Seq<char>|
            #[trigger]
            consumes(c, u, pcol) && adds_fusible(c, pcol, u, x, depth) {
            let u = choose|u: Seq<char>|
                #[trigger]
                consumes(c, u, pcol) && adds_fusible(c, pcol, u, x, depth);
            if is_runner(c, u) {
                let q = choose|q: Seq<char>|
                    #[trigger]
                    produces(c, u, q) && fusible_behind(c, q, x, (depth - 1) as nat);
                assert(consumes(c, u, pcol) && is_runner(c, u) && produces(c, u, q));
            }
        }
    }
}

/// Adds an id that is not there yet.
pub fn add_id(ids: &mut Vec<String>, id: &str)
    requires
        texts(old(ids)@).no_duplicates(),
    ensures
        texts(final(ids)@).no_duplicates(),
        forall|x: Seq<char>|
            #[trigger]
            texts(final(ids)@).contains(x) <==> texts(old(ids)@).contains(x) || x == id@,
{
    if !has_text(ids, id) {
        let ghost before = ids@;
        ids.push(id.to_owned());
        proof {
            assert(ids@.drop_last() =~= before);
            texts_pushed(before, ids@);
        }
    }
}

/// Adds the runner's transforms and the consumers behind the collection.
///
/// Behind a transform of the runner the search goes on, as far as there are none
/// but the runner's.
#[verifier::rlimit(60)]
pub(crate) fn collect_behind(
    pipeline: &QueryablePipeline,
    pcol: &str,
    unfused: &mut Vec<String>,
    fusible: &mut Vec<Sibling>,
    Ghost(depth): Ghost<nat>,
)
    requires
        pipeline.wf(),
        pipeline.model().pcollections.contains_key(pcol@),
        ends_within(pipeline.model(), pcol@, depth),
        texts(old(unfused)@).no_duplicates(),
        is_sorted(siblings_model(old(fusible)@)),
        belong(pipeline.model(), siblings_model(old(fusible)@)),
    ensures
        texts(final(unfused)@).no_duplicates(),
        is_sorted(siblings_model(final(fusible)@)),
        belong(pipeline.model(), siblings_model(final(fusible)@)),
        forall|id: Seq<char>|
            #[trigger]
            texts(final(unfused)@).contains(id) <==> texts(old(unfused)@).contains(id)
                || unfused_behind(pipeline.model(), pcol@, id, depth),
        forall|x: SiblingV|
            #[trigger]
            siblings_model(final(fusible)@).contains(x) <==> siblings_model(
                old(fusible)@,
            ).contains(x) || fusible_behind(pipeline.model(), pcol@, x, depth),
    decreases depth, 1nat,
{
    let ghost c = pipeline.model();
    let ghost p = pcol@;
    let ghost u0 = texts(unfused@);
    let ghost f0 = siblings_model(fusible@);
    let consumers: Vec<String> = pipeline.per_element_consumer_ids(pcol);
    let n: usize = consumers.len();
    let mut i: usize = 0;
    while i < n
        invariant
            pipeline.wf(),
            c == pipeline.model(),
            p == pcol@,
            c.pcollections.contains_key(p),
            ends_within(c, p, depth),
            n == consumers@.len(),
            i <= n,
            lists(consumers@, |id: Seq<char>| consumes(c, id, p)),
            texts(unfused@).no_duplicates(),
            is_sorted(siblings_model(fusible@)),
            belong(c, siblings_model(fusible@)),
            forall|id: Seq<char>|
                #[trigger]
                texts(unfused@).contains(id) <==> u0.contains(id) || exists|j: int|
                    0 <= j < i && adds_unfused(c, (#[trigger] consumers@[j])@, id, depth),
            forall|x: SiblingV|
                #[trigger]
                siblings_model(fusible@).contains(x) <==> f0.contains(x) || exists|j: int|
                    0 <= j < i && adds_fusible(c, p, (#[trigger] consumers@[j])@, x, depth),
        decreases n - i,
    {
        let ghost u = consumers@[i as int]@;
        let ghost u1 = texts(unfused@);
        let ghost f1 = siblings_model(fusible@);
        proof {
            assert(texts(consumers@)[i as int] == u);
            assert(texts(consumers@).contains(u));
            assert(consumes(c, u, p));
        }
        let node: PTransformNode = match pipeline.node(consumers[i].as_str()) {
            Some(node) => node,
            None => {
                assert(false);
                return;
            },
        };
        let runner: bool = match pipeline.get_environment(&node.transform) {
            Some(_) => false,
            None => true,
        };
        assert(runner == is_runner(c, u));
        if runner {
            add_id(unfused, consumers[i].as_str());
            let outputs: Vec<String> = pipeline.output_ids(&node.transform);
            collect_behind_all(pipeline, &outputs, unfused, fusible, Ghost(p), Ghost(u), Ghost(depth));
            proof {
                assert forall|id: Seq<char>|
                    #[trigger]
                    texts(unfused@).contains(id) <==> u1.contains(id) || adds_unfused(
                        c,
                        u,
                        id,
                        depth,
                    ) by {}
                assert forall|x: SiblingV|
                    #[trigger]
                    siblings_model(fusible@).contains(x) <==> f1.contains(x) || adds_fusible(
                        c,
                        p,
                        u,
                        x,
                        depth,
                    ) by {}
            }
        } else {
            let ghost held = fusible@;
            insert_sibling(
                fusible,
                Sibling { pcol: pcol.to_owned(), transform: consumers[i].clone() },
            );
            proof {
                let added = SiblingV { pcol: p, transform: u };
                assert forall|k: int|
                    0 <= k < siblings_model(fusible@).len() implies c.transforms.contains_key(
                    (#[trigger] siblings_model(fusible@)[k]).transform,
                ) && c.pcollections.contains_key(siblings_model(fusible@)[k].pcol) by {
                    let x = siblings_model(fusible@)[k];
                    assert(siblings_model(fusible@).contains(x));
                    if f1.contains(x) {
                        let q = choose|q: int| 0 <= q < f1.len() && f1[q] == x;
                        assert(f1[q] == x);
                    }
                }
                assert forall|id: Seq<char>|
                    #[trigger]
                    texts(unfused@).contains(id) <==> u1.contains(id) || adds_unfused(
                        c,
                        u,
                        id,
                        depth,
                    ) by {}
                assert forall|x: SiblingV|
                    #[trigger]
                    siblings_model(fusible@).contains(x) <==> f1.contains(x) || adds_fusible(
                        c,
                        p,
                        u,
                        x,
                        depth,
                    ) by {}
            }
        }
        proof {
            assert forall|id: Seq<char>|
                #[trigger]
                texts(unfused@).contains(id) <==> u0.contains(id) || exists|j: int|
                    0 <= j < i + 1 && adds_unfused(c, (#[trigger] consumers@[j])@, id, depth) by {
                if texts(unfused@).contains(id) {
                    if u1.contains(id) {
                        if !u0.contains(id) {
                            let j = choose|j: int|
                                0 <= j < i && adds_unfused(
                                    c,
                                    (#[trigger] consumers@[j])@,
                                    id,
                                    depth,
                                );
                            assert(adds_unfused(c, consumers@[j]@, id, depth));
                        }
                    } else {
                        assert(adds_unfused(c, consumers@[i as int]@, id, depth));
                    }
                }
            }
            assert forall|x: SiblingV|
                #[trigger]
                siblings_model(fusible@).contains(x) <==> f0.contains(x) || exists|j: int|
                    0 <= j < i + 1 && adds_fusible(
                        c,
                        p,
                        (#[trigger] consumers@[j])@,
                        x,
                        depth,
                    ) by {
                if siblings_model(fusible@).contains(x) {
                    if f1.contains(x) {
                        if !f0.contains(x) {
                            let j = choose|j: int|
                                0 <= j < i && adds_fusible(
                                    c,
                                    p,
                                    (#[trigger] consumers@[j])@,
                                    x,
                                    depth,
                                );
                            assert(adds_fusible(c, p, consumers@[j]@, x, depth));
                        }
                    } else {
                        assert(adds_fusible(c, p, consumers@[i as int]@, x, depth));
                    }
                }
            }
        }
        i = i + 1;
    }
    proof {
        behind_by_consumer(c, p, depth);
        assert forall|id: Seq<char>|
            #[trigger]
            texts(unfused@).contains(id) <==> u0.contains(id) || unfused_behind(
                c,
                p,
                id,
                depth,
            ) by {
            if unfused_behind(c, p, id, depth) {
                let u = choose|u: Seq<char>|
                    #[trigger]
                    consumes(c, u, p) && adds_unfused(c, u, id, depth);
                assert(texts(consumers@).contains(u));
                let j = choose|j: int|
                    0 <= j < texts(consumers@).len() && texts(consumers@)[j] == u;
                assert(consumers@[j]@ == u);
            }
            if texts(unfused@).contains(id) && !u0.contains(id) {
                let j = choose|j: int|
                    0 <= j < n && adds_unfused(c, (#[trigger] consumers@[j])@, id, depth);
                assert(texts(consumers@)[j] == consumers@[j]@);
                assert(texts(consumers@).contains(consumers@[j]@));
                assert(consumes(c, consumers@[j]@, p));
            }
        }
        assert forall|x: SiblingV|
            #[trigger]
            siblings_model(fusible@).contains(x) <==> f0.contains(x) || fusible_behind(
                c,
                p,
                x,
                depth,
            ) by {
            if fusible_behind(c, p, x, depth) {
                let u = choose|u: Seq<char>|
                    #[trigger]
                    consumes(c, u, p) && adds_fusible(c, p, u, x, depth);
                assert(texts(consumers@).contains(u));
                let j = choose|j: int|
                    0 <= j < texts(consumers@).len() && texts(consumers@)[j] == u;
                assert(consumers@[j]@ == u);
            }
            if siblings_model(fusible@).contains(x) && !f0.contains(x) {
                let j = choose|j: int|
                    0 <= j < n && adds_fusible(c, p, (#[trigger] consumers@[j])@, x, depth);
                assert(texts(consumers@)[j] == consumers@[j]@);
                assert(texts(consumers@).contains(consumers@[j]@));
                assert(consumes(c, consumers@[j]@, p));
            }
        }
    }
}

/// Adds what is behind the outputs of a transform of the runner.
#[verifier::rlimit(60)]
fn collect_behind_all(
    pipeline: &QueryablePipeline,
    outputs: &Vec<String>,
    unfused: &mut Vec<String>,
    fusible: &mut Vec<Sibling>,
    Ghost(p): Ghost<Seq<char>>,
    Ghost(u): Ghost<Seq<char>>,
    Ghost(depth): Ghost<nat>,
)
    requires
        pipeline.wf(),
        ends_within(pipeline.model(), p, depth),
        consumes(pipeline.model(), u, p),
        is_runner(pipeline.model(), u),
        lists(
            outputs@,
            |q: Seq<char>| gives(pipeline.model(), pipeline.model().transforms[u], q),
        ),
        texts(old(unfused)@).no_duplicates(),
        is_sorted(siblings_model(old(fusible)@)),
        belong(pipeline.model(), siblings_model(old(fusible)@)),
    ensures
        texts(final(unfused)@).no_duplicates(),
        is_sorted(siblings_model(final(fusible)@)),
        belong(pipeline.model(), siblings_model(final(fusible)@)),
        forall|id: Seq<char>|
            #[trigger]
            texts(final(unfused)@).contains(id) <==> texts(old(unfused)@).contains(id) || (depth > 0
                && exists|q: Seq<char>|
                #[trigger]
                produces(pipeline.model(), u, q) && unfused_behind(
                    pipeline.model(),
                    q,
                    id,
                    (depth - 1) as nat,
                )),
        forall|x: SiblingV|
            #[trigger]
            siblings_model(final(fusible)@).contains(x) <==> siblings_model(
                old(fusible)@,
            ).contains(x) || (depth > 0 && exists|q: Seq<char>|
                #[trigger]
                produces(pipeline.model(), u, q) && fusible_behind(
                    pipeline.model(),
                    q,
                    x,
                    (depth - 1) as nat,
                )),
    decreases depth, 0nat,
{
    let ghost c = pipeline.model();
    let ghost below = (depth - 1) as nat;
    let ghost u0 = texts(unfused@);
    let ghost f0 = siblings_model(fusible@);
    let n: usize = outputs.len();
    let mut i: usize = 0;
    while i < n
        invariant
            pipeline.wf(),
            c == pipeline.model(),
            below == (depth - 1) as nat,
            ends_within(c, p, depth),
            consumes(c, u, p),
            is_runner(c, u),
            n == outputs@.len(),
            i <= n,
            lists(outputs@, |q: Seq<char>| gives(c, c.transforms[u], q)),
            texts(unfused@).no_duplicates(),
            is_sorted(siblings_model(fusible@)),
            belong(c, siblings_model(fusible@)),
            forall|id: Seq<char>|
                #[trigger]
                texts(unfused@).contains(id) <==> u0.contains(id) || exists|j: int|
                    0 <= j < i && unfused_behind(c, (#[trigger] outputs@[j])@, id, below),
            forall|x: SiblingV|
                #[trigger]
                siblings_model(fusible@).contains(x) <==> f0.contains(x) || exists|j: int|
                    0 <= j < i && fusible_behind(c, (#[trigger] outputs@[j])@, x, below),
        decreases n - i,
    {
        let ghost q = outputs@[i as int]@;
        let ghost u1 = texts(unfused@);
        let ghost f1 = siblings_model(fusible@);
        proof {
            assert(texts(outputs@)[i as int] == q);
            assert(texts(outputs@).contains(q));
            assert(gives(c, c.transforms[u], q));
            assert(produces(c, u, q));
            assert(depth > 0 && ends_within(c, q, below));
        }
        collect_behind(pipeline, outputs[i].as_str(), unfused, fusible, Ghost(below));
        proof {
            assert forall|id: Seq<char>|
                #[trigger]
                texts(unfused@).contains(id) <==> u0.contains(id) || exists|j: int|
                    0 <= j < i + 1 && unfused_behind(c, (#[trigger] outputs@[j])@, id, below) by {
                if texts(unfused@).contains(id) {
                    if u1.contains(id) {
                        if !u0.contains(id) {
                            let j = choose|j: int|
                                0 <= j < i && unfused_behind(
                                    c,
                                    (#[trigger] outputs@[j])@,
                                    id,
                                    below,
                                );
                            assert(unfused_behind(c, outputs@[j]@, id, below));
                        }
                    } else {
                        assert(unfused_behind(c, outputs@[i as int]@, id, below));
                    }
                }
            }
            assert forall|x: SiblingV|
                #[trigger]
                siblings_model(fusible@).contains(x) <==> f0.contains(x) || exists|j: int|
                    0 <= j < i + 1 && fusible_behind(c, (#[trigger] outputs@[j])@, x, below) by {
                if siblings_model(fusible@).contains(x) {
                    if f1.contains(x) {
                        if !f0.contains(x) {
                            let j = choose|j: int|
                                0 <= j < i && fusible_behind(
                                    c,
                                    (#[trigger] outputs@[j])@,
                                    x,
                                    below,
                                );
                            assert(fusible_behind(c, outputs@[j]@, x, below));
                        }
                    } else {
                        assert(fusible_behind(c, outputs@[i as int]@, x, below));
                    }
                }
            }
        }
        i = i + 1;
    }
    proof {
        assert forall|id: Seq<char>|
            #[trigger]
            texts(unfused@).contains(id) <==> u0.contains(id) || (depth > 0 && exists|
                q: Seq<char>,
            |
                #[trigger]
                produces(c, u, q) && unfused_behind(c, q, id, below)) by {
            if depth > 0 && exists|q: Seq<char>|
                #[trigger]
                produces(c, u, q) && unfused_behind(c, q, id, below) {
                let q = choose|q: Seq<char>|
                    #[trigger]
                    produces(c, u, q) && unfused_behind(c, q, id, below);
                assert(gives(c, c.transforms[u], q));
                assert(texts(outputs@).contains(q));
                let j = choose|j: int| 0 <= j < texts(outputs@).len() && texts(outputs@)[j] == q;
                assert(outputs@[j]@ == q);
            }
            if texts(unfused@).contains(id) && !u0.contains(id) {
                let j = choose|j: int|
                    0 <= j < n && unfused_behind(c, (#[trigger] outputs@[j])@, id, below);
                let q = outputs@[j]@;
                assert(texts(outputs@)[j] == q);
                assert(texts(outputs@).contains(q));
                assert(produces(c, u, q));
                assert(depth > 0 && ends_within(c, q, below));
            }
        }
        assert forall|x: SiblingV|
            #[trigger]
            siblings_model(fusible@).contains(x) <==> f0.contains(x) || (depth > 0 && exists|
                q: Seq<char>,
            |
                #[trigger]
                produces(c, u, q) && fusible_behind(c, q, x, below)) by {
            if depth > 0 && exists|q: Seq<char>|
                #[trigger]
                produces(c, u, q) && fusible_behind(c, q, x, below) {
                let q = choose|q: Seq<char>|
                    #[trigger]
                    produces(c, u, q) && fusible_behind(c, q, x, below);
                assert(gives(c, c.transforms[u], q));
                assert(texts(outputs@).contains(q));
                let j = choose|j: int| 0 <= j < texts(outputs@).len() && texts(outputs@)[j] == q;
                assert(outputs@[j]@ == q);
            }
            if siblings_model(fusible@).contains(x) && !f0.contains(x) {
                let j = choose|j: int|
                    0 <= j < n && fusible_behind(c, (#[trigger] outputs@[j])@, x, below);
                let q = outputs@[j]@;
                assert(texts(outputs@)[j] == q);
                assert(texts(outputs@).contains(q));
                assert(produces(c, u, q));
                assert(depth > 0 && ends_within(c, q, below));
            }
        }
    }
}

} // verus!
