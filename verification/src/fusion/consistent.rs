//! Groups of siblings are the same wherever they are found.
use crate::fusion::groups::{
    fusible_behind, grouped, groups_are_compatible, groups_cover, in_groups, is_group, is_runner,
    is_sorted, may_join, place, sibling_before, sibling_before_total, SiblingV,
};
use crate::fusion::pipeline::{consumes, is_root, produces};
use crate::fusion::pipeline_fuser::{
    are_behind, are_first, is_due, is_fusible_behind, is_group_behind, is_run, is_torn,
};
use crate::fusion::stage::{pcol_ids, ExecutableStage};
use crate::jobservice::job::are_root_consumers;
use crate::model::ComponentsV;
use vstd::prelude::*;

verus! {

// ---------------------------------------------------------------------------
// Consumers with all their siblings
// ---------------------------------------------------------------------------
/// Whether the consumer runs in an environment.
pub open spec fn is_sdk_consumer(c: ComponentsV, x: SiblingV) -> bool {
    consumes(c, x.transform, x.pcol) && !is_runner(c, x.transform)
}

/// Whether with each consumer all others of its collection are there.
pub open spec fn has_all_siblings(c: ComponentsV, s: Seq<SiblingV>) -> bool {
    &&& forall|x: SiblingV| #[trigger] s.contains(x) ==> is_sdk_consumer(c, x)
    &&& forall|x: SiblingV, y: SiblingV|
        #[trigger]
        s.contains(x) && x.pcol == y.pcol && #[trigger] is_sdk_consumer(c, y) ==> s.contains(y)
}

proof fn behind_has_all(c: ComponentsV, p: Seq<char>, x: SiblingV, y: SiblingV, d: nat)
    requires
        fusible_behind(c, p, x, d),
    ensures
        is_sdk_consumer(c, x),
        x.pcol == y.pcol && is_sdk_consumer(c, y) ==> fusible_behind(c, p, y, d),
    decreases d,
{
    if !(x.pcol == p && consumes(c, x.transform, p) && !is_runner(c, x.transform)) {
        let (u, q) = choose|u: Seq<char>, q: Seq<char>|
            #[trigger]
            consumes(c, u, p) && is_runner(c, u) && #[trigger] produces(c, u, q)
                && fusible_behind(c, q, x, (d - 1) as nat);
        behind_has_all(c, q, x, y, (d - 1) as nat);
        if x.pcol == y.pcol && is_sdk_consumer(c, y) {
            assert(consumes(c, u, p) && produces(c, u, q));
        }
    }
}

/// The consumers behind a collection come with all their siblings.
pub proof fn behind_is_whole(c: ComponentsV, p: Seq<char>, s: Seq<SiblingV>)
    requires
        are_behind(c, p, s),
    ensures
        has_all_siblings(c, s),
{
    assert forall|x: SiblingV| #[trigger] s.contains(x) implies is_sdk_consumer(c, x) by {
        let d = choose|d: nat| fusible_behind(c, p, x, d);
        behind_has_all(c, p, x, x, d);
    }
    assert forall|x: SiblingV, y: SiblingV|
        #[trigger]
        s.contains(x) && x.pcol == y.pcol && #[trigger] is_sdk_consumer(c, y) implies s.contains(
        y,
    ) by {
        let d = choose|d: nat| fusible_behind(c, p, x, d);
        behind_has_all(c, p, x, y, d);
        assert(is_fusible_behind(c, p, y));
    }
}

/// The consumers that a pipeline starts with come with all their siblings.
pub proof fn roots_are_whole(c: ComponentsV, s: Seq<SiblingV>)
    requires
        are_root_consumers(c, s),
    ensures
        has_all_siblings(c, s),
{
    assert forall|x: SiblingV, y: SiblingV|
        #[trigger]
        s.contains(x) && x.pcol == y.pcol && #[trigger] is_sdk_consumer(c, y) implies s.contains(
        y,
    ) by {
        let (r, p) = choose|r: Seq<char>, p: Seq<char>|
            is_root(c, r) && #[trigger] produces(c, r, p) && is_fusible_behind(c, p, x);
        let d = choose|d: nat| fusible_behind(c, p, x, d);
        behind_has_all(c, p, x, y, d);
        assert(is_fusible_behind(c, p, y));
        assert(produces(c, r, p));
    }
    assert forall|x: SiblingV| #[trigger] s.contains(x) implies is_sdk_consumer(c, x) by {
        let (r, p) = choose|r: Seq<char>, p: Seq<char>|
            is_root(c, r) && #[trigger] produces(c, r, p) && is_fusible_behind(c, p, x);
        let d = choose|d: nat| fusible_behind(c, p, x, d);
        behind_has_all(c, p, x, x, d);
    }
}

// ---------------------------------------------------------------------------
// The groups of one collection
// ---------------------------------------------------------------------------
/// The consumers of one collection.
spec fn only(s: Seq<SiblingV>, q: Seq<char>) -> Seq<SiblingV>
    decreases s.len(),
{
    if s.len() == 0 {
        seq![]
    } else if s.last().pcol == q {
        only(s.drop_last(), q).push(s.last())
    } else {
        only(s.drop_last(), q)
    }
}

proof fn only_holds(s: Seq<SiblingV>, q: Seq<char>, x: SiblingV)
    ensures
        only(s, q).contains(x) <==> s.contains(x) && x.pcol == q,
    decreases s.len(),
{
    if s.len() > 0 {
        let most = s.drop_last();
        only_holds(most, q, x);
        if most.contains(x) {
            let i = choose|i: int| 0 <= i < most.len() && most[i] == x;
            assert(s[i] == x);
        }
        if s.contains(x) {
            let i = choose|i: int| 0 <= i < s.len() && s[i] == x;
            if i < most.len() {
                assert(most[i] == x);
            }
        }
        if s.last().pcol == q {
            let o = only(most, q);
            let all = only(s, q);
            if o.contains(x) {
                let i = choose|i: int| 0 <= i < o.len() && o[i] == x;
                assert(all[i] == x);
            }
            if x == s.last() {
                assert(all[o.len() as int] == x);
            }
            if all.contains(x) {
                let i = choose|i: int| 0 <= i < all.len() && all[i] == x;
                if i < o.len() {
                    assert(o[i] == x);
                }
            }
        }
    }
}

proof fn only_is_sorted(s: Seq<SiblingV>, q: Seq<char>)
    requires
        is_sorted(s),
    ensures
        is_sorted(only(s, q)),
    decreases s.len(),
{
    if s.len() > 0 {
        let most = s.drop_last();
        assert(is_sorted(most)) by {
            assert forall|i: int, j: int| 0 <= i < j < most.len() implies sibling_before(
                #[trigger] most[i],
                #[trigger] most[j],
            ) by {
                assert(sibling_before(s[i], s[j]));
            }
        }
        only_is_sorted(most, q);
        if s.last().pcol == q {
            let o = only(most, q);
            let all = only(s, q);
            assert forall|i: int, j: int| 0 <= i < j < all.len() implies sibling_before(
                #[trigger] all[i],
                #[trigger] all[j],
            ) by {
                assert(all[i] == o[i]);
                if j < o.len() {
                    assert(all[j] == o[j]);
                } else {
                    only_holds(most, q, o[i]);
                    assert(o.contains(o[i]));
                    let k = choose|k: int| 0 <= k < most.len() && most[k] == o[i];
                    assert(s[k] == o[i]);
                    assert(sibling_before(s[k], s[s.len() - 1]));
                }
            }
        }
    }
}

/// Consumers in their order are known by what they are.
proof fn sorted_is_unique(a: Seq<SiblingV>, b: Seq<SiblingV>)
    requires
        is_sorted(a),
        is_sorted(b),
        forall|x: SiblingV| #[trigger] a.contains(x) <==> b.contains(x),
    ensures
        a == b,
    decreases a.len(),
{
    if a.len() == 0 {
        if b.len() > 0 {
            assert(b.contains(b[0]));
            assert(a.contains(b[0]));
        }
        assert(a =~= b);
    } else {
        assert(a.contains(a[0]));
        assert(b.contains(a[0]));
        assert(b.len() > 0);
        let x = a.last();
        let y = b.last();
        assert(a.contains(x) && b.contains(y));
        assert(b.contains(x) && a.contains(y));
        let i = choose|i: int| 0 <= i < b.len() && b[i] == x;
        let j = choose|j: int| 0 <= j < a.len() && a[j] == y;
        sibling_before_total(x, y);
        if x != y {
            assert(sibling_before(b[i], b[b.len() - 1]));
            assert(sibling_before(a[j], a[a.len() - 1]));
        }
        let p = a.drop_last();
        let q = b.drop_last();
        assert(is_sorted(p)) by {
            assert forall|k: int, l: int| 0 <= k < l < p.len() implies sibling_before(
                #[trigger] p[k],
                #[trigger] p[l],
            ) by {
                assert(sibling_before(a[k], a[l]));
            }
        }
        assert(is_sorted(q)) by {
            assert forall|k: int, l: int| 0 <= k < l < q.len() implies sibling_before(
                #[trigger] q[k],
                #[trigger] q[l],
            ) by {
                assert(sibling_before(b[k], b[l]));
            }
        }
        assert forall|z: SiblingV| #[trigger] p.contains(z) <==> q.contains(z) by {
            if p.contains(z) {
                let k = choose|k: int| 0 <= k < p.len() && p[k] == z;
                assert(a[k] == z);
                assert(sibling_before(a[k], a[a.len() - 1]));
                sibling_before_total(z, x);
                assert(a.contains(z));
                assert(b.contains(z));
                let l = choose|l: int| 0 <= l < b.len() && b[l] == z;
                assert(q[l] == z);
            }
            if q.contains(z) {
                let k = choose|k: int| 0 <= k < q.len() && q[k] == z;
                assert(b[k] == z);
                assert(sibling_before(b[k], b[b.len() - 1]));
                sibling_before_total(z, y);
                assert(a.contains(z));
                let l = choose|l: int| 0 <= l < a.len() && a[l] == z;
                assert(p[l] == z);
            }
        }
        sorted_is_unique(p, q);
        assert(a =~= p.push(x));
        assert(b =~= q.push(y));
    }
}

/// Where a consumer goes among the groups.
spec fn put(c: ComponentsV, rest: Seq<Seq<SiblingV>>, x: SiblingV) -> Seq<Seq<SiblingV>>
    decreases rest.len(),
{
    if rest.len() == 0 {
        seq![seq![x]]
    } else if may_join(c, rest[0], x) {
        seq![rest[0].push(x)] + rest.skip(1)
    } else {
        seq![rest[0]] + put(c, rest.skip(1), x)
    }
}

proof fn place_is_put(c: ComponentsV, groups: Seq<Seq<SiblingV>>, x: SiblingV, i: nat)
    requires
        i <= groups.len(),
    ensures
        place(c, groups, x, i) == groups.take(i as int) + put(c, groups.skip(i as int), x),
    decreases groups.len() - i,
{
    let rest = groups.skip(i as int);
    if i == groups.len() {
        assert(rest =~= seq![]);
        assert(groups.push(seq![x]) =~= groups.take(i as int) + seq![seq![x]]);
    } else {
        assert(rest[0] == groups[i as int]);
        assert(rest.skip(1) =~= groups.skip((i + 1) as int));
        if may_join(c, groups[i as int], x) {
            assert(groups.update(i as int, groups[i as int].push(x)) =~= groups.take(i as int) + (
            seq![rest[0].push(x)] + rest.skip(1)));
        } else {
            place_is_put(c, groups, x, i + 1);
            assert(groups.take((i + 1) as int) + put(c, groups.skip((i + 1) as int), x) =~= groups.take(i as int) + (
            seq![rest[0]] + put(c, rest.skip(1), x)));
        }
    }
}

/// The groups of one collection.
spec fn keep(gs: Seq<Seq<SiblingV>>, q: Seq<char>) -> Seq<Seq<SiblingV>>
    decreases gs.len(),
{
    if gs.len() == 0 {
        seq![]
    } else if gs[0].len() > 0 && gs[0][0].pcol == q {
        seq![gs[0]] + keep(gs.skip(1), q)
    } else {
        keep(gs.skip(1), q)
    }
}

proof fn keep_first(g: Seq<SiblingV>, gs: Seq<Seq<SiblingV>>, q: Seq<char>)
    ensures
        keep(seq![g] + gs, q) == (if g.len() > 0 && g[0].pcol == q {
            seq![g] + keep(gs, q)
        } else {
            keep(gs, q)
        }),
{
    assert((seq![g] + gs).skip(1) =~= gs);
    assert((seq![g] + gs)[0] == g);
}

proof fn put_first(c: ComponentsV, g: Seq<SiblingV>, gs: Seq<Seq<SiblingV>>, x: SiblingV)
    ensures
        put(c, seq![g] + gs, x) == (if may_join(c, g, x) {
            seq![g.push(x)] + gs
        } else {
            seq![g] + put(c, gs, x)
        }),
{
    assert((seq![g] + gs).skip(1) =~= gs);
    assert((seq![g] + gs)[0] == g);
}

proof fn keep_put(c: ComponentsV, rest: Seq<Seq<SiblingV>>, x: SiblingV, q: Seq<char>)
    requires
        forall|k: int| 0 <= k < rest.len() ==> (#[trigger] rest[k]).len() > 0,
    ensures
        x.pcol == q ==> keep(put(c, rest, x), q) == put(c, keep(rest, q), x),
        x.pcol != q ==> keep(put(c, rest, x), q) == keep(rest, q),
    decreases rest.len(),
{
    if rest.len() == 0 {
        let none: Seq<Seq<SiblingV>> = seq![];
        assert(rest =~= none);
        assert(seq![seq![x]] =~= seq![seq![x]] + none);
        keep_first(seq![x], none, q);
        assert(seq![seq![x]] + keep(none, q) =~= seq![seq![x]]);
    } else {
        let g = rest[0];
        let more = rest.skip(1);
        assert forall|k: int| 0 <= k < more.len() implies (#[trigger] more[k]).len() > 0 by {
            assert(more[k] == rest[k + 1]);
        }
        keep_put(c, more, x, q);
        if may_join(c, g, x) {
            assert(g.push(x)[0] == g[0]);
            keep_first(g.push(x), more, q);
            if x.pcol == q {
                put_first(c, g, keep(more, q), x);
            }
        } else {
            keep_first(g, put(c, more, x), q);
            if g[0].pcol == q && x.pcol == q {
                put_first(c, g, keep(more, q), x);
            }
        }
    }
}

/// The groups of one collection depend on its consumers alone.
proof fn keep_grouped(c: ComponentsV, s: Seq<SiblingV>, q: Seq<char>)
    ensures
        keep(grouped(c, s), q) == grouped(c, only(s, q)),
    decreases s.len(),
{
    if s.len() > 0 {
        let most = s.drop_last();
        let x = s.last();
        let gs = grouped(c, most);
        keep_grouped(c, most, q);
        groups_are_compatible(c, most);
        place_is_put(c, gs, x, 0);
        assert(gs.take(0) + put(c, gs.skip(0), x) =~= put(c, gs.skip(0), x));
        assert(gs.skip(0) =~= gs);
        assert forall|k: int| 0 <= k < gs.len() implies (#[trigger] gs[k]).len() > 0 by {
            assert(is_group(c, gs[k]));
        }
        keep_put(c, gs, x, q);
        if x.pcol == q {
            let o = only(most, q);
            let go = grouped(c, o);
            assert(only(s, q).drop_last() =~= o);
            assert(only(s, q).last() == x);
            place_is_put(c, go, x, 0);
            assert(go.take(0) + put(c, go.skip(0), x) =~= put(c, go.skip(0), x));
            assert(go.skip(0) =~= go);
        }
    }
}

proof fn keep_holds(gs: Seq<Seq<SiblingV>>, q: Seq<char>, i: int)
    requires
        0 <= i < gs.len(),
        gs[i].len() > 0,
        gs[i][0].pcol == q,
    ensures
        keep(gs, q).contains(gs[i]),
    decreases gs.len(),
{
    let more = gs.skip(1);
    let all = keep(gs, q);
    if i == 0 {
        assert(all[0] == gs[0]);
    } else {
        assert(more[i - 1] == gs[i]);
        keep_holds(more, q, i - 1);
        let k = choose|k: int| 0 <= k < keep(more, q).len() && keep(more, q)[k] == gs[i];
        if gs[0].len() > 0 && gs[0][0].pcol == q {
            assert(all[k + 1] == gs[i]);
        } else {
            assert(all[k] == gs[i]);
        }
    }
}

// ---------------------------------------------------------------------------
// Groups have nothing in common
// ---------------------------------------------------------------------------
/// Whether no consumer is in two of the groups.
pub open spec fn apart(gs: Seq<Seq<SiblingV>>) -> bool {
    forall|i: int, j: int, y: SiblingV|
        0 <= i < gs.len() && 0 <= j < gs.len() && #[trigger] gs[i].contains(y)
            && #[trigger] gs[j].contains(y) ==> i == j
}

proof fn placed_apart(c: ComponentsV, gs: Seq<Seq<SiblingV>>, x: SiblingV, i: nat)
    requires
        apart(gs),
        !in_groups(gs, x),
    ensures
        apart(place(c, gs, x, i)),
    decreases gs.len() - i,
{
    let r = place(c, gs, x, i);
    if i >= gs.len() {
        assert forall|a: int, b: int, y: SiblingV|
            0 <= a < r.len() && 0 <= b < r.len() && #[trigger] r[a].contains(y)
                && #[trigger] r[b].contains(y) implies a == b by {
            if a < gs.len() {
                assert(gs[a].contains(y));
            } else {
                assert(y == x);
            }
            if b < gs.len() {
                assert(gs[b].contains(y));
            } else {
                assert(y == x);
            }
        }
    } else if may_join(c, gs[i as int], x) {
        let g = gs[i as int];
        assert forall|y: SiblingV| #[trigger] g.push(x).contains(y) implies g.contains(y) || y
            == x by {
            let k = choose|k: int| 0 <= k < g.push(x).len() && g.push(x)[k] == y;
            if k < g.len() {
                assert(g[k] == y);
            }
        }
        assert forall|a: int, b: int, y: SiblingV|
            0 <= a < r.len() && 0 <= b < r.len() && #[trigger] r[a].contains(y)
                && #[trigger] r[b].contains(y) implies a == b by {
            if a != i {
                assert(r[a] == gs[a]);
                assert(gs[a].contains(y));
            } else {
                assert(r[a] == g.push(x));
            }
            if b != i {
                assert(r[b] == gs[b]);
                assert(gs[b].contains(y));
            } else {
                assert(r[b] == g.push(x));
            }
            if y != x {
                assert(gs[a].contains(y) && gs[b].contains(y));
            } else {
                if a != i {
                    assert(in_groups(gs, x));
                }
                if b != i {
                    assert(in_groups(gs, x));
                }
            }
        }
    } else {
        placed_apart(c, gs, x, i + 1);
    }
}

/// No consumer is in two groups.
pub proof fn groups_are_apart(c: ComponentsV, s: Seq<SiblingV>)
    requires
        is_sorted(s),
    ensures
        apart(grouped(c, s)),
    decreases s.len(),
{
    if s.len() > 0 {
        let most = s.drop_last();
        assert(is_sorted(most)) by {
            assert forall|i: int, j: int| 0 <= i < j < most.len() implies sibling_before(
                #[trigger] most[i],
                #[trigger] most[j],
            ) by {
                assert(sibling_before(s[i], s[j]));
            }
        }
        groups_are_apart(c, most);
        groups_cover(c, most, s.last());
        if most.contains(s.last()) {
            let i = choose|i: int| 0 <= i < most.len() && most[i] == s.last();
            assert(sibling_before(s[i], s[s.len() - 1]));
            sibling_before_total(s[i], s.last());
        }
        placed_apart(c, grouped(c, most), s.last(), 0);
    }
}

// ---------------------------------------------------------------------------
// Consistency
// ---------------------------------------------------------------------------
/// Whether the group is one of consumers that have all their siblings.
spec fn is_whole_group(c: ComponentsV, g: Seq<SiblingV>) -> bool {
    exists|s: Seq<SiblingV>|
        is_sorted(s) && #[trigger] has_all_siblings(c, s) && grouped(c, s).contains(g)
}

proof fn due_is_whole(
    c: ComponentsV,
    initial: Seq<SiblingV>,
    stages: Seq<ExecutableStage>,
    n: int,
    g: Seq<SiblingV>,
)
    requires
        has_all_siblings(c, initial),
        is_due(c, initial, stages, n, g),
    ensures
        is_whole_group(c, g),
{
    if exists|s: Seq<SiblingV>| #[trigger] are_first(initial, s) && grouped(c, s).contains(g) {
        let s = choose|s: Seq<SiblingV>|
            #[trigger]
            are_first(initial, s) && grouped(c, s).contains(g);
        assert(has_all_siblings(c, s));
    } else {
        let k = choose|k: int| 0 <= k < n && is_group_behind(c, #[trigger] stages[k], g);
        let (p, s) = choose|p: Seq<char>, s: Seq<SiblingV>|
            #[trigger]
            pcol_ids(stages[k].output_pcols@).contains(p) && #[trigger] are_behind(c, p, s)
                && grouped(c, s).contains(g);
        behind_is_whole(c, p, s);
    }
}

/// Two groups that share a consumer are the same.
proof fn sharing_is_equal(c: ComponentsV, g: Seq<SiblingV>, h: Seq<SiblingV>, x: SiblingV)
    requires
        is_whole_group(c, g),
        is_whole_group(c, h),
        g.contains(x),
        h.contains(x),
    ensures
        g == h,
{
    let s = choose|s: Seq<SiblingV>|
        is_sorted(s) && #[trigger] has_all_siblings(c, s) && grouped(c, s).contains(g);
    let t = choose|t: Seq<SiblingV>|
        is_sorted(t) && #[trigger] has_all_siblings(c, t) && grouped(c, t).contains(h);
    let q = x.pcol;
    let i = choose|i: int| 0 <= i < grouped(c, s).len() && grouped(c, s)[i] == g;
    let j = choose|j: int| 0 <= j < grouped(c, t).len() && grouped(c, t)[j] == h;
    groups_are_compatible(c, s);
    groups_are_compatible(c, t);
    assert(is_group(c, grouped(c, s)[i]));
    assert(is_group(c, grouped(c, t)[j]));
    let a = choose|a: int| 0 <= a < g.len() && g[a] == x;
    let b = choose|b: int| 0 <= b < h.len() && h[b] == x;
    assert(g[0].pcol == q && h[0].pcol == q) by {
        assert(crate::fusion::groups::same_key(c, g[0], g[a]));
        assert(crate::fusion::groups::same_key(c, h[0], h[b]));
    }
    assert(in_groups(grouped(c, s), x));
    assert(in_groups(grouped(c, t), x));
    groups_cover(c, s, x);
    groups_cover(c, t, x);
    let o = only(s, q);
    let p = only(t, q);
    only_is_sorted(s, q);
    only_is_sorted(t, q);
    assert forall|y: SiblingV| #[trigger] o.contains(y) <==> p.contains(y) by {
        only_holds(s, q, y);
        only_holds(t, q, y);
        if s.contains(y) && y.pcol == q {
            assert(is_sdk_consumer(c, y));
            assert(t.contains(x));
        }
        if t.contains(y) && y.pcol == q {
            assert(is_sdk_consumer(c, y));
            assert(s.contains(x));
        }
    }
    sorted_is_unique(o, p);
    keep_grouped(c, s, q);
    keep_grouped(c, t, q);
    keep_holds(grouped(c, s), q, i);
    keep_holds(grouped(c, t), q, j);
    groups_are_apart(c, o);
    let go = grouped(c, o);
    let k = choose|k: int| 0 <= k < go.len() && go[k] == g;
    let l = choose|l: int| 0 <= l < go.len() && go[l] == h;
    assert(go[k].contains(x) && go[l].contains(x));
}

/// Where a run starts with consumers that have all their siblings, it never meets a
/// group of which a part is in other groups.
pub proof fn siblings_are_consistent(
    c: ComponentsV,
    initial: Seq<SiblingV>,
    groups: Seq<Seq<SiblingV>>,
    stages: Seq<ExecutableStage>,
    g: Seq<SiblingV>,
)
    requires
        has_all_siblings(c, initial),
        is_run(c, initial, groups, stages),
        is_due(c, initial, stages, stages.len() as int, g),
    ensures
        !is_torn(groups, g),
{
    if is_torn(groups, g) {
        let x = choose|x: SiblingV| #[trigger] g.contains(x) && in_groups(groups, x);
        let y = choose|y: SiblingV| #[trigger] g.contains(y) && !in_groups(groups, y);
        let k = choose|k: int| 0 <= k < groups.len() && (#[trigger] groups[k]).contains(x);
        due_is_whole(c, initial, stages, stages.len() as int, g);
        due_is_whole(c, initial, stages, k, groups[k]);
        sharing_is_equal(c, g, groups[k], x);
        assert(groups[k].contains(y));
        assert(in_groups(groups, y));
    }
}

} // verus!
