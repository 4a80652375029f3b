//! What fusing a pipeline comes to.
use crate::fusion::dedup::{
    contested, contested_is_merged, copies, deduplicated, fills, flattens_into, has, is_any_partial,
    node_after, partial_maps, partials_right, stage_after, stage_right, transform_right,
    DeduplicationResult,
};
use crate::fusion::fuser::{
    collection_fuses, compatible, compatible_one_way, fuses, may_have_side_inputs, par_do_compatible,
    par_do_fuses,
};
use crate::fusion::groups::{
    fusible_behind, grouped, groups_are_compatible, in_groups, is_group, is_runner, may_join,
    node_at, place, same_key, unfused_behind, SiblingV,
};
use crate::fusion::partials::{is_partial, output_renamed, with_outputs};
use crate::fusion::payload::par_do_payload;
use crate::fusion::pipeline::{
    consumes, environment_of, gives, is_root, par_do_of, produces, side_consumes, side_names,
};
use crate::fusion::pipeline_fuser::{
    are_behind, are_first, are_unfused, is_complete, is_due, is_fusible_behind, is_group_behind,
    is_run, is_stage_of, is_unfused_behind, transforms_of,
};
use crate::fusion::sanitize::sanitized;
use crate::fusion::stage::{node_ids, pcol_ids, ExecutableStage};
use crate::fusion::stage_fuser::{is_stage, stage_closed, stage_reaches};
use crate::jobservice::job::{are_root_consumers, are_root_unfused};
use crate::model::{CollectionV, ComponentsV, NodeV, PTransformNode, TransformV};
use vstd::prelude::*;
use vstd::string::*;

verus! {

// ---------------------------------------------------------------------------
// Words for the laws
// ---------------------------------------------------------------------------
/// Whether a ParDo with this payload keeps nothing between elements and looks at nothing
/// beside them.
pub open spec fn is_plain(payload: Seq<u8>) -> bool {
    par_do_payload(payload) matches Some(p) && p.side_inputs == Set::<Seq<char>>::empty()
        && p.state_specs == Set::<Seq<char>>::empty() && p.timer_families == Set::<
        Seq<char>,
    >::empty()
}

/// Whether the two run in the same environment, or both in none.
pub open spec fn share_environment(c: ComponentsV, a: TransformV, b: TransformV) -> bool {
    if c.environments.contains_key(a.environment_id) {
        c.environments.contains_key(b.environment_id) && c.environments[a.environment_id]
            == c.environments[b.environment_id]
    } else {
        !c.environments.contains_key(b.environment_id)
    }
}

/// Whether the transform is a part of a combine that workers run, or puts elements into
/// windows.
pub open spec fn is_simple(t: TransformV) -> bool {
    t.spec is Some && (t.spec->0.urn == "beam:transform:combine_per_key_precombine:v1"@
        || t.spec->0.urn == "beam:transform:combine_per_key_merge_accumulators:v1"@
        || t.spec->0.urn == "beam:transform:combine_per_key_extract_outputs:v1"@ || t.spec->0.urn
        == "beam:transform:window_into:v1"@)
}

/// Whether the transform is a ParDo, or one of the parts of a splittable one that can be
/// fused.
pub open spec fn is_doing(t: TransformV) -> bool {
    t.spec is Some && (t.spec->0.urn == "beam:transform:pardo:v1"@ || t.spec->0.urn
        == "beam:transform:sdf_pair_with_restriction:v1"@ || t.spec->0.urn
        == "beam:transform:sdf_split_and_size_restrictions:v1"@)
}

/// Whether the transform is one of the parts of a splittable ParDo that can only root a
/// stage.
pub open spec fn is_rooting(t: TransformV) -> bool {
    t.spec is Some && (t.spec->0.urn == "beam:transform:sdf_truncate_sized_restrictions:v1"@
        || t.spec->0.urn == "beam:transform:sdf_process_sized_element_and_restrictions:v1"@)
}

/// Whether the collection comes back to the transform as a timer that its payload
/// declares.
pub open spec fn is_timer_of(t: TransformV, p: Seq<char>) -> bool {
    &&& t.spec is Some
    &&& par_do_payload(t.spec->0.payload) matches Some(f) && exists|n: Seq<char>|
        #[trigger]
        t.inputs.contains_key(n) && t.inputs[n] == p && f.timer_families.contains(n)
}

/// Whether a stage of environments of this kind may go on with the transform behind the
/// collection.
pub open spec fn may_follow(c: ComponentsV, t: TransformV, env: Seq<char>, p: Seq<char>) -> bool {
    &&& t.spec is Some
    &&& t.spec->0.urn == "beam:transform:flatten:v1"@ || (c.environments.contains_key(
        t.environment_id,
    ) && c.environments[t.environment_id].urn == env && (is_simple(t) || (is_doing(t)
        && t.spec->0.payload.len() > 0 && (is_plain(t.spec->0.payload) || is_timer_of(t, p)))))
}

/// Whether the transform with this id takes the collection under this local name.
pub open spec fn reads(c: ComponentsV, id: Seq<char>, n: Seq<char>, p: Seq<char>) -> bool {
    c.transforms.contains_key(id) && c.transforms[id].subtransforms.len() == 0
        && c.transforms[id].inputs.contains_key(n) && c.transforms[id].inputs[n] == p
}

/// Whether this is a side input of a transform: the payload of a ParDo, or of a part of a
/// splittable one, declares it.
pub open spec fn is_aside(t: TransformV, n: Seq<char>) -> bool {
    &&& is_doing(t) || is_rooting(t) || (t.spec is Some && (t.spec->0.urn
        == "beam:transform:sdf_process_keyed_elements:v1"@ || t.spec->0.urn
        == "beam:transform:sdf_process_elements:v1"@))
    &&& par_do_payload(t.spec->0.payload) matches Some(f) && f.side_inputs.contains(n)
}

/// Whether the transform with this id puts elements into the collection.
pub open spec fn writes(c: ComponentsV, id: Seq<char>, p: Seq<char>) -> bool {
    c.transforms.contains_key(id) && c.pcollections.contains_key(p) && exists|n: Seq<char>|
        #[trigger]
        c.transforms[id].outputs.contains_key(n) && c.transforms[id].outputs[n] == p
}

/// Two letters tell the names of the kinds of transforms apart.
proof fn names_differ()
    ensures
        ({
            let s = "beam:transform:flatten:v1"@;
            s[15] == 'f'
        }),
        "beam:transform:group_by_key:v1"@[15] == 'g',
        "beam:transform:create_view:v1"@[15] == 'c',
        "beam:transform:create_view:v1"@[16] == 'r',
        forall|t: TransformV| #[trigger]
            is_simple(t) ==> t.spec->0.urn[15] == 'w' || (t.spec->0.urn[15] == 'c'
                && t.spec->0.urn[16] == 'o'),
        forall|t: TransformV| #[trigger]
            is_doing(t) ==> t.spec->0.urn[15] == 'p' || t.spec->0.urn[15] == 's',
        forall|t: TransformV| #[trigger] is_rooting(t) ==> t.spec->0.urn[15] == 's',
        "beam:transform:sdf_process_keyed_elements:v1"@[15] == 's',
        "beam:transform:sdf_process_elements:v1"@[15] == 's',
        "beam:transform:sdf_process_sized_element_and_restrictions:v1"@[15] == 's',
        "beam:transform:pardo:v1"@.len() > 16,
        "beam:transform:flatten:v1"@.len() > 16,
        "beam:transform:group_by_key:v1"@.len() > 16,
        "beam:transform:create_view:v1"@.len() > 16,
        "beam:transform:window_into:v1"@.len() > 16,
        "beam:transform:combine_per_key_precombine:v1"@.len() > 16,
        "beam:transform:combine_per_key_merge_accumulators:v1"@.len() > 16,
        "beam:transform:combine_per_key_extract_outputs:v1"@.len() > 16,
        "beam:transform:sdf_pair_with_restriction:v1"@.len() > 16,
        "beam:transform:sdf_split_and_size_restrictions:v1"@.len() > 16,
        "beam:transform:sdf_truncate_sized_restrictions:v1"@.len() > 16,
        "beam:transform:sdf_process_sized_element_and_restrictions:v1"@.len() > 16,
        "beam:transform:sdf_process_keyed_elements:v1"@.len() > 16,
        "beam:transform:sdf_process_elements:v1"@.len() > 16,
{
    reveal_strlit("beam:transform:pardo:v1");
    reveal_strlit("beam:transform:flatten:v1");
    reveal_strlit("beam:transform:group_by_key:v1");
    reveal_strlit("beam:transform:create_view:v1");
    reveal_strlit("beam:transform:window_into:v1");
    reveal_strlit("beam:transform:combine_per_key_precombine:v1");
    reveal_strlit("beam:transform:combine_per_key_merge_accumulators:v1");
    reveal_strlit("beam:transform:combine_per_key_extract_outputs:v1");
    reveal_strlit("beam:transform:sdf_pair_with_restriction:v1");
    reveal_strlit("beam:transform:sdf_split_and_size_restrictions:v1");
    reveal_strlit("beam:transform:sdf_truncate_sized_restrictions:v1");
    reveal_strlit("beam:transform:sdf_process_sized_element_and_restrictions:v1");
    reveal_strlit("beam:transform:sdf_process_keyed_elements:v1");
    reveal_strlit("beam:transform:sdf_process_elements:v1");
}

// ---------------------------------------------------------------------------
// Who roots a stage with whom
// ---------------------------------------------------------------------------
/// Whether the transform roots stages with others: it is simple, or a ParDo, or a part of
/// a splittable one, whose payload declares no side inputs, and neither states nor timers
/// unless it is empty.
pub open spec fn is_sociable(t: TransformV) -> bool {
    is_simple(t) || ((is_doing(t) || is_rooting(t)) && (par_do_payload(
        t.spec->0.payload,
    ) matches Some(p) && (forall|n: Seq<char>| !#[trigger] p.side_inputs.contains(n)) && (
    t.spec->0.payload.len() > 0 ==> (forall|n: Seq<char>| !#[trigger] p.state_specs.contains(n))
        && (forall|n: Seq<char>| !#[trigger] p.timer_families.contains(n)))))
}

proof fn one_way_is_sociable(c: ComponentsV, a: NodeV, b: NodeV)
    requires
        a.id != b.id,
    ensures
        compatible_one_way(c, a, b) <==> is_sociable(a.transform) && share_environment(
            c,
            a.transform,
            b.transform,
        ),
{
    names_differ();
    let t = a.transform;
    assert((environment_of(c, t) == environment_of(c, b.transform)) == share_environment(
        c,
        t,
        b.transform,
    ));
    if is_doing(t) || is_rooting(t) {
        assert(!is_simple(t));
        assert(compatible_one_way(c, a, b) == par_do_compatible(c, a, b));
        assert(par_do_of(t) == par_do_payload(t.spec->0.payload));
        if par_do_payload(t.spec->0.payload) is Some {
            assert(side_names(t) == par_do_payload(t.spec->0.payload)->0.side_inputs);
        }
        assert(may_have_side_inputs(c, t) <==> !(par_do_payload(t.spec->0.payload) matches Some(p)
            && (forall|n: Seq<char>| !#[trigger] p.side_inputs.contains(n))));
    } else if is_simple(t) {
        assert(compatible_one_way(c, a, b) == (environment_of(c, t) == environment_of(
            c,
            b.transform,
        )));
    } else {
        assert(!compatible_one_way(c, a, b));
    }
}

/// Two transforms root a stage together just when both are sociable and they run in the
/// same environment.
pub proof fn compatible_are_sociable(c: ComponentsV, a: NodeV, b: NodeV)
    requires
        a.id != b.id,
    ensures
        compatible(c, a, b) <==> is_sociable(a.transform) && is_sociable(b.transform)
            && share_environment(c, a.transform, b.transform),
{
    one_way_is_sociable(c, a, b);
    one_way_is_sociable(c, b, a);
}

proof fn due_is_grouped(
    c: ComponentsV,
    initial: Seq<SiblingV>,
    stages: Seq<ExecutableStage>,
    n: int,
    g: Seq<SiblingV>,
) -> (s: Seq<SiblingV>)
    requires
        is_due(c, initial, stages, n, g),
    ensures
        grouped(c, s).contains(g),
{
    if exists|s: Seq<SiblingV>| #[trigger] are_first(initial, s) && grouped(c, s).contains(g) {
        choose|s: Seq<SiblingV>| #[trigger] are_first(initial, s) && grouped(c, s).contains(g)
    } else {
        let k = choose|k: int| 0 <= k < n && is_group_behind(c, #[trigger] stages[k], g);
        let (p, s) = choose|p: Seq<char>, s: Seq<SiblingV>|
            #[trigger]
            pcol_ids(stages[k].output_pcols@).contains(p) && #[trigger] are_behind(c, p, s)
                && grouped(c, s).contains(g);
        s
    }
}

/// Two different transforms that root a stage together take the same collection in the
/// same environment, and both are sociable: neither is a ParDo whose payload declares a
/// side input, a state or a timer.
pub proof fn siblings_are_sociable(c: ComponentsV, s: Seq<SiblingV>, k: int, i: int, j: int)
    requires
        0 <= k < grouped(c, s).len(),
        0 <= i < grouped(c, s)[k].len(),
        0 <= j < grouped(c, s)[k].len(),
        grouped(c, s)[k][i].transform != grouped(c, s)[k][j].transform,
    ensures
        ({
            let a = grouped(c, s)[k][i];
            let b = grouped(c, s)[k][j];
            &&& a.pcol == b.pcol
            &&& share_environment(c, c.transforms[a.transform], c.transforms[b.transform])
            &&& is_sociable(c.transforms[a.transform])
            &&& is_sociable(c.transforms[b.transform])
        }),
{
    groups_are_compatible(c, s);
    let g = grouped(c, s)[k];
    assert(is_group(c, g));
    assert(same_key(c, g[0], g[i]) && same_key(c, g[0], g[j]));
    let x = node_at(c, g[i].transform);
    let y = node_at(c, g[j].transform);
    if i < j {
        assert(compatible(c, x, y));
    } else {
        assert(compatible(c, y, x));
    }
    compatible_are_sociable(c, x, y);
    compatible_are_sociable(c, y, x);
}

/// In a run of the fuser a ParDo whose payload declares a state or a timer, or whose
/// payload cannot be read, is alone at the root of its stage.
pub proof fn stateful_roots_alone(
    c: ComponentsV,
    initial: Seq<SiblingV>,
    groups: Seq<Seq<SiblingV>>,
    stages: Seq<ExecutableStage>,
    k: int,
    i: int,
    j: int,
)
    requires
        is_run(c, initial, groups, stages),
        0 <= k < groups.len(),
        0 <= i < groups[k].len(),
        0 <= j < groups[k].len(),
        c.transforms[groups[k][i].transform].spec is Some,
        c.transforms[groups[k][i].transform].spec->0.urn == "beam:transform:pardo:v1"@,
        c.transforms[groups[k][i].transform].spec->0.payload.len() > 0,
        match par_do_payload(c.transforms[groups[k][i].transform].spec->0.payload) {
            Some(p) => (exists|n: Seq<char>| #[trigger] p.state_specs.contains(n)) || (exists|
                n: Seq<char>,
            | #[trigger]
                p.timer_families.contains(n)) || (exists|n: Seq<char>| #[trigger]
                p.side_inputs.contains(n)),
            None => true,
        },
    ensures
        groups[k][j].transform == groups[k][i].transform,
{
    if groups[k][j].transform != groups[k][i].transform {
        let s = due_is_grouped(c, initial, stages, k, groups[k]);
        let l = choose|l: int| 0 <= l < grouped(c, s).len() && grouped(c, s)[l] == groups[k];
        siblings_are_sociable(c, s, l, i, j);
        names_differ();
        reveal_strlit("beam:transform:pardo:v1");
    }
}

spec fn alike(c: ComponentsV, x: SiblingV, y: SiblingV) -> bool {
    &&& x.pcol == y.pcol
    &&& share_environment(c, c.transforms[x.transform], c.transforms[y.transform])
    &&& is_sociable(c.transforms[x.transform])
    &&& is_sociable(c.transforms[y.transform])
}

spec fn gathered(c: ComponentsV, groups: Seq<Seq<SiblingV>>) -> bool {
    forall|k: int, i: int, l: int, j: int|
        0 <= k < groups.len() && 0 <= i < groups[k].len() && 0 <= l < groups.len() && 0 <= j
            < groups[l].len() && alike(c, #[trigger] groups[k][i], #[trigger] groups[l][j]) ==> k
            == l
}

/// A sociable consumer may join the group of one that is like it.
proof fn joins_alike(c: ComponentsV, g: Seq<SiblingV>, x: SiblingV, i: int)
    requires
        is_group(c, g),
        0 <= i < g.len(),
        alike(c, x, g[i]),
    ensures
        may_join(c, g, x),
{
    let y = g[i];
    assert(same_key(c, g[0], y));
    assert(same_key(c, g[0], x));
    assert forall|m: int| 0 <= m < g.len() implies compatible(
        c,
        node_at(c, (#[trigger] g[m]).transform),
        node_at(c, x.transform),
    ) by {
        let z = g[m];
        assert(same_key(c, g[0], z));
        if z.transform != y.transform {
            if m < i {
                assert(compatible(c, node_at(c, g[m].transform), node_at(c, g[i].transform)));
            } else {
                assert(compatible(c, node_at(c, g[i].transform), node_at(c, g[m].transform)));
            }
            compatible_are_sociable(c, node_at(c, z.transform), node_at(c, y.transform));
            compatible_are_sociable(c, node_at(c, y.transform), node_at(c, z.transform));
        }
        if z.transform != x.transform {
            compatible_are_sociable(c, node_at(c, z.transform), node_at(c, x.transform));
        } else {
            names_differ();
        }
    }
}

/// Where a consumer joins a group, the sociable ones in it are like it.
proof fn joined_alike(c: ComponentsV, g: Seq<SiblingV>, x: SiblingV, i: int)
    requires
        may_join(c, g, x),
        is_group(c, g),
        0 <= i < g.len(),
        is_sociable(c.transforms[x.transform]),
    ensures
        alike(c, x, g[i]),
{
    assert(same_key(c, g[0], g[i]));
    let z = g[i];
    assert(compatible(c, node_at(c, g[i].transform), node_at(c, x.transform)));
    if z.transform != x.transform {
        compatible_are_sociable(c, node_at(c, z.transform), node_at(c, x.transform));
    }
}

proof fn placed_gathered(c: ComponentsV, groups: Seq<Seq<SiblingV>>, x: SiblingV, m: nat)
    requires
        m <= groups.len(),
        gathered(c, groups),
        forall|k: int| 0 <= k < groups.len() ==> is_group(c, #[trigger] groups[k]),
        forall|k: int| 0 <= k < m ==> !may_join(c, #[trigger] groups[k], x),
    ensures
        gathered(c, place(c, groups, x, m)),
    decreases groups.len() - m,
{
    let after = place(c, groups, x, m);
    if m >= groups.len() {
        assert forall|k: int, i: int, l: int, j: int|
            0 <= k < after.len() && 0 <= i < after[k].len() && 0 <= l < after.len() && 0 <= j
                < after[l].len() && alike(c, #[trigger] after[k][i], #[trigger] after[l][j]) implies k
            == l by {
            if k < groups.len() && l < groups.len() {
                assert(groups[k][i] == after[k][i] && groups[l][j] == after[l][j]);
            } else if k < groups.len() {
                assert(after[l][j] == x);
                assert(is_group(c, groups[k]));
                joins_alike(c, groups[k], x, i);
            } else if l < groups.len() {
                assert(after[k][i] == x);
                assert(is_group(c, groups[l]));
                joins_alike(c, groups[l], x, j);
            }
        }
    } else if may_join(c, groups[m as int], x) {
        let g = groups[m as int];
        assert(is_group(c, g));
        assert forall|k: int, i: int, l: int, j: int|
            0 <= k < after.len() && 0 <= i < after[k].len() && 0 <= l < after.len() && 0 <= j
                < after[l].len() && alike(c, #[trigger] after[k][i], #[trigger] after[l][j]) implies k
            == l by {
            let a = if k == m && i == g.len() { 0 } else { i };
            let b = if l == m && j == g.len() { 0 } else { j };
            if k == m && i == g.len() {
                joined_alike(c, g, x, 0);
            }
            if l == m && j == g.len() {
                joined_alike(c, g, x, 0);
            }
            assert(alike(c, groups[k][a], groups[l][b]));
        }
    } else {
        placed_gathered(c, groups, x, m + 1);
    }
}

proof fn grouped_gathered(c: ComponentsV, s: Seq<SiblingV>)
    ensures
        gathered(c, grouped(c, s)),
    decreases s.len(),
{
    if s.len() > 0 {
        grouped_gathered(c, s.drop_last());
        groups_are_compatible(c, s.drop_last());
        placed_gathered(c, grouped(c, s.drop_last()), s.last(), 0);
    }
}

/// Sociable consumers of one collection in one environment are in one group.
pub proof fn sociable_are_siblings(
    c: ComponentsV,
    s: Seq<SiblingV>,
    k: int,
    i: int,
    l: int,
    j: int,
)
    requires
        0 <= k < grouped(c, s).len(),
        0 <= i < grouped(c, s)[k].len(),
        0 <= l < grouped(c, s).len(),
        0 <= j < grouped(c, s)[l].len(),
        ({
            let a = grouped(c, s)[k][i];
            let b = grouped(c, s)[l][j];
            &&& a.pcol == b.pcol
            &&& share_environment(c, c.transforms[a.transform], c.transforms[b.transform])
            &&& is_sociable(c.transforms[a.transform])
            &&& is_sociable(c.transforms[b.transform])
        }),
    ensures
        k == l,
{
    grouped_gathered(c, s);
    assert(alike(c, grouped(c, s)[k][i], grouped(c, s)[l][j]));
}

// ---------------------------------------------------------------------------
// What a stage holds and what it writes out
// ---------------------------------------------------------------------------
/// A transform is a consumer just when it takes the collection under a name that is no
/// side input.
pub proof fn consumers_read(c: ComponentsV, id: Seq<char>, p: Seq<char>)
    ensures
        consumes(c, id, p) <==> exists|n: Seq<char>| #[trigger]
            reads(c, id, n, p) && !is_aside(c.transforms[id], n),
        side_consumes(c, id, p) <==> exists|n: Seq<char>| #[trigger]
            reads(c, id, n, p) && is_aside(c.transforms[id], n),
{
    let t = c.transforms[id];
    if consumes(c, id, p) {
        let n = choose|n: Seq<char>|
            #[trigger]
            t.inputs.contains_key(n) && t.inputs[n] == p
                && !side_names(t).contains(n);
        assert(reads(c, id, n, p) && !is_aside(t, n));
    }
    if exists|n: Seq<char>| #[trigger] reads(c, id, n, p) && !is_aside(t, n) {
        let n = choose|n: Seq<char>| #[trigger] reads(c, id, n, p) && !is_aside(t, n);
        assert(t.inputs.contains_key(n));
    }
    if side_consumes(c, id, p) {
        let n = choose|n: Seq<char>|
            #[trigger]
            t.inputs.contains_key(n) && t.inputs[n] == p
                && side_names(t).contains(n);
        assert(reads(c, id, n, p) && is_aside(t, n));
    }
    if exists|n: Seq<char>| #[trigger] reads(c, id, n, p) && is_aside(t, n) {
        let n = choose|n: Seq<char>| #[trigger] reads(c, id, n, p) && is_aside(t, n);
        assert(t.inputs.contains_key(n));
    }
}

/// A stage goes on with a transform just when it may follow.
pub proof fn fused_may_follow(c: ComponentsV, t: TransformV, env: Seq<char>, p: Seq<char>)
    ensures
        fuses(c, t, env, p) <==> may_follow(c, t, env, p),
{
    names_differ();
    if t.spec is None {
        assert(!fuses(c, t, env, p));
    } else if is_doing(t) {
        assert(!is_simple(t));
        assert(fuses(c, t, env, p) == par_do_fuses(c, t, env, p));
        assert(par_do_of(t) == par_do_payload(t.spec->0.payload));
        if par_do_payload(t.spec->0.payload) is Some {
            let f = par_do_payload(t.spec->0.payload)->0;
            assert(side_names(t) == f.side_inputs);
            empty_or_not(f.side_inputs);
            empty_or_not(f.state_specs);
            empty_or_not(f.timer_families);
        }
    } else if is_simple(t) {
        assert(fuses(c, t, env, p) == (c.environments.contains_key(t.environment_id)
            && c.environments[t.environment_id].urn == env));
    } else if t.spec->0.urn == "beam:transform:flatten:v1"@ {
        assert(fuses(c, t, env, p));
    } else {
        assert(!fuses(c, t, env, p));
    }
}

proof fn empty_or_not(s: Set<Seq<char>>)
    ensures
        (exists|n: Seq<char>| #[trigger] s.contains(n)) <==> s != Set::<Seq<char>>::empty(),
{
    if forall|n: Seq<char>| !#[trigger] s.contains(n) {
        assert(s =~= Set::empty());
    }
}

/// A collection that stays inside a stage is nobody's side input, and the stage may go on
/// with whoever reads it.
pub proof fn kept_is_only_followed(
    c: ComponentsV,
    p: Seq<char>,
    env: Seq<char>,
    id: Seq<char>,
    n: Seq<char>,
)
    requires
        collection_fuses(c, p, env),
        reads(c, id, n, p),
    ensures
        !is_aside(c.transforms[id], n),
        may_follow(c, c.transforms[id], env, p),
{
    consumers_read(c, id, p);
    if is_aside(c.transforms[id], n) {
        assert(side_consumes(c, id, p));
    } else {
        assert(consumes(c, id, p));
    }
    fused_may_follow(c, c.transforms[id], env, p);
}

/// A collection stays inside a stage where no transform has side inputs and the stage may
/// go on with all who read it.
pub proof fn followed_is_kept(c: ComponentsV, p: Seq<char>, env: Seq<char>)
    requires
        forall|id: Seq<char>, n: Seq<char>, q: Seq<char>| #[trigger]
            reads(c, id, n, q) ==> !is_aside(c.transforms[id], n),
        forall|id: Seq<char>, n: Seq<char>| #[trigger]
            reads(c, id, n, p) ==> may_follow(c, c.transforms[id], env, p),
    ensures
        collection_fuses(c, p, env),
{
    assert forall|id: Seq<char>, q: Seq<char>| !#[trigger] side_consumes(c, id, q) by {
        consumers_read(c, id, q);
    }
    assert forall|id: Seq<char>| #[trigger] consumes(c, id, p) implies fuses(
        c,
        c.transforms[id],
        env,
        p,
    ) by {
        consumers_read(c, id, p);
        let n = choose|n: Seq<char>| #[trigger]
            reads(c, id, n, p) && !is_aside(c.transforms[id], n);
        assert(reads(c, id, n, p));
        fused_may_follow(c, c.transforms[id], env, p);
    }
}

proof fn produces_writes(c: ComponentsV, id: Seq<char>, p: Seq<char>)
    ensures
        produces(c, id, p) <==> writes(c, id, p),
{
}

/// Why a transform is in a stage: it roots the stage, or the stage may go on with it
/// behind a collection that another of its transforms fills.
pub open spec fn belongs_there(
    c: ComponentsV,
    initial: Seq<Seq<char>>,
    env: Seq<char>,
    ts: Set<Seq<char>>,
    t: Seq<char>,
) -> bool {
    initial.contains(t) || exists|u: Seq<char>, p: Seq<char>, n: Seq<char>|
        ts.contains(u) && #[trigger] writes(c, u, p) && #[trigger] reads(c, t, n, p) && !is_aside(
            c.transforms[t],
            n,
        ) && may_follow(c, c.transforms[t], env, p)
}

/// A stage holds its roots and, beside them, only transforms with which it may go on
/// behind what its own transforms fill.
pub proof fn stage_holds_followers(
    c: ComponentsV,
    input: Seq<char>,
    initial: Seq<Seq<char>>,
    s: ExecutableStage,
    t: Seq<char>,
)
    requires
        is_stage(c, input, initial, s),
    ensures
        forall|r: Seq<char>| #[trigger]
            initial.contains(r) ==> node_ids(s.transforms@).contains(r),
        node_ids(s.transforms@).contains(t) ==> belongs_there(
            c,
            initial,
            s.environment.urn@,
            node_ids(s.transforms@).to_set(),
            t,
        ),
{
    let env = s.environment.urn@;
    let (ts, ps) = reached(c, input, initial, s);
    let xs = ts.filter(|x: Seq<char>| belongs_there(c, initial, env, ts, x));
    let ys = ps.filter(
        |p: Seq<char>| exists|u: Seq<char>| ts.contains(u) && #[trigger] produces(c, u, p),
    );
    assert forall|x: Seq<char>, p: Seq<char>|
        xs.contains(x) && #[trigger] produces(c, x, p) implies ys.contains(p) by {
        assert(ts.contains(x));
    }
    assert forall|p: Seq<char>, x: Seq<char>|
        ys.contains(p) && collection_fuses(c, p, env) && #[trigger] consumes(
            c,
            x,
            p,
        ) implies xs.contains(x) by {
        let u = choose|u: Seq<char>| ts.contains(u) && #[trigger] produces(c, u, p);
        produces_writes(c, u, p);
        consumers_read(c, x, p);
        let n = choose|n: Seq<char>| #[trigger]
            reads(c, x, n, p) && !is_aside(c.transforms[x], n);
        kept_is_only_followed(c, p, env, x, n);
        assert(writes(c, u, p) && reads(c, x, n, p));
    }
    assert(stage_closed(c, env, initial, xs, ys));
    if node_ids(s.transforms@).contains(t) {
        assert(ts.contains(t));
        assert(xs.contains(t));
    }
    assert forall|r: Seq<char>| #[trigger] initial.contains(r) implies node_ids(
        s.transforms@,
    ).contains(r) by {
        assert(ts.contains(r));
    }
}

proof fn reached(
    c: ComponentsV,
    input: Seq<char>,
    initial: Seq<Seq<char>>,
    s: ExecutableStage,
) -> (r: (Set<Seq<char>>, Set<Seq<char>>))
    requires
        is_stage(c, input, initial, s),
    ensures
        stage_reaches(c, s.environment.urn@, initial, r.0, r.1),
        node_ids(s.transforms@).to_set() == r.0,
        forall|p: Seq<char>| #[trigger]
            pcol_ids(s.output_pcols@).contains(p) <==> r.1.contains(p) && !collection_fuses(
                c,
                p,
                s.environment.urn@,
            ),
{
    choose|ts: Set<Seq<char>>, ps: Set<Seq<char>>|
        #[trigger]
        stage_reaches(c, s.environment.urn@, initial, ts, ps) && node_ids(s.transforms@).to_set()
            == ts && forall|p: Seq<char>|
            #[trigger]
            pcol_ids(s.output_pcols@).contains(p) <==> ps.contains(p) && !collection_fuses(
                c,
                p,
                s.environment.urn@,
            )
}

/// A stage writes out only what it fills. It writes out what it fills and somebody takes
/// as a side input, or reads with whom it may not go on; of what it fills and keeps, it
/// holds all the readers.
pub proof fn stage_writes_out(
    c: ComponentsV,
    input: Seq<char>,
    initial: Seq<Seq<char>>,
    s: ExecutableStage,
    u: Seq<char>,
    p: Seq<char>,
    t: Seq<char>,
    n: Seq<char>,
)
    requires
        is_stage(c, input, initial, s),
        node_ids(s.transforms@).contains(u),
        writes(c, u, p),
        reads(c, t, n, p),
    ensures
        is_aside(c.transforms[t], n) || !may_follow(c, c.transforms[t], s.environment.urn@, p)
            ==> pcol_ids(s.output_pcols@).contains(p),
        pcol_ids(s.output_pcols@).contains(p) || node_ids(s.transforms@).contains(t),
{
    let env = s.environment.urn@;
    let (ts, ps) = reached(c, input, initial, s);
    produces_writes(c, u, p);
    assert(ts.contains(u));
    assert(ps.contains(p));
    if !pcol_ids(s.output_pcols@).contains(p) {
        kept_is_only_followed(c, p, env, t, n);
        consumers_read(c, t, p);
        assert(consumes(c, t, p));
        assert(ts.contains(t));
    }
}

/// What a stage writes out, one of its transforms fills; and it writes out nothing where
/// no transform has side inputs and the stage may go on with all the readers.
pub proof fn stage_writes_what_it_fills(
    c: ComponentsV,
    input: Seq<char>,
    initial: Seq<Seq<char>>,
    s: ExecutableStage,
    p: Seq<char>,
)
    requires
        is_stage(c, input, initial, s),
        pcol_ids(s.output_pcols@).contains(p),
    ensures
        exists|u: Seq<char>| node_ids(s.transforms@).contains(u) && #[trigger] writes(c, u, p),
        (forall|id: Seq<char>, n: Seq<char>, q: Seq<char>| #[trigger]
            reads(c, id, n, q) ==> !is_aside(c.transforms[id], n)) ==> exists|
            id: Seq<char>,
            n: Seq<char>,
        | #[trigger]
            reads(c, id, n, p) && !may_follow(c, c.transforms[id], s.environment.urn@, p),
{
    let env = s.environment.urn@;
    let (ts, ps) = reached(c, input, initial, s);
    let ys = ps.filter(
        |q: Seq<char>| exists|u: Seq<char>| ts.contains(u) && #[trigger] produces(c, u, q),
    );
    assert(stage_closed(c, env, initial, ts, ys));
    assert(ys.contains(p));
    let u = choose|u: Seq<char>| ts.contains(u) && #[trigger] produces(c, u, p);
    produces_writes(c, u, p);
    assert(node_ids(s.transforms@).contains(u) && writes(c, u, p));
    if (forall|id: Seq<char>, n: Seq<char>, q: Seq<char>| #[trigger]
        reads(c, id, n, q) ==> !is_aside(c.transforms[id], n)) && (forall|
        id: Seq<char>,
        n: Seq<char>,
    | #[trigger]
        reads(c, id, n, p) ==> may_follow(c, c.transforms[id], env, p)) {
        followed_is_kept(c, p, env);
    }
}

// ---------------------------------------------------------------------------
// Nothing is lost
// ---------------------------------------------------------------------------
/// Whether the transform has a place: with the stages where it runs in an environment,
/// else with the runner's transforms.
pub open spec fn has_place(
    c: ComponentsV,
    stages: Seq<ExecutableStage>,
    unfused: Seq<PTransformNode>,
    t: Seq<char>,
) -> bool {
    if c.environments.contains_key(c.transforms[t].environment_id) {
        exists|k: int| 0 <= k < stages.len() && node_ids((#[trigger] stages[k]).transforms@).contains(t)
    } else {
        node_ids(unfused).contains(t)
    }
}

proof fn grouped_has_place(
    c: ComponentsV,
    initial: Seq<SiblingV>,
    groups: Seq<Seq<SiblingV>>,
    stages: Seq<ExecutableStage>,
    x: SiblingV,
)
    requires
        is_run(c, initial, groups, stages),
        in_groups(groups, x),
    ensures
        exists|k: int|
            0 <= k < stages.len() && node_ids((#[trigger] stages[k]).transforms@).contains(
                x.transform,
            ),
{
    let k = choose|k: int| 0 <= k < groups.len() && (#[trigger] groups[k]).contains(x);
    let g = groups[k];
    let r = stages[k];
    assert(is_stage_of(c, g, r));
    let s = choose|s: ExecutableStage|
        #[trigger]
        is_stage(c, g[0].pcol, transforms_of(g), s) && s.wf() && sanitized(s, r);
    stage_holds_followers(c, g[0].pcol, transforms_of(g), s, x.transform);
    let i = choose|i: int| 0 <= i < g.len() && g[i] == x;
    assert(transforms_of(g)[i] == x.transform);
    assert(transforms_of(g).contains(x.transform));
    assert(node_ids(s.transforms@).contains(x.transform));
    assert(node_ids(r.transforms@) =~= node_ids(s.transforms@));
    assert(node_ids(stages[k].transforms@).contains(x.transform));
}

/// Whoever reads what a stage writes out has a place.
pub proof fn readers_have_a_place(
    c: ComponentsV,
    initial_unfused: Seq<PTransformNode>,
    initial: Seq<SiblingV>,
    groups: Seq<Seq<SiblingV>>,
    stages: Seq<ExecutableStage>,
    unfused: Seq<PTransformNode>,
    k: int,
    p: Seq<char>,
    t: Seq<char>,
    n: Seq<char>,
)
    requires
        is_run(c, initial, groups, stages),
        is_complete(c, initial, groups, stages),
        are_unfused(c, initial_unfused, stages, unfused),
        0 <= k < stages.len(),
        pcol_ids(stages[k].output_pcols@).contains(p),
        reads(c, t, n, p),
        !is_aside(c.transforms[t], n),
    ensures
        has_place(c, stages, unfused, t),
{
    consumers_read(c, t, p);
    assert(consumes(c, t, p));
    let x = SiblingV { pcol: p, transform: t };
    if c.environments.contains_key(c.transforms[t].environment_id) {
        assert(fusible_behind(c, p, x, 0));
        assert(is_fusible_behind(c, p, x));
        assert(in_groups(groups, x));
        grouped_has_place(c, initial, groups, stages, x);
    } else {
        assert(unfused_behind(c, p, t, 0));
        assert(is_unfused_behind(c, p, t));
        assert(pcol_ids(stages[k].output_pcols@).contains(p));
    }
}

/// Whether the transform starts a pipeline: it has neither inputs nor parts.
pub open spec fn starts(c: ComponentsV, r: Seq<char>) -> bool {
    c.transforms.contains_key(r) && c.transforms[r].subtransforms.len() == 0
        && c.transforms[r].inputs.dom() == Set::<Seq<char>>::empty()
}

/// A transform that starts a pipeline without an environment is the runner's, and whoever
/// reads what a starting transform fills has a place.
pub proof fn starts_have_a_place(
    c: ComponentsV,
    initial_unfused: Seq<PTransformNode>,
    initial: Seq<SiblingV>,
    groups: Seq<Seq<SiblingV>>,
    stages: Seq<ExecutableStage>,
    unfused: Seq<PTransformNode>,
    r: Seq<char>,
)
    requires
        are_root_unfused(c, initial_unfused),
        are_root_consumers(c, initial),
        is_run(c, initial, groups, stages),
        is_complete(c, initial, groups, stages),
        are_unfused(c, initial_unfused, stages, unfused),
        starts(c, r),
    ensures
        !c.environments.contains_key(c.transforms[r].environment_id) ==> node_ids(
            unfused,
        ).contains(r),
        forall|p: Seq<char>, t: Seq<char>, n: Seq<char>| #[trigger]
            writes(c, r, p) && #[trigger] reads(c, t, n, p) && !is_aside(c.transforms[t], n)
                ==> has_place(c, stages, unfused, t),
{
    assert forall|n: Seq<char>| !#[trigger] c.transforms[r].inputs.contains_key(n) by {
        assert(!c.transforms[r].inputs.dom().contains(n));
    }
    assert(is_root(c, r));
    if !c.environments.contains_key(c.transforms[r].environment_id) {
        assert(node_ids(initial_unfused).contains(r));
    }
    assert forall|p: Seq<char>, t: Seq<char>, n: Seq<char>| #[trigger]
        writes(c, r, p) && #[trigger] reads(c, t, n, p) && !is_aside(
            c.transforms[t],
            n,
        ) implies has_place(c, stages, unfused, t) by {
        produces_writes(c, r, p);
        consumers_read(c, t, p);
        assert(consumes(c, t, p));
        let x = SiblingV { pcol: p, transform: t };
        if c.environments.contains_key(c.transforms[t].environment_id) {
            assert(fusible_behind(c, p, x, 0));
            assert(is_fusible_behind(c, p, x));
            assert(is_root(c, r) && produces(c, r, p));
            assert(initial.contains(x));
            assert(in_groups(groups, x));
            grouped_has_place(c, initial, groups, stages, x);
        } else {
            assert(unfused_behind(c, p, t, 0));
            assert(is_unfused_behind(c, p, t));
            assert(is_root(c, r) && produces(c, r, p));
            assert(node_ids(initial_unfused).contains(t));
        }
    }
}

/// What is behind one of the runner's transforms is behind all that it is behind.
proof fn behind_goes_on(
    c: ComponentsV,
    p: Seq<char>,
    u: Seq<char>,
    d: nat,
    q: Seq<char>,
    t: Seq<char>,
)
    requires
        unfused_behind(c, p, u, d),
        produces(c, u, q),
        consumes(c, t, q),
    ensures
        is_runner(c, u),
        is_runner(c, t) ==> unfused_behind(c, p, t, d + 1),
        !is_runner(c, t) ==> fusible_behind(c, p, SiblingV { pcol: q, transform: t }, d + 1),
    decreases d,
{
    let x = SiblingV { pcol: q, transform: t };
    if consumes(c, u, p) && is_runner(c, u) {
        if is_runner(c, t) {
            assert(unfused_behind(c, q, t, d));
        } else {
            assert(fusible_behind(c, q, x, d));
        }
    } else {
        let (v, o) = choose|v: Seq<char>, o: Seq<char>|
            #[trigger]
            consumes(c, v, p) && is_runner(c, v) && #[trigger] produces(c, v, o) && unfused_behind(
                c,
                o,
                u,
                (d - 1) as nat,
            );
        behind_goes_on(c, o, u, (d - 1) as nat, q, t);
        assert(consumes(c, v, p) && produces(c, v, o));
    }
}

proof fn behind_is_the_runners(c: ComponentsV, p: Seq<char>, u: Seq<char>, d: nat)
    requires
        unfused_behind(c, p, u, d),
    ensures
        is_runner(c, u),
    decreases d,
{
    if !(consumes(c, u, p) && is_runner(c, u)) {
        let (v, o) = choose|v: Seq<char>, o: Seq<char>|
            #[trigger]
            consumes(c, v, p) && is_runner(c, v) && #[trigger] produces(c, v, o) && unfused_behind(
                c,
                o,
                u,
                (d - 1) as nat,
            );
        behind_is_the_runners(c, o, u, (d - 1) as nat);
    }
}

/// Whoever reads what one of the runner's transforms fills has a place, and the runner's
/// transforms have no environment.
pub proof fn readers_behind_the_runner_have_a_place(
    c: ComponentsV,
    initial_unfused: Seq<PTransformNode>,
    initial: Seq<SiblingV>,
    groups: Seq<Seq<SiblingV>>,
    stages: Seq<ExecutableStage>,
    unfused: Seq<PTransformNode>,
    u: Seq<char>,
    q: Seq<char>,
    t: Seq<char>,
    n: Seq<char>,
)
    requires
        are_root_unfused(c, initial_unfused),
        are_root_consumers(c, initial),
        is_run(c, initial, groups, stages),
        is_complete(c, initial, groups, stages),
        are_unfused(c, initial_unfused, stages, unfused),
        node_ids(unfused).contains(u),
    ensures
        !c.environments.contains_key(c.transforms[u].environment_id),
        writes(c, u, q) && reads(c, t, n, q) && !is_aside(c.transforms[t], n) ==> has_place(
            c,
            stages,
            unfused,
            t,
        ),
{
    let goes_on = writes(c, u, q) && reads(c, t, n, q) && !is_aside(c.transforms[t], n);
    let x = SiblingV { pcol: q, transform: t };
    if goes_on {
        produces_writes(c, u, q);
        consumers_read(c, t, q);
    }
    if node_ids(initial_unfused).contains(u) {
        if is_root(c, u) && is_runner(c, u) {
            if goes_on {
                if is_runner(c, t) {
                    assert(unfused_behind(c, q, t, 0));
                    assert(is_unfused_behind(c, q, t));
                    assert(node_ids(initial_unfused).contains(t));
                } else {
                    assert(fusible_behind(c, q, x, 0));
                    assert(is_fusible_behind(c, q, x));
                    assert(initial.contains(x));
                    grouped_has_place(c, initial, groups, stages, x);
                }
            }
        } else {
            let (r, p) = choose|r: Seq<char>, p: Seq<char>|
                is_root(c, r) && #[trigger] produces(c, r, p) && is_unfused_behind(c, p, u);
            let d = choose|d: nat| unfused_behind(c, p, u, d);
            behind_is_the_runners(c, p, u, d);
            if goes_on {
                behind_goes_on(c, p, u, d, q, t);
                if is_runner(c, t) {
                    assert(is_unfused_behind(c, p, t));
                    assert(node_ids(initial_unfused).contains(t));
                } else {
                    assert(is_fusible_behind(c, p, x));
                    assert(initial.contains(x));
                    grouped_has_place(c, initial, groups, stages, x);
                }
            }
        }
    } else {
        let (k, p) = choose|k: int, p: Seq<char>|
            0 <= k < stages.len() && #[trigger] pcol_ids(stages[k].output_pcols@).contains(p)
                && is_unfused_behind(c, p, u);
        let d = choose|d: nat| unfused_behind(c, p, u, d);
        behind_is_the_runners(c, p, u, d);
        if goes_on {
            behind_goes_on(c, p, u, d, q, t);
            if is_runner(c, t) {
                assert(is_unfused_behind(c, p, t));
                assert(pcol_ids(stages[k].output_pcols@).contains(p));
            } else {
                assert(is_fusible_behind(c, p, x));
                assert(in_groups(groups, x));
                grouped_has_place(c, initial, groups, stages, x);
            }
        }
    }
}

// ---------------------------------------------------------------------------
// Collections with several producers
// ---------------------------------------------------------------------------
/// Whether the node is a flatten into this collection that takes the other one.
pub open spec fn merges(node: PTransformNode, part: Seq<char>, p: Seq<char>) -> bool {
    let t = node.transform.model();
    &&& t.spec is Some
    &&& t.spec->0.urn == "beam:transform:flatten:v1"@
    &&& exists|n: Seq<char>| #[trigger] t.inputs.contains_key(n) && t.inputs[n] == part
    &&& exists|n: Seq<char>| #[trigger] t.outputs.contains_key(n) && t.outputs[n] == p
    &&& forall|n: Seq<char>| #[trigger] t.outputs.contains_key(n) ==> t.outputs[n] == p
}

/// Where several stages write out one collection, each of them writes a collection of its
/// own instead, with the same coder and the same windows, and a flatten puts its elements
/// into the one that was meant.
pub proof fn several_writers_are_merged(
    c: ComponentsV,
    stages: Seq<ExecutableStage>,
    unfused: Seq<PTransformNode>,
    d: DeduplicationResult,
    k: int,
    i: int,
    l: int,
    p: Seq<char>,
)
    requires
        deduplicated(c, stages, unfused, d),
        0 <= k < stages.len(),
        0 <= l < stages.len(),
        k != l,
        0 <= i < stages[k].output_pcols@.len(),
        stages[k].output_pcols@[i].id@ == p,
        pcol_ids(stages[k].output_pcols@).no_duplicates(),
        pcol_ids(stages[l].output_pcols@).contains(p),
        c.pcollections.contains_key(p),
    ensures
        ({
            let before = stages[k].output_pcols@[i];
            let after = stage_after(stages, d, k).output_pcols[i];
            &&& after.id != p
            &&& !c.pcollections.contains_key(after.id)
            &&& after.collection.coder_id == before.collection.coder_id@
            &&& after.collection.windowing_strategy_id == before.collection.windowing_strategy_id@
            &&& after.collection.is_bounded == before.collection.is_bounded
            &&& exists|m: int|
                0 <= m < d.introduced_transforms@.len() && merges(
                    #[trigger] d.introduced_transforms@[m],
                    after.id,
                    p,
                )
        }),
{
    let pms = partial_maps(d.partials@);
    assert(pcol_ids(stages[k].output_pcols@)[i] == p);
    assert(fills(c, stages, unfused, k, p) && fills(c, stages, unfused, l, p));
    assert(contested(c, stages, unfused, p));
    assert(partials_right(c, stages, unfused, k, pms[k]));
    assert(pms[k].contains_key(p));
    assert(has(pms, k, p));
    assert(stage_right(stages[k], pms[k], d.deduplicated_stages@[k]));
    assert(d.deduplicated_stages@[k] is Some) by {
        if d.deduplicated_stages@[k] is None {
            assert(!pms[k].contains_key(p));
        }
    }
    let s = stages[k].model();
    assert(s.output_pcols[i] == stages[k].output_pcols@[i].model());
    let after = stage_after(stages, d, k).output_pcols[i];
    assert(after == output_renamed(pms[k], s.output_pcols[i]));
    assert(after == pms[k][p]);
    assert(copies(c, stages, k, p, pms[k][p]));
    let a = choose|a: int|
        0 <= a < stages[k].output_pcols@.len() && (#[trigger] stages[k].output_pcols@[a]).id@ == p
            && pms[k][p].collection == (CollectionV {
            unique_name: pms[k][p].id,
            ..stages[k].output_pcols@[a].collection.model()
        });
    assert(pcol_ids(stages[k].output_pcols@)[a] == p);
    assert(a == i);
    contested_is_merged(c, stages, unfused, d, p, k);
    let m = choose|m: int|
        0 <= m < d.introduced_transforms@.len() && #[trigger] flattens_into(
            d.introduced_transforms@[m],
        ) == p && exists|n: Seq<char>|
            #[trigger]
            d.introduced_transforms@[m].transform.model().inputs.contains_key(n)
                && d.introduced_transforms@[m].transform.model().inputs[n] == pms[k][p].id;
    let node = d.introduced_transforms@[m];
    assert(node.transform.model().outputs.contains_key("output"@));
    assert(merges(d.introduced_transforms@[m], after.id, p));
}

/// Where several stages write out one collection, the transforms of each fill the collection
/// that it writes instead, under the names they had for it; what a stage does not write out
/// its transforms fill as before, and they read what they read before.
pub proof fn writers_fill_their_own(
    c: ComponentsV,
    stages: Seq<ExecutableStage>,
    unfused: Seq<PTransformNode>,
    d: DeduplicationResult,
    k: int,
    i: int,
    l: int,
    j: int,
    n: Seq<char>,
)
    requires
        deduplicated(c, stages, unfused, d),
        0 <= k < stages.len(),
        0 <= l < stages.len(),
        k != l,
        0 <= i < stages[k].output_pcols@.len(),
        pcol_ids(stages[l].output_pcols@).contains(stages[k].output_pcols@[i].id@),
        0 <= j < stages[k].transforms@.len(),
        stages[k].transforms@[j].transform.model().outputs.contains_key(n),
    ensures
        ({
            let s = stage_after(stages, d, k);
            let before = stages[k].transforms@[j].transform.model();
            let after = s.transforms[j].transform;
            &&& s.transforms[j].id == stages[k].transforms@[j].id@
            &&& after.inputs == before.inputs
            &&& after.spec == before.spec
            &&& after.outputs.contains_key(n)
            &&& before.outputs[n] == stages[k].output_pcols@[i].id@ ==> after.outputs[n]
                == s.output_pcols[i].id
            &&& (forall|x: int|
                0 <= x < stages[k].output_pcols@.len() ==> (#[trigger] stages[k].output_pcols@[x]).id@
                    != before.outputs[n]) ==> after.outputs[n] == before.outputs[n]
            &&& s.components.pcollections.contains_key(s.output_pcols[i].id)
            &&& s.components.pcollections[s.output_pcols[i].id] == s.output_pcols[i].collection
        }),
{
    let pms = partial_maps(d.partials@);
    let p = stages[k].output_pcols@[i].id@;
    assert(pcol_ids(stages[k].output_pcols@)[i] == p);
    assert(fills(c, stages, unfused, k, p) && fills(c, stages, unfused, l, p));
    assert(contested(c, stages, unfused, p));
    assert(partials_right(c, stages, unfused, k, pms[k]));
    assert(pms[k].contains_key(p));
    assert(stage_right(stages[k], pms[k], d.deduplicated_stages@[k]));
    assert(d.deduplicated_stages@[k] is Some) by {
        if d.deduplicated_stages@[k] is None {
            assert(!pms[k].contains_key(p));
        }
    }
    let s = stages[k].model();
    let r = stage_after(stages, d, k);
    assert(s.output_pcols[i] == stages[k].output_pcols@[i].model());
    assert(r.output_pcols[i] == output_renamed(pms[k], s.output_pcols[i]));
    assert(r.output_pcols[i] == pms[k][p]);
    assert(s.transforms[j] == stages[k].transforms@[j].model());
    let before = stages[k].transforms@[j].transform.model();
    assert(r.transforms[j].transform == with_outputs(before, pms[k]));
    assert(is_partial(pms[k], pms[k][p].id));
    let q = before.outputs[n];
    if pms[k].contains_key(q) {
        assert(fills(c, stages, unfused, k, q));
        let x = choose|x: int|
            0 <= x < pcol_ids(stages[k].output_pcols@).len() && pcol_ids(
                stages[k].output_pcols@,
            )[x] == q;
        assert(stages[k].output_pcols@[x].id@ == q);
    }
}

/// Where several of the runner's transforms fill one collection, each fills one of its own
/// instead, with the same coder and the same windows, and a flatten puts its elements into
/// the one that was meant.
pub proof fn runners_fill_their_own(
    c: ComponentsV,
    stages: Seq<ExecutableStage>,
    unfused: Seq<PTransformNode>,
    d: DeduplicationResult,
    k: int,
    n: Seq<char>,
    l: int,
    m: Seq<char>,
)
    requires
        deduplicated(c, stages, unfused, d),
        0 <= k < unfused.len(),
        0 <= l < unfused.len(),
        k != l,
        unfused[k].transform.model().outputs.contains_key(n),
        unfused[l].transform.model().outputs.contains_key(m),
        unfused[k].transform.model().outputs[n] == unfused[l].transform.model().outputs[m],
        c.pcollections.contains_key(unfused[k].transform.model().outputs[n]),
    ensures
        ({
            let p = unfused[k].transform.model().outputs[n];
            let after = node_after(unfused, d, k);
            let own = after.transform.outputs[n];
            let all = d.components.model().pcollections;
            &&& after.id == unfused[k].id@
            &&& after.transform.inputs == unfused[k].transform.model().inputs
            &&& after.transform.spec == unfused[k].transform.model().spec
            &&& after.transform.outputs.contains_key(n)
            &&& own != p
            &&& !c.pcollections.contains_key(own)
            &&& all.contains_key(own)
            &&& all[own].coder_id == c.pcollections[p].coder_id
            &&& all[own].windowing_strategy_id == c.pcollections[p].windowing_strategy_id
            &&& all[own].is_bounded == c.pcollections[p].is_bounded
            &&& exists|i: int|
                0 <= i < d.introduced_transforms@.len() && merges(
                    #[trigger] d.introduced_transforms@[i],
                    own,
                    p,
                )
        }),
{
    let pms = partial_maps(d.partials@);
    let p = unfused[k].transform.model().outputs[n];
    let (kk, ll) = (stages.len() + k, stages.len() + l);
    assert(gives(c, unfused[k].transform.model(), p));
    assert(gives(c, unfused[l].transform.model(), p));
    assert(fills(c, stages, unfused, kk, p) && fills(c, stages, unfused, ll, p));
    assert(contested(c, stages, unfused, p));
    assert(partials_right(c, stages, unfused, kk, pms[kk]));
    assert(pms[kk].contains_key(p));
    assert(has(pms, kk, p));
    assert(transform_right(unfused[k], pms[kk], d.deduplicated_transforms@[k]));
    assert(d.deduplicated_transforms@[k] is Some) by {
        if d.deduplicated_transforms@[k] is None {
            assert(!pms[kk].contains_key(p));
        }
    }
    let own = pms[kk][p].id;
    assert(node_after(unfused, d, k).transform.outputs[n] == own);
    assert(copies(c, stages, kk, p, pms[kk][p]));
    assert(is_any_partial(pms, own));
    contested_is_merged(c, stages, unfused, d, p, kk);
    let i = choose|i: int|
        0 <= i < d.introduced_transforms@.len() && #[trigger] flattens_into(
            d.introduced_transforms@[i],
        ) == p && exists|x: Seq<char>|
            #[trigger]
            d.introduced_transforms@[i].transform.model().inputs.contains_key(x)
                && d.introduced_transforms@[i].transform.model().inputs[x] == own;
    assert(d.introduced_transforms@[i].transform.model().outputs.contains_key("output"@));
    assert(merges(d.introduced_transforms@[i], own, p));
}

} // verus!
