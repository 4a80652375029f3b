//! Partial collections: what a producer fills in place of a collection that
//! others fill too.
use crate::fusion::ids::{suffixed, unique_id};
use crate::fusion::pipeline::texts_pushed;
use crate::fusion::refs::{duplicate_side_inputs, duplicate_states, duplicate_timers};
use crate::fusion::stage::{
    duplicate_settings, node_map, node_map_is, nodes_by_id, pcol_ids, ExecutableStage, StageV,
};
use crate::model::{
    nodes_wf, pcollection_map, pcols_model, text_map, CollectionV, Components, ComponentsV, NodeV,
    PCollection, PCollectionNode, PTransform, PTransformNode, PcolV, TransformV,
};
use crate::named::{texts, NamedMap};
use crate::utils::errors::BeamTranslationError;
use vstd::prelude::*;
use vstd::string::*;

verus! {

// ---------------------------------------------------------------------------
// What partial collections are
// ---------------------------------------------------------------------------
/// From the id of a collection to its partial collection.
pub open spec fn partial_map(m: NamedMap<PCollectionNode>) -> Map<Seq<char>, PcolV> {
    m@.map_values(|n: PCollectionNode| n.model())
}

/// Whether no two partial collections have one id.
pub open spec fn distinct_ids(m: Map<Seq<char>, PcolV>) -> bool {
    forall|p: Seq<char>, q: Seq<char>|
        #![trigger m.contains_key(p), m.contains_key(q)]
        m.contains_key(p) && m.contains_key(q) && p != q ==> m[p].id != m[q].id
}

/// Whether the id is that of a partial collection.
pub open spec fn is_partial(m: Map<Seq<char>, PcolV>, x: Seq<char>) -> bool {
    exists|p: Seq<char>| #[trigger] m.contains_key(p) && m[p].id == x
}

/// Whether the partial collection of `p` has the first id behind `p` that is free
/// while `taken`, and maybe other partial collections, are taken.
pub open spec fn is_suffixed(
    m: Map<Seq<char>, PcolV>,
    taken: Set<Seq<char>>,
    p: Seq<char>,
) -> bool {
    exists|t: Set<Seq<char>>|
        #[trigger]
        suffixed(p, t) == m[p].id && taken.subset_of(t) && forall|x: Seq<char>|
            #[trigger]
            t.contains(x) ==> taken.contains(x) || is_partial(m, x)
}

/// Whether `m` has a new partial collection for each of `dups`: a copy under an id
/// that is not taken.
pub open spec fn are_partials(
    dups: Seq<PcolV>,
    taken: Set<Seq<char>>,
    m: Map<Seq<char>, PcolV>,
) -> bool {
    &&& forall|p: Seq<char>|
        #[trigger]
        m.contains_key(p) <==> exists|i: int| 0 <= i < dups.len() && (#[trigger] dups[i]).id == p
    &&& forall|i: int|
        0 <= i < dups.len() ==> m[(#[trigger] dups[i]).id].collection == (CollectionV {
            unique_name: m[dups[i].id].id,
            ..dups[i].collection
        })
    &&& forall|p: Seq<char>|
        #[trigger]
        m.contains_key(p) ==> !taken.contains(m[p].id) && is_suffixed(m, taken, p)
    &&& distinct_ids(m)
}

/// What stands in place of the collection.
pub open spec fn renamed(m: Map<Seq<char>, PcolV>, p: Seq<char>) -> Seq<char> {
    if m.contains_key(p) {
        m[p].id
    } else {
        p
    }
}

/// The transform with partial collections as its outputs.
pub open spec fn with_outputs(t: TransformV, m: Map<Seq<char>, PcolV>) -> TransformV {
    TransformV { outputs: t.outputs.map_values(|p: Seq<char>| renamed(m, p)), ..t }
}

/// Whether `after` holds the collections of `before` and the partial ones.
pub open spec fn adds(
    before: Map<Seq<char>, CollectionV>,
    m: Map<Seq<char>, PcolV>,
    after: Map<Seq<char>, CollectionV>,
) -> bool {
    &&& forall|x: Seq<char>|
        #[trigger]
        after.contains_key(x) <==> before.contains_key(x) || is_partial(m, x)
    &&& forall|p: Seq<char>| #[trigger] m.contains_key(p) ==> after[m[p].id] == m[p].collection
    &&& forall|x: Seq<char>|
        #[trigger]
        before.contains_key(x) && !is_partial(m, x) ==> after[x] == before[x]
}

pub open spec fn output_renamed(m: Map<Seq<char>, PcolV>, p: PcolV) -> PcolV {
    if m.contains_key(p.id) {
        m[p.id]
    } else {
        p
    }
}

/// Whether `r` is the stage `s` with partial collections as its outputs.
pub open spec fn rewritten(s: StageV, m: Map<Seq<char>, PcolV>, r: StageV) -> bool {
    &&& r.output_pcols.len() == s.output_pcols.len()
    &&& forall|i: int|
        0 <= i < s.output_pcols.len() ==> #[trigger] r.output_pcols[i] == output_renamed(
            m,
            s.output_pcols[i],
        )
    &&& r.transforms.len() == s.transforms.len()
    &&& forall|i: int|
        0 <= i < s.transforms.len() ==> #[trigger] r.transforms[i] == (NodeV {
            id: s.transforms[i].id,
            transform: with_outputs(s.transforms[i].transform, m),
        })
    &&& r.components.transforms == node_map(r.transforms)
    &&& adds(s.components.pcollections, m, r.components.pcollections)
    &&& r == (StageV {
        output_pcols: r.output_pcols,
        transforms: r.transforms,
        components: ComponentsV {
            transforms: r.components.transforms,
            pcollections: r.components.pcollections,
            ..s.components
        },
        ..s
    })
}

// ---------------------------------------------------------------------------
// Making them
// ---------------------------------------------------------------------------
/// Inserting one more partial collection.
proof fn one_more_partial(
    dups: Seq<PcolV>,
    taken: Set<Seq<char>>,
    seen: Set<Seq<char>>,
    m: Map<Seq<char>, PcolV>,
    d: PcolV,
    id: Seq<char>,
)
    requires
        are_partials(dups, taken, m),
        taken.subset_of(seen),
        forall|x: Seq<char>| #[trigger] seen.contains(x) <==> taken.contains(x) || is_partial(m, x),
        !m.contains_key(d.id),
        id == suffixed(d.id, seen),
        !seen.contains(id),
    ensures
        ({
            let node = PcolV { id, collection: CollectionV { unique_name: id, ..d.collection } };
            let after = m.insert(d.id, node);
            &&& are_partials(dups.push(d), taken, after)
            &&& forall|x: Seq<char>|
                #[trigger]
                seen.insert(id).contains(x) <==> taken.contains(x) || is_partial(after, x)
        }),
{
    let node = PcolV { id, collection: CollectionV { unique_name: id, ..d.collection } };
    let after = m.insert(d.id, node);
    let all = dups.push(d);
    assert forall|x: Seq<char>| is_partial(m, x) implies #[trigger] is_partial(after, x) by {
        let p = choose|p: Seq<char>| #[trigger] m.contains_key(p) && m[p].id == x;
        assert(after.contains_key(p) && after[p].id == x);
    }
    assert(after.contains_key(d.id) && after[d.id].id == id);
    assert forall|x: Seq<char>| #[trigger] is_partial(after, x) implies is_partial(m, x) || x
        == id by {
        let p = choose|p: Seq<char>| #[trigger] after.contains_key(p) && after[p].id == x;
        if p != d.id {
            assert(m.contains_key(p) && m[p].id == x);
        }
    }
    assert forall|p: Seq<char>|
        #[trigger]
        after.contains_key(p) <==> exists|i: int| 0 <= i < all.len() && (#[trigger] all[i]).id
            == p by {
        if after.contains_key(p) {
            if p == d.id {
                assert(all[dups.len() as int].id == p);
            } else {
                assert(m.contains_key(p));
                let i = choose|i: int| 0 <= i < dups.len() && (#[trigger] dups[i]).id == p;
                assert(all[i].id == p);
            }
        }
        if exists|i: int| 0 <= i < all.len() && (#[trigger] all[i]).id == p {
            let i = choose|i: int| 0 <= i < all.len() && (#[trigger] all[i]).id == p;
            if i < dups.len() {
                assert(dups[i].id == p);
                assert(m.contains_key(p));
            }
        }
    }
    assert forall|i: int| 0 <= i < all.len() implies after[(#[trigger] all[i]).id].collection == (
    CollectionV { unique_name: after[all[i].id].id, ..all[i].collection }) by {
        if i < dups.len() {
            assert(all[i] == dups[i]);
            assert(m.contains_key(dups[i].id));
        }
    }
    assert forall|p: Seq<char>| #[trigger] after.contains_key(p) implies !taken.contains(
        after[p].id,
    ) && is_suffixed(after, taken, p) by {
        if p == d.id {
            assert(suffixed(p, seen) == after[p].id);
        } else {
            assert(m.contains_key(p));
            let t = choose|t: Set<Seq<char>>|
                #[trigger]
                suffixed(p, t) == m[p].id && taken.subset_of(t) && forall|x: Seq<char>|
                    #[trigger]
                    t.contains(x) ==> taken.contains(x) || is_partial(m, x);
            assert(suffixed(p, t) == after[p].id);
        }
    }
    assert forall|p: Seq<char>, q: Seq<char>|
        #![trigger after.contains_key(p), after.contains_key(q)]
        after.contains_key(p) && after.contains_key(q) && p != q implies after[p].id
        != after[q].id by {
        if p != d.id {
            assert(m.contains_key(p));
            assert(is_partial(m, m[p].id));
        }
        if q != d.id {
            assert(m.contains_key(q));
            assert(is_partial(m, m[q].id));
        }
    }
}

/// A new partial collection for each of the duplicates; an error where one stands
/// twice among them.
#[verifier::rlimit(30)]
pub fn create_partial_pcollections(
    duplicates: &Vec<PCollectionNode>,
    components: &Components,
) -> (r: Result<NamedMap<PCollectionNode>, BeamTranslationError>)
    requires
        components.wf(),
    ensures
        match r {
            Ok(m) => m.wf() && pcol_ids(duplicates@).no_duplicates() && are_partials(
                pcols_model(duplicates@),
                components.model().pcollections.dom(),
                partial_map(m),
            ),
            Err(e) => e is InvalidArgument && !pcol_ids(duplicates@).no_duplicates(),
        },
{
    let ghost taken = components.model().pcollections.dom();
    let ghost dups = pcols_model(duplicates@);
    let mut result: NamedMap<PCollectionNode> = NamedMap::new();
    let mut seen: Vec<String> = components.pcollections.keys();
    let n: usize = duplicates.len();
    let mut i: usize = 0;
    proof {
        assert(texts(seen@).to_set() =~= taken);
        assert(partial_map(result) =~= Map::<Seq<char>, PcolV>::empty());
        assert(dups.take(0) =~= seq![]);
        assert(pcol_ids(duplicates@).take(0) =~= seq![]);
    }
    while i < n
        invariant
            components.wf(),
            taken == components.model().pcollections.dom(),
            dups == pcols_model(duplicates@),
            n == duplicates@.len(),
            i <= n,
            result.wf(),
            pcol_ids(duplicates@).take(i as int).no_duplicates(),
            are_partials(dups.take(i as int), taken, partial_map(result)),
            taken.subset_of(texts(seen@).to_set()),
            forall|x: Seq<char>|
                #[trigger]
                texts(seen@).to_set().contains(x) <==> taken.contains(x) || is_partial(
                    partial_map(result),
                    x,
                ),
        decreases n - i,
    {
        let ghost d = dups[i as int];
        let ghost before = partial_map(result);
        let ghost set = texts(seen@).to_set();
        let ghost ids = pcol_ids(duplicates@);
        proof {
            assert(d == duplicates@[i as int].model());
            assert(dups.take(i + 1) =~= dups.take(i as int).push(d));
            assert(ids.take(i + 1) =~= ids.take(i as int).push(d.id));
        }
        if result.contains_key(duplicates[i].id.as_str()) {
            proof {
                assert(before.contains_key(d.id));
                let k = choose|k: int|
                    0 <= k < dups.take(i as int).len() && (#[trigger] dups.take(i as int)[k]).id
                        == d.id;
                assert(dups.take(i as int)[k] == dups[k]);
                assert(ids[k] == d.id);
                assert(ids[i as int] == d.id);
            }
            return Err(
                BeamTranslationError::InvalidArgument(
                    crate::text::join2(
                        "duplicate pcollection appeared more than once in a single stage: ",
                        duplicates[i].id.as_str(),
                    ),
                ),
            );
        }
        let id: String = unique_id(duplicates[i].id.as_str(), &seen);
        let mut collection: PCollection = duplicates[i].collection.duplicate();
        collection.unique_name = id.clone();
        let node = PCollectionNode { id: id.clone(), collection };
        proof {
            assert(!before.contains_key(d.id));
            one_more_partial(dups.take(i as int), taken, set, before, d, id@);
            assert forall|k: int| 0 <= k < i implies ids.take(i as int)[k] != d.id by {
                assert(dups.take(i as int)[k].id == ids[k]);
                if ids[k] == d.id {
                    assert(before.contains_key(d.id));
                }
            }
        }
        let ghost old_seen = seen@;
        result.insert(duplicates[i].id.clone(), node);
        seen.push(id);
        proof {
            assert(partial_map(result) =~= before.insert(d.id, node.model()));
            assert(seen@.drop_last() =~= old_seen);
            texts_pushed(old_seen, seen@);
            assert(texts(seen@).to_set() =~= set.insert(id@));
        }
        i = i + 1;
    }
    proof {
        assert(dups.take(n as int) =~= dups);
        assert(pcol_ids(duplicates@).take(n as int) =~= pcol_ids(duplicates@));
    }
    Ok(result)
}

/// The transform with partial collections as its outputs.
pub fn update_outputs(transform: &PTransform, partials: &NamedMap<PCollectionNode>) -> (r:
    PTransform)
    requires
        transform.wf(),
        partials.wf(),
    ensures
        r.wf(),
        r.model() == with_outputs(transform.model(), partial_map(*partials)),
{
    let ghost m = partial_map(*partials);
    let ghost t = transform.model();
    let mut updated: PTransform = transform.duplicate();
    let n: usize = transform.outputs.entries.len();
    let mut out: NamedMap<String> = NamedMap::new();
    let mut i: usize = 0;
    while i < n
        invariant
            transform.wf(),
            partials.wf(),
            m == partial_map(*partials),
            n == transform.outputs.entries@.len(),
            i <= n,
            out.wf(),
            forall|k: Seq<char>|
                #[trigger]
                out@.contains_key(k) <==> exists|j: int|
                    0 <= j < i && (#[trigger] transform.outputs.entries@[j]).0@ == k,
            forall|j: int|
                0 <= j < i ==> out@[(#[trigger] transform.outputs.entries@[j]).0@]@ == renamed(
                    m,
                    transform.outputs.entries@[j].1@,
                ),
        decreases n - i,
    {
        let ghost before = out@;
        let ghost key = transform.outputs.entries@[i as int].0@;
        let name: String = transform.outputs.entries[i].0.clone();
        let id: String = match partials.get(transform.outputs.entries[i].1.as_str()) {
            Some(node) => node.id.clone(),
            None => transform.outputs.entries[i].1.clone(),
        };
        out.insert(name, id);
        proof {
            assert forall|k: Seq<char>|
                #[trigger]
                out@.contains_key(k) <==> exists|j: int|
                    0 <= j < i + 1 && (#[trigger] transform.outputs.entries@[j]).0@ == k by {
                if k == key {
                    assert(transform.outputs.entries@[i as int].0@ == k);
                } else {
                    if before.contains_key(k) {
                        let j = choose|j: int|
                            0 <= j < i && (#[trigger] transform.outputs.entries@[j]).0@ == k;
                        assert(transform.outputs.entries@[j].0@ == k);
                    }
                }
            }
            assert forall|j: int| 0 <= j < i + 1 implies out@[(
            #[trigger] transform.outputs.entries@[j]).0@]@ == renamed(
                m,
                transform.outputs.entries@[j].1@,
            ) by {
                if j < i {
                    assert(transform.outputs.entries@[j].0@ != transform.outputs.entries@[i as int].0@);
                }
            }
        }
        i = i + 1;
    }
    updated.outputs = out;
    proof {
        assert forall|k: Seq<char>| text_map(out).contains_key(k) == t.outputs.contains_key(
            k,
        ) by {
            if transform.outputs@.contains_key(k) {
                let j = transform.outputs.has_entry(k);
                assert(transform.outputs.entries@[j].0@ == k);
            }
            if out@.contains_key(k) {
                let j = choose|j: int|
                    0 <= j < n && (#[trigger] transform.outputs.entries@[j]).0@ == k;
                transform.outputs.entry_at(j);
            }
        }
        assert forall|k: Seq<char>| t.outputs.contains_key(k) implies #[trigger] text_map(out)[k]
            == renamed(m, t.outputs[k]) by {
            let j = transform.outputs.has_entry(k);
            assert(transform.outputs.entries@[j].0@ == k);
        }
        assert(text_map(out) =~= t.outputs.map_values(|p: Seq<char>| renamed(m, p)));
    }
    updated
}

/// Adds the partial collections.
pub fn add_partials(pcollections: &mut NamedMap<PCollection>, partials: &NamedMap<PCollectionNode>)
    requires
        old(pcollections).wf(),
        partials.wf(),
        distinct_ids(partial_map(*partials)),
    ensures
        final(pcollections).wf(),
        adds(
            pcollection_map(*old(pcollections)),
            partial_map(*partials),
            pcollection_map(*final(pcollections)),
        ),
{
    let ghost before = pcollection_map(*pcollections);
    let ghost m = partial_map(*partials);
    let ghost e = partials.entries@;
    let n: usize = partials.entries.len();
    let mut i: usize = 0;
    while i < n
        invariant
            partials.wf(),
            m == partial_map(*partials),
            e == partials.entries@,
            distinct_ids(m),
            n == e.len(),
            i <= n,
            pcollections.wf(),
            forall|x: Seq<char>|
                #[trigger]
                pcollection_map(*pcollections).contains_key(x) <==> before.contains_key(x)
                    || exists|j: int| 0 <= j < i && (#[trigger] e[j]).1.id@ == x,
            forall|j: int|
                0 <= j < i ==> pcollection_map(*pcollections)[(#[trigger] e[j]).1.id@]
                    == e[j].1.collection.model(),
            forall|x: Seq<char>|
                #[trigger]
                before.contains_key(x) && !is_partial(m, x) ==> pcollection_map(*pcollections)[x]
                    == before[x],
        decreases n - i,
    {
        let ghost cur = pcollection_map(*pcollections);
        let ghost node = e[i as int].1;
        let collection: PCollection = partials.entries[i].1.collection.duplicate();
        pcollections.insert(partials.entries[i].1.id.clone(), collection);
        proof {
            let now = pcollection_map(*pcollections);
            assert(now =~= cur.insert(node.id@, node.collection.model()));
            partials.entry_at(i as int);
            assert(m.contains_key(e[i as int].0@) && m[e[i as int].0@].id == node.id@);
            assert forall|x: Seq<char>|
                #[trigger]
                now.contains_key(x) <==> before.contains_key(x) || exists|j: int|
                    0 <= j < i + 1 && (#[trigger] e[j]).1.id@ == x by {
                if x == node.id@ {
                    assert(e[i as int].1.id@ == x);
                } else if cur.contains_key(x) && !before.contains_key(x) {
                    let j = choose|j: int| 0 <= j < i && (#[trigger] e[j]).1.id@ == x;
                    assert(e[j].1.id@ == x);
                }
            }
            assert forall|j: int| 0 <= j < i + 1 implies now[(#[trigger] e[j]).1.id@]
                == e[j].1.collection.model() by {
                if j < i {
                    partials.entry_at(j);
                    assert(e[j].0@ != e[i as int].0@);
                    assert(m.contains_key(e[j].0@));
                    assert(m[e[j].0@].id != m[e[i as int].0@].id);
                }
            }
        }
        i = i + 1;
    }
    proof {
        let now = pcollection_map(*pcollections);
        assert forall|x: Seq<char>|
            #[trigger]
            now.contains_key(x) <==> before.contains_key(x) || is_partial(m, x) by {
            if exists|j: int| 0 <= j < n && (#[trigger] e[j]).1.id@ == x {
                let j = choose|j: int| 0 <= j < n && (#[trigger] e[j]).1.id@ == x;
                partials.entry_at(j);
                assert(m.contains_key(e[j].0@) && m[e[j].0@].id == x);
            }
            if is_partial(m, x) {
                let p = choose|p: Seq<char>| #[trigger] m.contains_key(p) && m[p].id == x;
                let j = partials.has_entry(p);
                assert(e[j].1.id@ == x);
            }
        }
        assert forall|p: Seq<char>| #[trigger] m.contains_key(p) implies now[m[p].id]
            == m[p].collection by {
            let j = partials.has_entry(p);
            assert(e[j].1.id@ == m[p].id);
        }
    }
}

// ---------------------------------------------------------------------------
// Rewriting a producer
// ---------------------------------------------------------------------------
/// A stage that fills partial collections, and these.
pub struct StageDeduplication {
    pub updated_stage: ExecutableStage,
    pub original_to_partial: NamedMap<PCollectionNode>,
}

/// A transform that fills partial collections, and these.
pub struct TransformDeduplication {
    pub updated_transform: PTransformNode,
    pub original_to_partial: NamedMap<PCollectionNode>,
}

/// The transforms with partial collections as their outputs.
fn update_all(nodes: &Vec<PTransformNode>, partials: &NamedMap<PCollectionNode>) -> (r: Vec<
    PTransformNode,
>)
    requires
        nodes_wf(nodes@),
        partials.wf(),
    ensures
        nodes_wf(r@),
        r@.len() == nodes@.len(),
        forall|i: int|
            0 <= i < nodes@.len() ==> (#[trigger] r@[i]).model() == (NodeV {
                id: nodes@[i].id@,
                transform: with_outputs(nodes@[i].transform.model(), partial_map(*partials)),
            }),
{
    let n: usize = nodes.len();
    let mut out: Vec<PTransformNode> = Vec::new();
    let mut i: usize = 0;
    while i < n
        invariant
            nodes_wf(nodes@),
            partials.wf(),
            n == nodes@.len(),
            i <= n,
            out@.len() == i,
            nodes_wf(out@),
            forall|k: int|
                0 <= k < i ==> (#[trigger] out@[k]).model() == (NodeV {
                    id: nodes@[k].id@,
                    transform: with_outputs(nodes@[k].transform.model(), partial_map(*partials)),
                }),
        decreases n - i,
    {
        assert(nodes@[i as int].wf());
        out.push(
            PTransformNode {
                id: nodes[i].id.clone(),
                transform: update_outputs(&nodes[i].transform, partials),
            },
        );
        i = i + 1;
    }
    out
}

/// The collections, or what stands in place of them.
fn rename_all(pcols: &Vec<PCollectionNode>, partials: &NamedMap<PCollectionNode>) -> (r: Vec<
    PCollectionNode,
>)
    requires
        partials.wf(),
    ensures
        r@.len() == pcols@.len(),
        forall|i: int|
            0 <= i < pcols@.len() ==> (#[trigger] r@[i]).model() == output_renamed(
                partial_map(*partials),
                pcols@[i].model(),
            ),
{
    let n: usize = pcols.len();
    let mut out: Vec<PCollectionNode> = Vec::new();
    let mut i: usize = 0;
    while i < n
        invariant
            partials.wf(),
            n == pcols@.len(),
            i <= n,
            out@.len() == i,
            forall|k: int|
                0 <= k < i ==> (#[trigger] out@[k]).model() == output_renamed(
                    partial_map(*partials),
                    pcols@[k].model(),
                ),
        decreases n - i,
    {
        let node: PCollectionNode = match partials.get(pcols[i].id.as_str()) {
            Some(p) => p.duplicate(),
            None => pcols[i].duplicate(),
        };
        out.push(node);
        i = i + 1;
    }
    out
}

/// The stage with partial collections in place of the duplicates.
pub fn deduplicate_stage(
    stage: &ExecutableStage,
    duplicates: &Vec<PCollectionNode>,
    components: &Components,
) -> (r: Result<StageDeduplication, BeamTranslationError>)
    requires
        stage.wf(),
        components.wf(),
    ensures
        match r {
            Ok(d) => d.original_to_partial.wf() && d.updated_stage.wf() && pcol_ids(
                duplicates@,
            ).no_duplicates() && are_partials(
                pcols_model(duplicates@),
                components.model().pcollections.dom(),
                partial_map(d.original_to_partial),
            ) && rewritten(
                stage.model(),
                partial_map(d.original_to_partial),
                d.updated_stage.model(),
            ),
            Err(e) => e is InvalidArgument && !pcol_ids(duplicates@).no_duplicates(),
        },
{
    let partials: NamedMap<PCollectionNode> = match create_partial_pcollections(
        duplicates,
        components,
    ) {
        Ok(m) => m,
        Err(e) => {
            return Err(e);
        },
    };
    let transforms: Vec<PTransformNode> = update_all(&stage.transforms, &partials);
    let outputs: Vec<PCollectionNode> = rename_all(&stage.output_pcols, &partials);
    let mut stage_components: Components = stage.components.duplicate();
    stage_components.transforms = nodes_by_id(&transforms);
    let mut pcollections: NamedMap<PCollection> = NamedMap::new();
    std::mem::swap(&mut pcollections, &mut stage_components.pcollections);
    add_partials(&mut pcollections, &partials);
    stage_components.pcollections = pcollections;
    let updated: ExecutableStage = ExecutableStage::from(
        stage_components,
        stage.environment.duplicate(),
        duplicate_settings(&stage.wire_coder),
        stage.input_pcol.duplicate(),
        duplicate_side_inputs(&stage.side_inputs),
        duplicate_states(&stage.user_states),
        duplicate_timers(&stage.timers),
        outputs,
        transforms,
    );
    proof {
        node_map_is(updated.transforms@);
        let m = partial_map(partials);
        let s = stage.model();
        let r = updated.model();
        assert forall|i: int| 0 <= i < s.output_pcols.len() implies #[trigger] r.output_pcols[i]
            == output_renamed(m, s.output_pcols[i]) by {
            assert(updated.output_pcols@[i].model() == r.output_pcols[i]);
        }
        assert forall|i: int| 0 <= i < s.transforms.len() implies #[trigger] r.transforms[i] == (
        NodeV {
            id: s.transforms[i].id,
            transform: with_outputs(s.transforms[i].transform, m),
        }) by {
            assert(updated.transforms@[i].model() == r.transforms[i]);
        }
    }
    Ok(StageDeduplication { updated_stage: updated, original_to_partial: partials })
}

/// The transform with partial collections in place of the duplicates.
pub fn deduplicate_transform(
    transform: &PTransformNode,
    duplicates: &Vec<PCollectionNode>,
    components: &Components,
) -> (r: Result<TransformDeduplication, BeamTranslationError>)
    requires
        transform.wf(),
        components.wf(),
    ensures
        match r {
            Ok(d) => d.original_to_partial.wf() && d.updated_transform.wf() && pcol_ids(
                duplicates@,
            ).no_duplicates() && are_partials(
                pcols_model(duplicates@),
                components.model().pcollections.dom(),
                partial_map(d.original_to_partial),
            ) && d.updated_transform.model() == (NodeV {
                id: transform.id@,
                transform: with_outputs(
                    transform.transform.model(),
                    partial_map(d.original_to_partial),
                ),
            }),
            Err(e) => e is InvalidArgument && !pcol_ids(duplicates@).no_duplicates(),
        },
{
    let partials: NamedMap<PCollectionNode> = match create_partial_pcollections(
        duplicates,
        components,
    ) {
        Ok(m) => m,
        Err(e) => {
            return Err(e);
        },
    };
    let updated = PTransformNode {
        id: transform.id.clone(),
        transform: update_outputs(&transform.transform, &partials),
    };
    Ok(TransformDeduplication { updated_transform: updated, original_to_partial: partials })
}

} // verus!
