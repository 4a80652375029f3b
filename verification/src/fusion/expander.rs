//! The expansion of splittable ParDos into their parts.
use crate::coders::wire::copy_range;
use crate::fusion::ids::{fresh, generate_unique_id};
use crate::fusion::payload::{decode_par_do, par_do_payload, ParDoFacts, ParDoV};
use crate::jobservice::urns;
use crate::model::{
    coder_map, duplicate_text_map, pcollection_map, text_map, transform_map, transforms_wf, Coder,
    CoderV, CollectionV, Components, ComponentsV, Environment, FunctionSpec, PCollection,
    PTransform, SpecV, TransformV, WindowingStrategy,
};
use crate::named::{has_text, names, texts, NamedMap};
use crate::text::{join2, same_text};
use vstd::prelude::*;
use vstd::string::*;

verus! {

/// A pipeline: its parts, and the transforms at its top.
pub struct Pipeline {
    pub components: Option<Components>,
    pub root_transform_ids: Vec<String>,
}

/// What is put in the place of a transform: new parts, and the transform itself.
/// Either may be missing.
pub struct Replacement {
    pub components: Option<Components>,
    pub root: Option<PTransform>,
}

#[verifier::ext_equal]
pub struct ReplacementV {
    pub components: Option<ComponentsV>,
    pub root: Option<TransformV>,
}

impl Replacement {
    pub open spec fn wf(self) -> bool {
        (self.components matches Some(c) ==> c.wf()) && (self.root matches Some(t) ==> t.wf())
    }

    pub open spec fn model(self) -> ReplacementV {
        ReplacementV {
            components: match self.components {
                Some(c) => Some(c.model()),
                None => None,
            },
            root: match self.root {
                Some(t) => Some(t.model()),
                None => None,
            },
        }
    }
}

pub open spec fn optional_replacement(r: Option<Replacement>) -> Option<ReplacementV> {
    match r {
        Some(r) => Some(r.model()),
        None => None,
    }
}

/// Decides what is put in the place of a transform.
pub trait TransformReplacement {
    /// Whether the reply is one that may come for this transform.
    spec fn replies(&self, id: Seq<char>, c: ComponentsV, r: Option<ReplacementV>) -> bool;

    /// What to put in the place of the transform; nothing to leave it.
    fn get_replacement(&self, transform_id: &str, existing_components: &Components) -> (r: Option<
        Replacement,
    >)
        requires
            existing_components.wf(),
        ensures
            r matches Some(x) ==> x.wf(),
            self.replies(transform_id@, existing_components.model(), optional_replacement(r)),
    ;
}

// ---------------------------------------------------------------------------
// Applying replacements
// ---------------------------------------------------------------------------
/// Whether the transforms below `subs` end within `depth` levels.
pub open spec fn nested_within(
    transforms: Map<Seq<char>, TransformV>,
    subs: Seq<Seq<char>>,
    depth: nat,
) -> bool
    decreases depth,
{
    forall|i: int|
        0 <= i < subs.len() && transforms.contains_key(#[trigger] subs[i]) ==> depth > 0
            && nested_within(transforms, transforms[subs[i]].subtransforms, (depth - 1) as nat)
}

/// The transforms without those in `subs` and all below them.
pub open spec fn without(
    transforms: Map<Seq<char>, TransformV>,
    subs: Seq<Seq<char>>,
    depth: nat,
) -> Map<Seq<char>, TransformV>
    decreases depth, subs.len(),
{
    if subs.len() == 0 {
        transforms
    } else {
        let before = without(transforms, subs.drop_last(), depth);
        let id = subs.last();
        if before.contains_key(id) && depth > 0 {
            without(before, before[id].subtransforms, (depth - 1) as nat).remove(id)
        } else {
            before
        }
    }
}

/// Whether the second holds nothing but entries of the first.
pub open spec fn part_of(
    m: Map<Seq<char>, TransformV>,
    whole: Map<Seq<char>, TransformV>,
) -> bool {
    forall|id: Seq<char>|
        #[trigger]
        m.contains_key(id) ==> whole.contains_key(id) && whole[id] == m[id]
}

proof fn nested_within_part(
    m: Map<Seq<char>, TransformV>,
    whole: Map<Seq<char>, TransformV>,
    subs: Seq<Seq<char>>,
    depth: nat,
)
    requires
        part_of(m, whole),
        nested_within(whole, subs, depth),
    ensures
        nested_within(m, subs, depth),
    decreases depth,
{
    assert forall|i: int| 0 <= i < subs.len() && m.contains_key(#[trigger] subs[i]) implies depth
        > 0 && nested_within(m, m[subs[i]].subtransforms, (depth - 1) as nat) by {
        assert(whole.contains_key(subs[i]));
        nested_within_part(m, whole, whole[subs[i]].subtransforms, (depth - 1) as nat);
    }
}

proof fn without_is_part(transforms: Map<Seq<char>, TransformV>, subs: Seq<Seq<char>>, depth: nat)
    ensures
        part_of(without(transforms, subs, depth), transforms),
    decreases depth, subs.len(),
{
    if subs.len() > 0 {
        without_is_part(transforms, subs.drop_last(), depth);
        let before = without(transforms, subs.drop_last(), depth);
        let id = subs.last();
        if before.contains_key(id) && depth > 0 {
            without_is_part(before, before[id].subtransforms, (depth - 1) as nat);
        }
    }
}

/// Two maps of components, the second's entries in place of the first's.
pub open spec fn merged(a: ComponentsV, b: ComponentsV) -> ComponentsV {
    ComponentsV {
        transforms: a.transforms.union_prefer_right(b.transforms),
        pcollections: a.pcollections.union_prefer_right(b.pcollections),
        windowing_strategies: a.windowing_strategies.union_prefer_right(b.windowing_strategies),
        coders: a.coders.union_prefer_right(b.coders),
        environments: a.environments.union_prefer_right(b.environments),
    }
}

/// The components after a transform was replaced: its subtransforms are gone, the
/// new parts are there, and the new transform has its id.
pub open spec fn replaced(c: ComponentsV, id: Seq<char>, r: ReplacementV, depth: nat) -> ComponentsV {
    let cleared = ComponentsV {
        transforms: without(c.transforms, c.transforms[id].subtransforms, depth),
        ..c
    };
    let joined = match r.components {
        Some(parts) => merged(cleared, parts),
        None => cleared,
    };
    ComponentsV { transforms: joined.transforms.insert(id, r.root->0), ..joined }
}

/// Whether the transform with this id is one that is to be replaced.
pub open spec fn is_target(c: ComponentsV, id: Seq<char>, urn: Seq<char>) -> bool {
    c.transforms.contains_key(id) && c.transforms[id].spec is Some && c.transforms[id].spec->0.urn
        == urn
}

/// Whether `after` comes of `before` by looking at the transform with this id: it
/// is replaced as the reply says, or nothing happens.
pub open spec fn looked_at<R: TransformReplacement>(
    replacement: R,
    urn: Seq<char>,
    before: ComponentsV,
    id: Seq<char>,
    after: ComponentsV,
) -> bool {
    if is_target(before, id, urn) {
        exists|reply: Option<ReplacementV>, depth: nat|
            replacement.replies(id, before, reply) && (if reply is Some && reply->0.root is Some {
                nested_within(before.transforms, before.transforms[id].subtransforms, depth)
                    && after == #[trigger] replaced(before, id, reply->0, depth)
            } else {
                after == before
            })
    } else {
        after == before
    }
}

/// Whether `after` comes of `before` by looking at these transforms in turn.
pub open spec fn looked_at_all<R: TransformReplacement>(
    replacement: R,
    urn: Seq<char>,
    before: ComponentsV,
    ids: Seq<Seq<char>>,
    after: ComponentsV,
) -> bool
    decreases ids.len(),
{
    if ids.len() == 0 {
        after == before
    } else {
        exists|mid: ComponentsV|
            looked_at_all(replacement, urn, before, ids.drop_last(), mid) && #[trigger] looked_at(
                replacement,
                urn,
                mid,
                ids.last(),
                after,
            )
    }
}

/// Whether the transform with this id can come to be replaced: those with the ids in
/// `ids` were looked at, each once, and came to `c`, and this one is still to be.
pub open spec fn is_met<R: TransformReplacement>(
    replacement: R,
    urn: Seq<char>,
    start: ComponentsV,
    ids: Seq<Seq<char>>,
    c: ComponentsV,
    id: Seq<char>,
) -> bool {
    &&& ids.push(id).no_duplicates()
    &&& forall|k: Seq<char>| #[trigger] ids.push(id).contains(k) ==> start.transforms.contains_key(k)
    &&& looked_at_all(replacement, urn, start, ids, c)
    &&& is_target(c, id, urn)
}

/// Whether every replacement that is met keeps the outputs of what it replaces, and no
/// transform that comes to be replaced lies below itself.
pub open spec fn replaces_well<R: TransformReplacement>(
    replacement: R,
    urn: Seq<char>,
    start: ComponentsV,
) -> bool {
    &&& forall|ids: Seq<Seq<char>>, c: ComponentsV, id: Seq<char>, r: ReplacementV|
        #[trigger]
        is_met(replacement, urn, start, ids, c, id) && #[trigger] replacement.replies(
            id,
            c,
            Some(r),
        ) && r.root is Some ==> r.root->0.outputs == c.transforms[id].outputs
    &&& forall|ids: Seq<Seq<char>>, c: ComponentsV, id: Seq<char>|
        #[trigger]
        is_met(replacement, urn, start, ids, c, id) ==> exists|depth: nat|
            nested_within(c.transforms, c.transforms[id].subtransforms, depth)
}

/// Applies replacements to a pipeline.
pub struct ProtoOverrides;

/// A well-formed map of transforms, seen as a map.
proof fn transforms_wf_at(m: NamedMap<PTransform>, k: Seq<char>)
    requires
        transforms_wf(m),
        m@.contains_key(k),
    ensures
        m@[k].wf(),
{
    let i = m.has_entry(k);
    assert(m.entries@[i].1.wf());
}

proof fn transforms_wf_from(m: NamedMap<PTransform>)
    requires
        m.wf(),
        forall|k: Seq<char>| #[trigger] m@.contains_key(k) ==> m@[k].wf(),
    ensures
        transforms_wf(m),
{
    assert forall|i: int| 0 <= i < m.entries@.len() implies (#[trigger] m.entries@[i]).1.wf() by {
        m.entry_at(i);
        assert(m@.contains_key(m.entries@[i].0@));
    }
}

impl ProtoOverrides {
    /// Takes out the transforms in `subs` and all below them.
    fn remove_subtransforms(
        subs: &Vec<String>,
        target: &mut NamedMap<PTransform>,
        Ghost(depth): Ghost<nat>,
    )
        requires
            transforms_wf(*old(target)),
            nested_within(transform_map(*old(target)), texts(subs@), depth),
        ensures
            transforms_wf(*final(target)),
            transform_map(*final(target)) == without(
                transform_map(*old(target)),
                texts(subs@),
                depth,
            ),
        decreases depth,
    {
        let ghost start = transform_map(*target);
        let ghost all = texts(subs@);
        let n: usize = subs.len();
        let mut i: usize = 0;
        assert(all.take(0) =~= seq![]);
        while i < n
            invariant
                n == subs@.len(),
                i <= n,
                all == texts(subs@),
                transforms_wf(*target),
                nested_within(start, all, depth),
                transform_map(*target) == without(start, all.take(i as int), depth),
            decreases n - i,
        {
            let ghost m = transform_map(*target);
            let ghost id = subs@[i as int]@;
            proof {
                assert(all[i as int] == id);
                assert(all.take(i + 1).drop_last() =~= all.take(i as int));
                assert(all.take(i + 1).last() == id);
                without_is_part(start, all.take(i as int), depth);
            }
            let below: Option<Vec<String>> = match target.get(subs[i].as_str()) {
                Some(t) => Some(crate::named::copy_texts(&t.subtransforms)),
                None => None,
            };
            match below {
                Some(below) => {
                    proof {
                        assert(m.contains_key(id));
                        assert(start.contains_key(all[i as int]));
                        assert(m[id].subtransforms == texts(below@));
                        nested_within_part(
                            m,
                            start,
                            start[id].subtransforms,
                            (depth - 1) as nat,
                        );
                    }
                    Self::remove_subtransforms(&below, target, Ghost((depth - 1) as nat));
                    let ghost cleared = *target;
                    let _ = target.remove(subs[i].as_str());
                    proof {
                        assert(transform_map(*target) =~= transform_map(cleared).remove(id));
                        assert forall|k: Seq<char>| #[trigger] target@.contains_key(k) implies
                            target@[k].wf() by {
                            transforms_wf_at(cleared, k);
                        }
                        transforms_wf_from(*target);
                    }
                },
                None => {
                    assert(!m.contains_key(id));
                },
            }
            i = i + 1;
        }
        assert(all.take(n as int) =~= all);
    }

    /// Replaces every transform of the pipeline with this name for which the
    /// replacement has something to put in its place.
    pub fn update_transform<R: TransformReplacement>(
        urn: &str,
        pipeline: &Pipeline,
        replacement: &R,
    ) -> (r: Pipeline)
        requires
            pipeline.components matches Some(c) && c.wf(),
            replaces_well(*replacement, urn@, pipeline.components->0.model()),
        ensures
            r.components matches Some(c) && c.wf() && exists|ids: Seq<Seq<char>>|
                ids.no_duplicates() && ids.to_set()
                    == pipeline.components->0.model().transforms.dom() && looked_at_all(
                    *replacement,
                    urn@,
                    pipeline.components->0.model(),
                    ids,
                    c.model(),
                ),
            texts(r.root_transform_ids@) == texts(pipeline.root_transform_ids@),
    {
        let given: &Components = pipeline.components.as_ref().unwrap();
        let mut result: Components = given.duplicate();
        let ghost start = given.model();
        let ids: Vec<String> = given.transforms.keys();
        let ghost all = texts(ids@);
        let n: usize = ids.len();
        let mut i: usize = 0;
        assert(all.take(0) =~= seq![]);
        while i < n
            invariant
                n == ids@.len(),
                i <= n,
                all == texts(ids@),
                result.wf(),
                all.no_duplicates(),
                all.to_set() == start.transforms.dom(),
                replaces_well(*replacement, urn@, start),
                looked_at_all(*replacement, urn@, start, all.take(i as int), result.model()),
            decreases n - i,
        {
            let ghost before = result.model();
            let ghost id = ids@[i as int]@;
            proof {
                assert(all[i as int] == id);
                assert(all.take(i + 1).drop_last() =~= all.take(i as int));
                assert(all.take(i + 1).last() == id);
            }
            proof {
                if is_target(before, id, urn@) {
                    let seen = all.take(i as int);
                    assert(seen.push(id) =~= all.take(i + 1));
                    assert forall|k: Seq<char>| #[trigger] seen.push(id).contains(k) implies
                        start.transforms.contains_key(k) by {
                        let j = choose|j: int| 0 <= j <= i && seen.push(id)[j] == k;
                        assert(all[j] == k);
                        assert(all.to_set().contains(k));
                    }
                    assert(is_met(*replacement, urn@, start, seen, before, id));
                    assert(exists|depth: nat|
                        nested_within(
                            before.transforms,
                            before.transforms[id].subtransforms,
                            depth,
                        ));
                }
            }
            result = Self::look_at(urn, result, ids[i].as_str(), replacement);
            assert(looked_at_all(
                *replacement,
                urn@,
                start,
                all.take(i + 1).drop_last(),
                before,
            ));
            assert(looked_at_all(*replacement, urn@, start, all.take(i + 1), result.model()));
            i = i + 1;
        }
        proof {
            assert(all.take(n as int) =~= all);
            assert(all.to_set() == start.transforms.dom());
        }
        Pipeline {
            components: Some(result),
            root_transform_ids: crate::named::copy_texts(&pipeline.root_transform_ids),
        }
    }

    /// Replaces the transform with this id, if it is one of those with this name
    /// and there is something to put in its place.
    fn look_at<R: TransformReplacement>(
        urn: &str,
        components: Components,
        id: &str,
        replacement: &R,
    ) -> (r: Components)
        requires
            components.wf(),
            is_target(components.model(), id@, urn@) ==> exists|depth: nat|
                nested_within(
                    components.model().transforms,
                    components.model().transforms[id@].subtransforms,
                    depth,
                ),
        ensures
            r.wf(),
            looked_at(*replacement, urn@, components.model(), id@, r.model()),
    {
        let mut result = components;
        let ghost before = result.model();
        let subs: Option<Vec<String>> = match result.transforms.get(id) {
            Some(t) => match &t.spec {
                Some(s) => if same_text(s.urn.as_str(), urn) {
                    Some(crate::named::copy_texts(&t.subtransforms))
                } else {
                    None
                },
                None => None,
            },
            None => None,
        };
        let subs: Vec<String> = match subs {
            Some(subs) => subs,
            None => {
                return result;
            },
        };
        assert(is_target(before, id@, urn@));
        let reply: Option<Replacement> = replacement.get_replacement(id, &result);
        let ghost answer = optional_replacement(reply);
        let reply: Replacement = match reply {
            Some(reply) => reply,
            None => {
                proof {
                    let x = replaced(before, id@, answer->0, 0);
                    assert(replacement.replies(id@, before, answer));
                }
                return result;
            },
        };
        let ghost said = reply.model();
        let root: PTransform = match reply.root {
            Some(root) => root,
            None => {
                proof {
                    let x = replaced(before, id@, answer->0, 0);
                    assert(replacement.replies(id@, before, answer));
                }
                return result;
            },
        };
        let ghost depth = choose|depth: nat|
            nested_within(before.transforms, before.transforms[id@].subtransforms, depth);
        proof {
            assert(nested_within(before.transforms, before.transforms[id@].subtransforms, depth));
        }
        Self::remove_subtransforms(&subs, &mut result.transforms, Ghost(depth));
        match reply.components {
            Some(parts) => {
                merge(&mut result, parts);
            },
            None => {},
        }
        let ghost joined = result;
        result.transforms.insert(id.to_owned(), root);
        proof {
            assert(transform_map(result.transforms) =~= transform_map(joined.transforms).insert(
                id@,
                root.model(),
            ));
            assert forall|k: Seq<char>| #[trigger] result.transforms@.contains_key(k) implies
                result.transforms@[k].wf() by {
                if k != id@ {
                    transforms_wf_at(joined.transforms, k);
                }
            }
            transforms_wf_from(result.transforms);
            assert(answer->0 == said);
            assert(result.model() =~= replaced(before, id@, answer->0, depth));
            assert(replacement.replies(id@, before, answer));
        }
        result
    }
}

proof fn union_values<T, M>(a: Map<Seq<char>, T>, b: Map<Seq<char>, T>, f: spec_fn(T) -> M)
    ensures
        a.union_prefer_right(b).map_values(f) == a.map_values(f).union_prefer_right(
            b.map_values(f),
        ),
{
    assert(a.union_prefer_right(b).map_values(f) =~= a.map_values(f).union_prefer_right(
        b.map_values(f),
    ));
}

/// Adds the parts of the second, in place of those of the first.
fn merge(target: &mut Components, parts: Components)
    requires
        old(target).wf(),
        parts.wf(),
    ensures
        final(target).wf(),
        final(target).model() == merged(old(target).model(), parts.model()),
{
    let ghost a = *target;
    target.transforms.extend(parts.transforms);
    target.pcollections.extend(parts.pcollections);
    target.coders.extend(parts.coders);
    target.windowing_strategies.extend(parts.windowing_strategies);
    target.environments.extend(parts.environments);
    proof {
        union_values(a.transforms@, parts.transforms@, |t: PTransform| t.model());
        union_values(a.pcollections@, parts.pcollections@, |c: PCollection| c.model());
        union_values(a.coders@, parts.coders@, |c: Coder| c.model());
        union_values(
            a.windowing_strategies@,
            parts.windowing_strategies@,
            |s: WindowingStrategy| s.model(),
        );
        union_values(a.environments@, parts.environments@, |e: Environment| e.model());
        assert forall|k: Seq<char>| #[trigger] target.transforms@.contains_key(k) implies
            target.transforms@[k].wf() by {
            if parts.transforms@.contains_key(k) {
                transforms_wf_at(parts.transforms, k);
            } else {
                transforms_wf_at(a.transforms, k);
            }
        }
        transforms_wf_from(target.transforms);
    }
}

// ---------------------------------------------------------------------------
// The expansion of a splittable ParDo
// ---------------------------------------------------------------------------
/// The ways to expand a splittable ParDo.
pub struct SplittableParDoExpander;

impl SplittableParDoExpander {
    /// The expansion into pairing, splitting and processing.
    pub fn create_sized_replacement() -> (r: SizedReplacement)
        ensures
            !r.is_drain,
    {
        SizedReplacement { is_drain: false }
    }

    /// The expansion for draining, which truncates before it processes.
    pub fn create_truncate_replacement() -> (r: SizedReplacement)
        ensures
            r.is_drain,
    {
        SizedReplacement { is_drain: true }
    }
}

/// The expansion of a splittable ParDo.
pub struct SizedReplacement {
    pub is_drain: bool,
}

/// Whether `name` may be taken for the main input: an input that is no side input;
/// any input where all are side inputs; the empty name where there is none.
pub open spec fn is_main_input(t: TransformV, p: ParDoV, name: Seq<char>) -> bool {
    if exists|n: Seq<char>| t.inputs.contains_key(n) && !p.side_inputs.contains(n) {
        t.inputs.contains_key(name) && !p.side_inputs.contains(name)
    } else if exists|n: Seq<char>| t.inputs.contains_key(n) {
        t.inputs.contains_key(name)
    } else {
        name.len() == 0
    }
}

/// Whether the coder is that of floating-point numbers.
pub open spec fn is_double(coders: Map<Seq<char>, CoderV>, id: Seq<char>) -> bool {
    coders.contains_key(id) && coders[id].spec is Some && coders[id].spec->0.urn
        == urns::DOUBLE_CODER@
}

/// Whether `id` may be taken for the coder of floating-point numbers: one that is
/// there, or a new id where there is none.
pub open spec fn is_double_choice(coders: Map<Seq<char>, CoderV>, id: Seq<char>) -> bool {
    if exists|d: Seq<char>| is_double(coders, d) {
        is_double(coders, id)
    } else {
        id == fresh("DoubleCoder"@, coders.dom())
    }
}

pub open spec fn double_coder() -> CoderV {
    CoderV {
        spec: Some(SpecV { urn: urns::DOUBLE_CODER@, payload: seq![] }),
        component_coder_ids: seq![],
    }
}

pub open spec fn kv_coder(key: Seq<char>, value: Seq<char>) -> CoderV {
    CoderV {
        spec: Some(SpecV { urn: urns::KV_CODER@, payload: seq![] }),
        component_coder_ids: seq![key, value],
    }
}

/// The unique names of the collections.
pub open spec fn taken_names(c: ComponentsV) -> Set<Seq<char>> {
    c.pcollections.dom().map(|id: Seq<char>| c.pcollections[id].unique_name)
}

/// A collection like `template`, with another coder and a new name.
pub open spec fn like_collection(
    c: ComponentsV,
    coder_id: Seq<char>,
    template: CollectionV,
    prefix: Seq<char>,
) -> CollectionV {
    CollectionV {
        unique_name: fresh(prefix, taken_names(c)),
        coder_id,
        is_bounded: template.is_bounded,
        windowing_strategy_id: template.windowing_strategy_id,
    }
}

/// A part of the expansion of `t`.
pub open spec fn part_transform(
    c: ComponentsV,
    t: TransformV,
    urn: Seq<char>,
    inputs: Map<Seq<char>, Seq<char>>,
    outputs: Map<Seq<char>, Seq<char>>,
    suffix: Seq<char>,
) -> TransformV {
    TransformV {
        unique_name: fresh(t.unique_name + suffix, taken_names(c)),
        spec: Some(SpecV { urn, payload: t.spec->0.payload }),
        subtransforms: seq![],
        inputs,
        outputs,
        environment_id: t.environment_id,
    }
}

/// The main input at `source` and the side inputs of the ParDo.
pub open spec fn inputs_from(
    t: TransformV,
    p: ParDoV,
    main: Seq<char>,
    source: Seq<char>,
) -> Map<Seq<char>, Seq<char>> {
    Map::<Seq<char>, Seq<char>>::empty().insert(main, source).union_prefer_right(
        t.inputs.restrict(p.side_inputs),
    )
}

/// The single output `out`.
pub open spec fn output_to(target: Seq<char>) -> Map<Seq<char>, Seq<char>> {
    Map::<Seq<char>, Seq<char>>::empty().insert("out"@, target)
}

/// The ids that an expansion makes up.
pub struct ExpansionIds {
    pub pair_coder: Seq<char>,
    pub pair_out: Seq<char>,
    pub split_coder: Seq<char>,
    pub split_out: Seq<char>,
    pub pair: Seq<char>,
    pub split: Seq<char>,
    pub process: Seq<char>,
    pub truncate_coder: Seq<char>,
    pub truncate_out: Seq<char>,
    pub truncate: Seq<char>,
}

/// Every id is new among those that are there.
pub open spec fn expansion_ids(c: ComponentsV, id: Seq<char>, input: Seq<char>) -> ExpansionIds {
    let coder = c.pcollections[input].coder_id;
    ExpansionIds {
        pair_coder: fresh(coder + "/PairWithRestriction"@, c.coders.dom()),
        pair_out: fresh(input + "/PairWithRestriction"@, c.pcollections.dom()),
        split_coder: fresh(coder + "/SplitAndSize"@, c.coders.dom()),
        split_out: fresh(input + "/SplitAndSize"@, c.pcollections.dom()),
        pair: fresh(id + "/PairWithRestriction"@, c.transforms.dom()),
        split: fresh(id + "/SplitAndSize"@, c.transforms.dom()),
        process: fresh(id + "/ProcessSizedElementsAndRestrictions"@, c.transforms.dom()),
        truncate_coder: fresh(coder + "/TruncateAndSize"@, c.coders.dom()),
        truncate_out: fresh(input + "/TruncateAndSize"@, c.pcollections.dom()),
        truncate: fresh(id + "/TruncateAndSize"@, c.transforms.dom()),
    }
}

/// The new coders.
pub open spec fn expansion_coders(
    c: ComponentsV,
    p: ParDoV,
    input: Seq<char>,
    double: Seq<char>,
    ids: ExpansionIds,
    is_drain: bool,
) -> Map<Seq<char>, CoderV> {
    let element = c.pcollections[input].coder_id;
    let first = Map::<Seq<char>, CoderV>::empty().insert(
        ids.pair_coder,
        kv_coder(element, p.restriction_coder_id),
    );
    let second = with_double(c, first, double).insert(
        ids.split_coder,
        kv_coder(ids.pair_coder, double),
    );
    if is_drain {
        with_double(c, second, double).insert(
            ids.truncate_coder,
            kv_coder(ids.split_coder, double),
        )
    } else {
        second
    }
}

/// The coders with that of floating-point numbers, where the pipeline has none.
pub open spec fn with_double(
    c: ComponentsV,
    coders: Map<Seq<char>, CoderV>,
    double: Seq<char>,
) -> Map<Seq<char>, CoderV> {
    if exists|d: Seq<char>| is_double(c.coders, d) {
        coders
    } else {
        coders.insert(double, double_coder())
    }
}

/// The new collections.
pub open spec fn expansion_pcollections(
    c: ComponentsV,
    input: Seq<char>,
    ids: ExpansionIds,
    is_drain: bool,
) -> Map<Seq<char>, CollectionV> {
    let template = c.pcollections[input];
    let two = Map::<Seq<char>, CollectionV>::empty().insert(
        ids.pair_out,
        like_collection(
            c,
            ids.pair_coder,
            template,
            template.unique_name + "/PairWithRestriction"@,
        ),
    ).insert(
        ids.split_out,
        like_collection(c, ids.split_coder, template, template.unique_name + "/SplitAndSize"@),
    );
    if is_drain {
        two.insert(
            ids.truncate_out,
            like_collection(
                c,
                ids.truncate_coder,
                template,
                template.unique_name + "/TruncateAndSize"@,
            ),
        )
    } else {
        two
    }
}

/// The new transforms: pairing, splitting, truncating if it is a drain, and
/// processing, each fed by the one before it.
pub open spec fn expansion_transforms(
    c: ComponentsV,
    t: TransformV,
    p: ParDoV,
    main: Seq<char>,
    ids: ExpansionIds,
    is_drain: bool,
) -> Map<Seq<char>, TransformV> {
    let pair = part_transform(
        c,
        t,
        urns::SPLITTABLE_PAIR_WITH_RESTRICTION_URN@,
        t.inputs,
        output_to(ids.pair_out),
        "/PairWithRestriction"@,
    );
    let split = part_transform(
        c,
        t,
        urns::SPLITTABLE_SPLIT_AND_SIZE_RESTRICTIONS_URN@,
        inputs_from(t, p, main, ids.pair_out),
        output_to(ids.split_out),
        "/SplitAndSize"@,
    );
    let truncate = part_transform(
        c,
        t,
        urns::SPLITTABLE_TRUNCATE_SIZED_RESTRICTION_URN@,
        inputs_from(t, p, main, ids.split_out),
        output_to(ids.truncate_out),
        "/TruncateAndSize"@,
    );
    let process = part_transform(
        c,
        t,
        urns::SPLITTABLE_PROCESS_SIZED_ELEMENTS_AND_RESTRICTIONS_URN@,
        inputs_from(
            t,
            p,
            main,
            if is_drain {
                ids.truncate_out
            } else {
                ids.split_out
            },
        ),
        t.outputs,
        "/ProcessSizedElementsAndRestrictions"@,
    );
    let two = Map::<Seq<char>, TransformV>::empty().insert(ids.pair, pair).insert(
        ids.split,
        split,
    );
    let three = if is_drain {
        two.insert(ids.truncate, truncate)
    } else {
        two
    };
    three.insert(ids.process, process)
}

/// The ids of the parts, in order.
pub open spec fn expansion_subtransforms(ids: ExpansionIds, is_drain: bool) -> Seq<Seq<char>> {
    if is_drain {
        seq![ids.pair, ids.split, ids.truncate, ids.process]
    } else {
        seq![ids.pair, ids.split, ids.process]
    }
}

/// The expansion of a splittable ParDo of these facts with this main input and this coder
/// of floating-point numbers; there is none where the main input leads nowhere.
pub open spec fn expansion(
    is_drain: bool,
    c: ComponentsV,
    id: Seq<char>,
    p: ParDoV,
    main: Seq<char>,
    double: Seq<char>,
) -> Option<ReplacementV> {
    let t = c.transforms[id];
    if !t.inputs.contains_key(main) || !c.pcollections.contains_key(t.inputs[main]) {
        None
    } else {
        let input = t.inputs[main];
        let ids = expansion_ids(c, id, input);
        Some(
            ReplacementV {
                components: Some(
                    ComponentsV {
                        transforms: expansion_transforms(c, t, p, main, ids, is_drain),
                        pcollections: expansion_pcollections(c, input, ids, is_drain),
                        windowing_strategies: Map::empty(),
                        coders: expansion_coders(c, p, input, double, ids, is_drain),
                        environments: Map::empty(),
                    },
                ),
                root: Some(
                    TransformV {
                        spec: None,
                        subtransforms: expansion_subtransforms(ids, is_drain),
                        ..t
                    },
                ),
            },
        )
    }
}

/// What the expansion of a transform of these facts may be. There is none of a transform
/// without a restriction coder.
pub open spec fn expands_to(
    is_drain: bool,
    c: ComponentsV,
    id: Seq<char>,
    p: ParDoV,
    r: Option<ReplacementV>,
) -> bool {
    if !c.transforms.contains_key(id) || c.transforms[id].spec is None
        || p.restriction_coder_id.len() == 0 {
        r is None
    } else {
        exists|main: Seq<char>, double: Seq<char>|
            is_main_input(c.transforms[id], p, main) && is_double_choice(c.coders, double) && r
                == #[trigger] expansion(is_drain, c, id, p, main, double)
    }
}

/// What the expansion of a transform may be: that by the facts in its payload, and none
/// where they cannot be read.
pub open spec fn may_expand_to(
    is_drain: bool,
    c: ComponentsV,
    id: Seq<char>,
    r: Option<ReplacementV>,
) -> bool {
    if c.transforms.contains_key(id) && c.transforms[id].spec is Some && par_do_payload(
        c.transforms[id].spec->0.payload,
    ) is Some {
        expands_to(is_drain, c, id, par_do_payload(c.transforms[id].spec->0.payload)->0, r)
    } else {
        r is None
    }
}

/// A name for the main input of a ParDo.
pub fn get_main_input_name_from_payload(transform: &PTransform, payload: &ParDoFacts) -> (r: String)
    requires
        transform.wf(),
    ensures
        is_main_input(transform.model(), payload.model(), r@),
{
    let ghost t = transform.model();
    let ghost p = payload.model();
    let n: usize = transform.inputs.entries.len();
    let mut i: usize = 0;
    while i < n
        invariant
            n == transform.inputs.entries@.len(),
            i <= n,
            transform.wf(),
            t == transform.model(),
            p == payload.model(),
            forall|j: int|
                0 <= j < i ==> p.side_inputs.contains(
                    (#[trigger] transform.inputs.entries@[j]).0@,
                ),
        decreases n - i,
    {
        proof {
            transform.inputs.entry_at(i as int);
        }
        let name: &String = &transform.inputs.entries[i].0;
        if !has_text(&payload.side_inputs, name.as_str()) {
            assert(t.inputs.contains_key(name@) && !p.side_inputs.contains(name@));
            return name.clone();
        }
        i = i + 1;
    }
    proof {
        assert forall|m: Seq<char>| t.inputs.contains_key(m) implies p.side_inputs.contains(m) by {
            let j = transform.inputs.has_entry(m);
            assert(p.side_inputs.contains(transform.inputs.entries@[j].0@));
        }
    }
    if n > 0 {
        proof {
            transform.inputs.entry_at(0);
            assert(t.inputs.contains_key(transform.inputs.entries@[0].0@));
        }
        transform.inputs.entries[0].0.clone()
    } else {
        proof {
            assert forall|m: Seq<char>| !t.inputs.contains_key(m) by {
                if transform.inputs@.contains_key(m) {
                    let j = transform.inputs.has_entry(m);
                }
            }
        }
        String::new()
    }
}

/// The coder of pairs with these two coders.
pub fn make_kv_coder(key_coder_id: &str, value_coder_id: &str) -> (r: Coder)
    ensures
        r.model() == kv_coder(key_coder_id@, value_coder_id@),
{
    let mut ids: Vec<String> = Vec::new();
    ids.push(key_coder_id.to_owned());
    ids.push(value_coder_id.to_owned());
    assert(texts(ids@) =~= seq![key_coder_id@, value_coder_id@]);
    Coder {
        spec: Some(FunctionSpec { urn: urns::KV_CODER.to_owned(), payload: Vec::new() }),
        component_coder_ids: ids,
    }
}

/// The unique names of the collections.
fn unique_names(components: &Components) -> (r: Vec<String>)
    requires
        components.wf(),
    ensures
        texts(r@).to_set() == taken_names(components.model()),
{
    let n: usize = components.pcollections.entries.len();
    let ghost c = components.model();
    let mut out: Vec<String> = Vec::new();
    let mut i: usize = 0;
    while i < n
        invariant
            n == components.pcollections.entries@.len(),
            i <= n,
            out@.len() == i,
            forall|j: int|
                0 <= j < i ==> (#[trigger] out@[j])@
                    == components.pcollections.entries@[j].1.unique_name@,
        decreases n - i,
    {
        out.push(components.pcollections.entries[i].1.unique_name.clone());
        i = i + 1;
    }
    proof {
        let f = |id: Seq<char>| c.pcollections[id].unique_name;
        assert forall|x: Seq<char>|
            texts(out@).to_set().contains(x) == taken_names(c).contains(x) by {
            if texts(out@).contains(x) {
                let j = choose|j: int| 0 <= j < texts(out@).len() && texts(out@)[j] == x;
                components.pcollections.entry_at(j);
                let id = components.pcollections.entries@[j].0@;
                assert(out@[j]@ == x);
                assert(c.pcollections.dom().contains(id) && f(id) == x);
            }
            if taken_names(c).contains(x) {
                let id = choose|id: Seq<char>| c.pcollections.dom().contains(id) && f(id) == x;
                let j = components.pcollections.has_entry(id);
                assert(texts(out@)[j] == out@[j]@);
            }
        }
        assert(texts(out@).to_set() =~= taken_names(c));
    }
    out
}

/// A name that no collection has.
pub fn generate_unique_pcollection_name(prefix: &str, existing_components: &Components) -> (r:
    String)
    requires
        existing_components.wf(),
    ensures
        r@ == fresh(prefix@, taken_names(existing_components.model())),
{
    let taken: Vec<String> = unique_names(existing_components);
    generate_unique_id(prefix, &taken)
}

/// A collection like `template`, with another coder and a new name.
pub fn make_pcollection(
    coder_id: &str,
    template: &PCollection,
    unique_name_prefix: &str,
    existing_components: &Components,
) -> (r: PCollection)
    requires
        existing_components.wf(),
    ensures
        r.model() == like_collection(
            existing_components.model(),
            coder_id@,
            template.model(),
            unique_name_prefix@,
        ),
{
    PCollection {
        unique_name: generate_unique_pcollection_name(unique_name_prefix, existing_components),
        coder_id: coder_id.to_owned(),
        is_bounded: template.is_bounded,
        windowing_strategy_id: template.windowing_strategy_id.clone(),
    }
}

/// A part of the expansion of `original`.
pub fn make_sdf_sub_transform(
    urn: &str,
    original: &PTransform,
    inputs: NamedMap<String>,
    outputs: NamedMap<String>,
    suffix: &str,
    existing_components: &Components,
) -> (r: PTransform)
    requires
        existing_components.wf(),
        inputs.wf(),
        outputs.wf(),
        original.spec is Some,
    ensures
        r.wf(),
        r.model() == part_transform(
            existing_components.model(),
            original.model(),
            urn@,
            text_map(inputs),
            text_map(outputs),
            suffix@,
        ),
{
    let prefix: String = join2(original.unique_name.as_str(), suffix);
    let payload: Vec<u8> = match &original.spec {
        Some(s) => copy_range(&s.payload, 0, s.payload.len()),
        None => Vec::new(),
    };
    let none: Vec<String> = Vec::new();
    let r = PTransform {
        unique_name: generate_unique_pcollection_name(prefix.as_str(), existing_components),
        spec: Some(FunctionSpec { urn: urn.to_owned(), payload }),
        subtransforms: none,
        inputs,
        outputs,
        environment_id: original.environment_id.clone(),
    };
    proof {
        assert(texts(none@) =~= seq![]);
        assert(payload@ =~= original.model().spec->0.payload);
    }
    r
}

/// The id of the coder of floating-point numbers; it is added to the new coders
/// where the pipeline has none.
pub fn get_or_add_double_coder(
    existing_components: &Components,
    out_components: &mut Components,
) -> (r: String)
    requires
        existing_components.wf(),
        old(out_components).wf(),
    ensures
        final(out_components).wf(),
        is_double_choice(existing_components.model().coders, r@),
        final(out_components).model() == (ComponentsV {
            coders: with_double(
                existing_components.model(),
                old(out_components).model().coders,
                r@,
            ),
            ..old(out_components).model()
        }),
{
    let ghost c = existing_components.model();
    let n: usize = existing_components.coders.entries.len();
    let mut i: usize = 0;
    while i < n
        invariant
            n == existing_components.coders.entries@.len(),
            i <= n,
            existing_components.wf(),
            c == existing_components.model(),
            *out_components == *old(out_components),
            old(out_components).wf(),
            forall|j: int|
                0 <= j < i ==> !is_double(
                    c.coders,
                    (#[trigger] existing_components.coders.entries@[j]).0@,
                ),
        decreases n - i,
    {
        proof {
            existing_components.coders.entry_at(i as int);
        }
        let id: &String = &existing_components.coders.entries[i].0;
        match &existing_components.coders.entries[i].1.spec {
            Some(s) => if same_text(s.urn.as_str(), urns::DOUBLE_CODER) {
                assert(is_double(c.coders, id@));
                return id.clone();
            },
            None => {},
        }
        i = i + 1;
    }
    proof {
        assert forall|d: Seq<char>| !is_double(c.coders, d) by {
            if c.coders.contains_key(d) {
                let j = existing_components.coders.has_entry(d);
                assert(!is_double(c.coders, existing_components.coders.entries@[j].0@));
            }
        }
    }
    let taken: Vec<String> = existing_components.coders.keys();
    let id: String = generate_unique_id("DoubleCoder", &taken);
    let ghost before = *out_components;
    let none: Vec<String> = Vec::new();
    let coder = Coder {
        spec: Some(FunctionSpec { urn: urns::DOUBLE_CODER.to_owned(), payload: Vec::new() }),
        component_coder_ids: none,
    };
    proof {
        assert(texts(none@) =~= seq![]);
        assert(coder.model() == double_coder());
        assert(texts(taken@).to_set() =~= c.coders.dom());
    }
    out_components.coders.insert(id.clone(), coder);
    assert(coder_map(out_components.coders) =~= coder_map(before.coders).insert(
        id@,
        double_coder(),
    ));
    id
}

/// The main input at `source` and the side inputs of the ParDo.
fn make_inputs(transform: &PTransform, payload: &ParDoFacts, main: &str, source: &str) -> (r:
    NamedMap<String>)
    requires
        transform.wf(),
    ensures
        r.wf(),
        text_map(r) == inputs_from(transform.model(), payload.model(), main@, source@),
{
    let mut out: NamedMap<String> = NamedMap::new();
    out.insert(main.to_owned(), source.to_owned());
    let ghost base = Map::<Seq<char>, Seq<char>>::empty().insert(main@, source@);
    let ghost t = transform.model();
    let ghost p = payload.model();
    let ghost mut done: Map<Seq<char>, Seq<char>> = Map::empty();
    assert(text_map(out) =~= base.union_prefer_right(done));
    let n: usize = transform.inputs.entries.len();
    let mut i: usize = 0;
    while i < n
        invariant
            n == transform.inputs.entries@.len(),
            i <= n,
            transform.wf(),
            t == transform.model(),
            p == payload.model(),
            out.wf(),
            text_map(out) == base.union_prefer_right(done),
            forall|k: Seq<char>|
                #[trigger]
                done.dom().contains(k) <==> p.side_inputs.contains(k) && exists|j: int|
                    0 <= j < i && (#[trigger] transform.inputs.entries@[j]).0@ == k,
            forall|k: Seq<char>| #[trigger] done.dom().contains(k) ==> done[k] == t.inputs[k],
        decreases n - i,
    {
        let ghost before = done;
        let ghost k0 = transform.inputs.entries@[i as int].0@;
        let ghost v0 = transform.inputs.entries@[i as int].1@;
        let ghost held = out;
        proof {
            transform.inputs.entry_at(i as int);
        }
        let name: &String = &transform.inputs.entries[i].0;
        if has_text(&payload.side_inputs, name.as_str()) {
            out.insert(name.clone(), transform.inputs.entries[i].1.clone());
            proof {
                done = before.insert(k0, v0);
                assert(text_map(out) =~= text_map(held).insert(k0, v0));
                assert(text_map(out) =~= base.union_prefer_right(done));
            }
        }
        proof {
            assert forall|k: Seq<char>|
                #[trigger]
                done.dom().contains(k) <==> p.side_inputs.contains(k) && exists|j: int|
                    0 <= j < i + 1 && (#[trigger] transform.inputs.entries@[j]).0@ == k by {
                if done.dom().contains(k) {
                    if before.dom().contains(k) {
                        let j = choose|j: int|
                            0 <= j < i && (#[trigger] transform.inputs.entries@[j]).0@ == k;
                        assert(transform.inputs.entries@[j].0@ == k);
                    } else {
                        assert(transform.inputs.entries@[i as int].0@ == k);
                    }
                }
                if p.side_inputs.contains(k) && exists|j: int|
                    0 <= j < i + 1 && (#[trigger] transform.inputs.entries@[j]).0@ == k {
                    let j = choose|j: int|
                        0 <= j < i + 1 && (#[trigger] transform.inputs.entries@[j]).0@ == k;
                    if j < i {
                        assert(before.dom().contains(k));
                    }
                }
            }
        }
        i = i + 1;
    }
    proof {
        let side = t.inputs.restrict(p.side_inputs);
        assert forall|k: Seq<char>| done.dom().contains(k) == side.dom().contains(k) by {
            if t.inputs.contains_key(k) {
                let j = transform.inputs.has_entry(k);
                assert(transform.inputs.entries@[j].0@ == k);
            }
            if done.dom().contains(k) {
                let j = choose|j: int|
                    0 <= j < n && (#[trigger] transform.inputs.entries@[j]).0@ == k;
                transform.inputs.entry_at(j);
            }
        }
        assert(done =~= side);
    }
    out
}

/// The single output `out`.
fn make_output(target: &str) -> (r: NamedMap<String>)
    ensures
        r.wf(),
        text_map(r) == output_to(target@),
{
    let mut out: NamedMap<String> = NamedMap::new();
    out.insert("out".to_owned(), target.to_owned());
    assert(text_map(out) =~= output_to(target@));
    out
}

fn fresh_among<T>(prefix: &str, suffix: &str, taken: &NamedMap<T>) -> (r: String)
    requires
        taken.wf(),
    ensures
        r@ == fresh(prefix@ + suffix@, taken@.dom()),
{
    let ids: Vec<String> = taken.keys();
    let start: String = join2(prefix, suffix);
    generate_unique_id(start.as_str(), &ids)
}

/// Adds a coder to the new parts.
fn add_coder(out: &mut Components, id: &str, coder: Coder)
    requires
        old(out).wf(),
    ensures
        final(out).wf(),
        final(out).model() == (ComponentsV {
            coders: old(out).model().coders.insert(id@, coder.model()),
            ..old(out).model()
        }),
{
    let ghost before = *out;
    out.coders.insert(id.to_owned(), coder);
    assert(coder_map(out.coders) =~= coder_map(before.coders).insert(id@, coder.model()));
}

/// Adds a collection to the new parts.
fn add_pcollection(out: &mut Components, id: &str, collection: PCollection)
    requires
        old(out).wf(),
    ensures
        final(out).wf(),
        final(out).model() == (ComponentsV {
            pcollections: old(out).model().pcollections.insert(id@, collection.model()),
            ..old(out).model()
        }),
{
    let ghost before = *out;
    out.pcollections.insert(id.to_owned(), collection);
    assert(pcollection_map(out.pcollections) =~= pcollection_map(before.pcollections).insert(
        id@,
        collection.model(),
    ));
}

/// Adds a transform to the new parts.
fn add_transform(out: &mut Components, id: &str, transform: PTransform)
    requires
        old(out).wf(),
        transform.wf(),
    ensures
        final(out).wf(),
        final(out).model() == (ComponentsV {
            transforms: old(out).model().transforms.insert(id@, transform.model()),
            ..old(out).model()
        }),
{
    let ghost before = *out;
    out.transforms.insert(id.to_owned(), transform);
    proof {
        assert(transform_map(out.transforms) =~= transform_map(before.transforms).insert(
            id@,
            transform.model(),
        ));
        assert forall|k: Seq<char>| #[trigger] out.transforms@.contains_key(k) implies
            out.transforms@[k].wf() by {
            if k != id@ {
                transforms_wf_at(before.transforms, k);
            }
        }
        transforms_wf_from(out.transforms);
    }
}

impl TransformReplacement for SizedReplacement {
    open spec fn replies(&self, id: Seq<char>, c: ComponentsV, r: Option<ReplacementV>) -> bool {
        may_expand_to(self.is_drain, c, id, r)
    }

    fn get_replacement(&self, transform_id: &str, existing_components: &Components) -> (r: Option<
        Replacement,
    >) {
        let ghost c = existing_components.model();
        let original: &PTransform = match existing_components.transforms.get(transform_id) {
            Some(t) => t,
            None => {
                return None;
            },
        };
        proof {
            transforms_wf_at(existing_components.transforms, transform_id@);
            assert(c.transforms[transform_id@] == original.model());
        }
        let spec: &FunctionSpec = match &original.spec {
            Some(s) => s,
            None => {
                return None;
            },
        };
        let payload: ParDoFacts = match decode_par_do(spec.payload.as_slice()) {
            Some(p) => p,
            None => {
                return None;
            },
        };
        expand(self.is_drain, transform_id, existing_components, &payload)
    }
}

/// The expansion of a transform whose payload holds these facts.
#[verifier::rlimit(60)]
pub fn expand(
    is_drain: bool,
    transform_id: &str,
    existing_components: &Components,
    payload: &ParDoFacts,
) -> (r: Option<Replacement>)
    requires
        existing_components.wf(),
    ensures
        r matches Some(x) ==> x.wf(),
        expands_to(
            is_drain,
            existing_components.model(),
            transform_id@,
            payload.model(),
            optional_replacement(r),
        ),
{
    let original: &PTransform = match existing_components.transforms.get(transform_id) {
        Some(t) => t,
        None => {
            return None;
        },
    };
    proof {
        transforms_wf_at(existing_components.transforms, transform_id@);
        assert(existing_components.model().transforms[transform_id@] == original.model());
    }
    if original.spec.is_none() || payload.restriction_coder_id.as_str().is_empty() {
        return None;
    }
    let ghost c = existing_components.model();
    let ghost t = original.model();
    let ghost p = payload.model();
    let ghost id = transform_id@;
    let main: String = get_main_input_name_from_payload(original, payload);
    let mut out: Components = Components::empty();
    proof {
        assert(out.model().coders =~= Map::<Seq<char>, CoderV>::empty());
        assert(out.model().pcollections =~= Map::<Seq<char>, CollectionV>::empty());
        assert(out.model().transforms =~= Map::<Seq<char>, TransformV>::empty());
        assert(out.model().windowing_strategies =~= Map::<Seq<char>, Seq<char>>::empty());
        assert(out.model().environments =~= Map::<
            Seq<char>,
            crate::model::EnvironmentV,
        >::empty());
        let d = if exists|d: Seq<char>| is_double(c.coders, d) {
            choose|d: Seq<char>| is_double(c.coders, d)
        } else {
            fresh("DoubleCoder"@, c.coders.dom())
        };
        assert(is_double_choice(c.coders, d));
        let x = expansion(is_drain, c, id, p, main@, d);
    }
    let input: &String = match original.inputs.get(main.as_str()) {
        Some(input) => input,
        None => {
            return None;
        },
    };
    assert(t.inputs[main@] == input@);
    let template: &PCollection = match existing_components.pcollections.get(input.as_str()) {
        Some(template) => template,
        None => {
            return None;
        },
    };
    assert(c.pcollections[input@] == template.model());
    let ghost ids = expansion_ids(c, id, input@);
    let coders = &existing_components.coders;
    let pcollections = &existing_components.pcollections;
    let transforms = &existing_components.transforms;
    proof {
        assert(coders@.dom() =~= c.coders.dom());
        assert(pcollections@.dom() =~= c.pcollections.dom());
        assert(transforms@.dom() =~= c.transforms.dom());
    }
    // The coders.
    let pair_coder: String = fresh_among(
        template.coder_id.as_str(),
        "/PairWithRestriction",
        coders,
    );
    let split_coder: String = fresh_among(template.coder_id.as_str(), "/SplitAndSize", coders);
    add_coder(
        &mut out,
        pair_coder.as_str(),
        make_kv_coder(template.coder_id.as_str(), payload.restriction_coder_id.as_str()),
    );
    let double: String = get_or_add_double_coder(existing_components, &mut out);
    add_coder(
        &mut out,
        split_coder.as_str(),
        make_kv_coder(pair_coder.as_str(), double.as_str()),
    );
    // The collections.
    let pair_out: String = fresh_among(input.as_str(), "/PairWithRestriction", pcollections);
    let split_out: String = fresh_among(input.as_str(), "/SplitAndSize", pcollections);
    let pair_name: String = join2(template.unique_name.as_str(), "/PairWithRestriction");
    let split_name: String = join2(template.unique_name.as_str(), "/SplitAndSize");
    add_pcollection(
        &mut out,
        pair_out.as_str(),
        make_pcollection(pair_coder.as_str(), template, pair_name.as_str(), existing_components),
    );
    add_pcollection(
        &mut out,
        split_out.as_str(),
        make_pcollection(split_coder.as_str(), template, split_name.as_str(), existing_components),
    );
    // Pairing and splitting.
    let pair: String = fresh_among(transform_id, "/PairWithRestriction", transforms);
    let split: String = fresh_among(transform_id, "/SplitAndSize", transforms);
    let process: String = fresh_among(
        transform_id,
        "/ProcessSizedElementsAndRestrictions",
        transforms,
    );
    add_transform(
        &mut out,
        pair.as_str(),
        make_sdf_sub_transform(
            urns::SPLITTABLE_PAIR_WITH_RESTRICTION_URN,
            original,
            duplicate_text_map(&original.inputs),
            make_output(pair_out.as_str()),
            "/PairWithRestriction",
            existing_components,
        ),
    );
    add_transform(
        &mut out,
        split.as_str(),
        make_sdf_sub_transform(
            urns::SPLITTABLE_SPLIT_AND_SIZE_RESTRICTIONS_URN,
            original,
            make_inputs(original, payload, main.as_str(), pair_out.as_str()),
            make_output(split_out.as_str()),
            "/SplitAndSize",
            existing_components,
        ),
    );
    let mut subtransforms: Vec<String> = Vec::new();
    subtransforms.push(pair);
    subtransforms.push(split);
    let mut source: String = split_out.clone();
    if is_drain {
        let truncate_coder: String = fresh_among(
            template.coder_id.as_str(),
            "/TruncateAndSize",
            coders,
        );
        let ghost held = out.model();
        let again: String = get_or_add_double_coder_as(
            existing_components,
            &mut out,
            double.as_str(),
        );
        add_coder(
            &mut out,
            truncate_coder.as_str(),
            make_kv_coder(split_coder.as_str(), again.as_str()),
        );
        let truncate_out: String = fresh_among(input.as_str(), "/TruncateAndSize", pcollections);
        let truncate_name: String = join2(template.unique_name.as_str(), "/TruncateAndSize");
        add_pcollection(
            &mut out,
            truncate_out.as_str(),
            make_pcollection(
                truncate_coder.as_str(),
                template,
                truncate_name.as_str(),
                existing_components,
            ),
        );
        let truncate: String = fresh_among(transform_id, "/TruncateAndSize", transforms);
        add_transform(
            &mut out,
            truncate.as_str(),
            make_sdf_sub_transform(
                urns::SPLITTABLE_TRUNCATE_SIZED_RESTRICTION_URN,
                original,
                make_inputs(original, payload, main.as_str(), split_out.as_str()),
                make_output(truncate_out.as_str()),
                "/TruncateAndSize",
                existing_components,
            ),
        );
        subtransforms.push(truncate);
        source = truncate_out;
    }
    add_transform(
        &mut out,
        process.as_str(),
        make_sdf_sub_transform(
            urns::SPLITTABLE_PROCESS_SIZED_ELEMENTS_AND_RESTRICTIONS_URN,
            original,
            make_inputs(original, payload, main.as_str(), source.as_str()),
            duplicate_text_map(&original.outputs),
            "/ProcessSizedElementsAndRestrictions",
            existing_components,
        ),
    );
    subtransforms.push(process);
    let root = PTransform {
        unique_name: original.unique_name.clone(),
        spec: None,
        subtransforms,
        inputs: duplicate_text_map(&original.inputs),
        outputs: duplicate_text_map(&original.outputs),
        environment_id: original.environment_id.clone(),
    };
    let r = Replacement { components: Some(out), root: Some(root) };
    proof {
        assert(texts(root.subtransforms@) =~= expansion_subtransforms(ids, is_drain));
        let want = expansion(is_drain, c, id, p, main@, double@);
        assert(out.model().coders =~= want->0.components->0.coders);
        assert(out.model().pcollections =~= want->0.components->0.pcollections);
        assert(out.model().transforms =~= want->0.components->0.transforms);
        assert(optional_replacement(Some(r)) == want);
    }
    Some(r)
}

/// The id of the coder of floating-point numbers once more, where it was found or
/// added as `double`.
fn get_or_add_double_coder_as(
    existing_components: &Components,
    out_components: &mut Components,
    double: &str,
) -> (r: String)
    requires
        existing_components.wf(),
        old(out_components).wf(),
        is_double_choice(existing_components.model().coders, double@),
    ensures
        final(out_components).wf(),
        r@ == double@,
        final(out_components).model() == (ComponentsV {
            coders: with_double(
                existing_components.model(),
                old(out_components).model().coders,
                double@,
            ),
            ..old(out_components).model()
        }),
{
    let ghost c = existing_components.model();
    let ghost before = *out_components;
    if !existing_components.coders.contains_key(double) {
        let none: Vec<String> = Vec::new();
        let coder = Coder {
            spec: Some(FunctionSpec { urn: urns::DOUBLE_CODER.to_owned(), payload: Vec::new() }),
            component_coder_ids: none,
        };
        proof {
            assert(texts(none@) =~= seq![]);
            assert(coder.model() == double_coder());
            assert(!is_double(c.coders, double@));
        }
        add_coder(out_components, double, coder);
    } else {
        proof {
            if !(exists|d: Seq<char>| is_double(c.coders, d)) {
                let taken: Seq<Seq<char>> = names(existing_components.coders.entries@);
                fresh_not_taken(existing_components.coders, "DoubleCoder"@);
            }
        }
    }
    double.to_owned()
}

/// A new id is not among those that are there.
proof fn fresh_not_taken(m: NamedMap<Coder>, prefix: Seq<char>)
    requires
        m.wf(),
    ensures
        !m@.contains_key(fresh(prefix, coder_map(m).dom())),
{
    let taken = names(m.entries@);
    assert(taken.to_set() =~= m@.dom());
    assert(coder_map(m).dom() =~= m@.dom());
    crate::fusion::ids::fresh_exists(prefix, taken);
}

// ---------------------------------------------------------------------------
// What an expansion keeps
// ---------------------------------------------------------------------------
/// Whether no transform lies below itself.
pub open spec fn is_nested(transforms: Map<Seq<char>, TransformV>) -> bool {
    exists|depth: nat| nested_everywhere(transforms, depth)
}

pub open spec fn nested_everywhere(transforms: Map<Seq<char>, TransformV>, depth: nat) -> bool {
    forall|id: Seq<char>|
        #[trigger]
        transforms.contains_key(id) ==> nested_within(
            transforms,
            transforms[id].subtransforms,
            depth,
        )
}

/// Transforms without parts lie one level deep.
proof fn leaves_nested(m: Map<Seq<char>, TransformV>, subs: Seq<Seq<char>>, depth: nat)
    requires
        depth > 0,
        forall|i: int|
            0 <= i < subs.len() && m.contains_key(#[trigger] subs[i])
                ==> m[subs[i]].subtransforms.len() == 0,
    ensures
        nested_within(m, subs, depth),
{
    assert forall|i: int| 0 <= i < subs.len() && m.contains_key(#[trigger] subs[i]) implies
        nested_within(m, m[subs[i]].subtransforms, (depth - 1) as nat) by {
        assert(m[subs[i]].subtransforms.len() == 0);
    }
}

/// Replacing one transform by another whose parts have no parts of their own adds
/// at most two levels.
proof fn nested_after(
    m: Map<Seq<char>, TransformV>,
    after: Map<Seq<char>, TransformV>,
    id: Seq<char>,
    subs: Seq<Seq<char>>,
    depth: nat,
)
    requires
        m.contains_key(id),
        nested_within(m, subs, depth),
        forall|k: Seq<char>|
            #[trigger]
            after.contains_key(k) && k != id ==> after[k].subtransforms.len() == 0 || (
            m.contains_key(k) && after[k] == m[k]),
        after.contains_key(id),
        forall|i: int|
            0 <= i < after[id].subtransforms.len() ==> (#[trigger] after[id].subtransforms[i])
                != id && (after.contains_key(after[id].subtransforms[i])
                ==> after[after[id].subtransforms[i]].subtransforms.len() == 0),
    ensures
        nested_within(after, subs, depth + 2),
    decreases depth,
{
    assert forall|i: int| 0 <= i < subs.len() && after.contains_key(#[trigger] subs[i]) implies
        nested_within(after, after[subs[i]].subtransforms, (depth + 1) as nat) by {
        let k = subs[i];
        if k == id {
            assert(m.contains_key(subs[i]));
            leaves_nested(after, after[id].subtransforms, (depth + 1) as nat);
        } else if after[k].subtransforms.len() > 0 {
            assert(m.contains_key(subs[i]));
            nested_after(m, after, id, m[k].subtransforms, (depth - 1) as nat);
        }
    }
}

/// The expansion keeps the outputs of the ParDo, and what it adds lies two levels
/// deep at most.
pub proof fn expansion_is_shallow(is_drain: bool, c: ComponentsV, id: Seq<char>, r: ReplacementV)
    requires
        may_expand_to(is_drain, c, id, Some(r)),
        c.transforms.dom().finite(),
    ensures
        r.root is Some,
        r.components is Some,
        r.root->0.outputs == c.transforms[id].outputs,
        forall|k: Seq<char>|
            #[trigger]
            r.components->0.transforms.contains_key(k) ==> !c.transforms.contains_key(k)
                && r.components->0.transforms[k].subtransforms.len() == 0,
        forall|i: int|
            0 <= i < r.root->0.subtransforms.len() ==> r.components->0.transforms.contains_key(
                #[trigger] r.root->0.subtransforms[i],
            ),
{
    let (main, double) = choose|main: Seq<char>, double: Seq<char>|
        is_main_input(
            c.transforms[id],
            par_do_payload(c.transforms[id].spec->0.payload)->0,
            main,
        ) && is_double_choice(c.coders, double) && Some(r) == #[trigger] expansion(
            is_drain,
            c,
            id,
            par_do_payload(c.transforms[id].spec->0.payload)->0,
            main,
            double,
        );
    let taken = c.transforms.dom().to_seq();
    c.transforms.dom().lemma_to_seq_to_set_id();
    crate::fusion::ids::fresh_exists(id + "/PairWithRestriction"@, taken);
    crate::fusion::ids::fresh_exists(id + "/SplitAndSize"@, taken);
    crate::fusion::ids::fresh_exists(id + "/TruncateAndSize"@, taken);
    crate::fusion::ids::fresh_exists(id + "/ProcessSizedElementsAndRestrictions"@, taken);
}

proof fn looked_at_keeps_nested(
    replacement: SizedReplacement,
    urn: Seq<char>,
    before: ComponentsV,
    id: Seq<char>,
    after: ComponentsV,
)
    requires
        is_nested(before.transforms),
        before.transforms.dom().finite(),
        looked_at(replacement, urn, before, id, after),
    ensures
        is_nested(after.transforms),
        after.transforms.dom().finite(),
{
    if is_target(before, id, urn) && after != before {
        let (reply, depth) = choose|reply: Option<ReplacementV>, depth: nat|
            replacement.replies(id, before, reply) && (if reply is Some && reply->0.root is Some {
                nested_within(before.transforms, before.transforms[id].subtransforms, depth)
                    && after == #[trigger] replaced(before, id, reply->0, depth)
            } else {
                after == before
            });
        let r = reply->0;
        expansion_is_shallow(replacement.is_drain, before, id, r);
        let cleared = without(before.transforms, before.transforms[id].subtransforms, depth);
        without_is_part(before.transforms, before.transforms[id].subtransforms, depth);
        assert(cleared.dom().subset_of(before.transforms.dom())) by {
            assert forall|k: Seq<char>| cleared.dom().contains(k) implies before.transforms.dom()
                .contains(k) by {
                assert(cleared.contains_key(k));
            }
        }
        let parts = r.components->0.transforms;
        assert(after.transforms =~= cleared.union_prefer_right(parts).insert(id, r.root->0));
        assert(after.transforms.dom() =~= cleared.dom().union(parts.dom()).insert(id));
        assert(cleared.dom().finite());
        let d = choose|d: nat| nested_everywhere(before.transforms, d);
        assert forall|k: Seq<char>| #[trigger] after.transforms.contains_key(k) && k != id implies
            after.transforms[k].subtransforms.len() == 0 || (before.transforms.contains_key(k)
            && after.transforms[k] == before.transforms[k]) by {
            if parts.contains_key(k) {
            } else {
                assert(cleared.contains_key(k));
            }
        }
        assert forall|i: int| 0 <= i < after.transforms[id].subtransforms.len() implies (
        #[trigger] after.transforms[id].subtransforms[i]) != id && (after.transforms.contains_key(
            after.transforms[id].subtransforms[i],
        ) ==> after.transforms[after.transforms[id].subtransforms[i]].subtransforms.len() == 0) by {
            let k = r.root->0.subtransforms[i];
            assert(parts.contains_key(k));
        }
        assert forall|k: Seq<char>| #[trigger] after.transforms.contains_key(k) implies
            nested_within(after.transforms, after.transforms[k].subtransforms, d + 2) by {
            if k == id {
                leaves_nested(after.transforms, after.transforms[id].subtransforms, d + 2);
            } else if after.transforms[k].subtransforms.len() > 0 {
                assert(before.transforms.contains_key(k));
                nested_after(
                    before.transforms,
                    after.transforms,
                    id,
                    before.transforms[k].subtransforms,
                    d,
                );
            }
        }
        assert(nested_everywhere(after.transforms, d + 2));
    }
}

proof fn looked_at_all_keeps_nested(
    replacement: SizedReplacement,
    urn: Seq<char>,
    start: ComponentsV,
    ids: Seq<Seq<char>>,
    c: ComponentsV,
)
    requires
        is_nested(start.transforms),
        start.transforms.dom().finite(),
        looked_at_all(replacement, urn, start, ids, c),
    ensures
        is_nested(c.transforms),
        c.transforms.dom().finite(),
    decreases ids.len(),
{
    if ids.len() > 0 {
        let mid = choose|mid: ComponentsV|
            looked_at_all(replacement, urn, start, ids.drop_last(), mid) && #[trigger] looked_at(
                replacement,
                urn,
                mid,
                ids.last(),
                c,
            );
        looked_at_all_keeps_nested(replacement, urn, start, ids.drop_last(), mid);
        looked_at_keeps_nested(replacement, urn, mid, ids.last(), c);
    }
}

/// The expansion of splittable ParDos can be applied to every pipeline in which no
/// transform lies below itself.
pub proof fn expansion_replaces_well(replacement: SizedReplacement, urn: Seq<char>, start: ComponentsV)
    requires
        is_nested(start.transforms),
        start.transforms.dom().finite(),
    ensures
        replaces_well(replacement, urn, start),
{
    assert forall|ids: Seq<Seq<char>>, c: ComponentsV, id: Seq<char>, r: ReplacementV|
        #[trigger]
        is_met(replacement, urn, start, ids, c, id) && #[trigger] replacement.replies(
            id,
            c,
            Some(r),
        ) && r.root is Some implies r.root->0.outputs == c.transforms[id].outputs by {
        let (main, double) = choose|main: Seq<char>, double: Seq<char>|
            is_main_input(
                c.transforms[id],
                par_do_payload(c.transforms[id].spec->0.payload)->0,
                main,
            ) && is_double_choice(c.coders, double) && Some(r) == #[trigger] expansion(
                replacement.is_drain,
                c,
                id,
                par_do_payload(c.transforms[id].spec->0.payload)->0,
                main,
                double,
            );
    }
    assert forall|ids: Seq<Seq<char>>, c: ComponentsV, id: Seq<char>|
        #[trigger]
        is_met(replacement, urn, start, ids, c, id) implies exists|depth: nat|
        nested_within(c.transforms, c.transforms[id].subtransforms, depth) by {
        looked_at_all_keeps_nested(replacement, urn, start, ids, c);
        let d = choose|d: nat| nested_everywhere(c.transforms, d);
        assert(c.transforms.contains_key(id));
    }
}

/// In an expansion each part is fed by the one before it, the last one has the
/// outputs of the ParDo, and the main input goes to the first.
pub proof fn expansion_is_a_chain(
    c: ComponentsV,
    id: Seq<char>,
    p: ParDoV,
    main: Seq<char>,
    double: Seq<char>,
    is_drain: bool,
)
    requires
        c.transforms.contains_key(id),
        c.transforms.dom().finite(),
        expansion(is_drain, c, id, p, main, double) is Some,
        !p.side_inputs.contains(main),
    ensures
        ({
            let t = c.transforms[id];
            let r = expansion(is_drain, c, id, p, main, double)->0;
            let parts = r.components->0.transforms;
            let subs = r.root->0.subtransforms;
            &&& parts[subs[0]].inputs[main] == t.inputs[main]
            &&& parts[subs[1]].inputs[main] == parts[subs[0]].outputs["out"@]
            &&& is_drain ==> parts[subs[2]].inputs[main] == parts[subs[1]].outputs["out"@]
                && parts[subs[3]].inputs[main] == parts[subs[2]].outputs["out"@]
            &&& !is_drain ==> parts[subs[2]].inputs[main] == parts[subs[1]].outputs["out"@]
            &&& parts[subs.last()].outputs == t.outputs
        }),
{
    let t = c.transforms[id];
    let ids = expansion_ids(c, id, t.inputs[main]);
    let taken = c.transforms.dom().to_seq();
    c.transforms.dom().lemma_to_seq_to_set_id();
    let p1 = id + "/PairWithRestriction"@;
    let p2 = id + "/SplitAndSize"@;
    let p3 = id + "/TruncateAndSize"@;
    let p4 = id + "/ProcessSizedElementsAndRestrictions"@;
    reveal_strlit("/PairWithRestriction");
    reveal_strlit("/SplitAndSize");
    reveal_strlit("/TruncateAndSize");
    reveal_strlit("/ProcessSizedElementsAndRestrictions");
    let k = id.len() as int;
    assert("/PairWithRestriction"@[1] == 'P' && "/PairWithRestriction"@[2] == 'a');
    assert("/SplitAndSize"@[1] == 'S');
    assert("/TruncateAndSize"@[1] == 'T');
    assert("/ProcessSizedElementsAndRestrictions"@[1] == 'P'
        && "/ProcessSizedElementsAndRestrictions"@[2] == 'r');
    assert(ids.pair[k + 1] == 'P' && ids.pair[k + 2] == 'a');
    assert(ids.split[k + 1] == 'S');
    assert(ids.truncate[k + 1] == 'T');
    assert(ids.process[k + 1] == 'P' && ids.process[k + 2] == 'r');
}

} // verus!
