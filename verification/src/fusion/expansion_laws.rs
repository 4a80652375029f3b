//! What the expansion of a splittable ParDo comes to.
use crate::fusion::expander::{
    expands_to, expansion, expansion_ids, is_double_choice, is_main_input, looked_at,
    may_expand_to, nested_within, replaced, without, ReplacementV, SizedReplacement,
    TransformReplacement,
};
use crate::fusion::ids::{first_free, fresh, fresh_exists};
use crate::fusion::payload::{par_do_payload, ParDoV};
use crate::model::{CoderV, CollectionV, ComponentsV, TransformV};
use crate::text::{decimal, digit};
use vstd::prelude::*;
use vstd::string::*;

verus! {

/// Whether the id stands for a coder of pairs with these two coders.
pub open spec fn is_pair_coder(
    coders: Map<Seq<char>, CoderV>,
    id: Seq<char>,
    first: Seq<char>,
    second: Seq<char>,
) -> bool {
    &&& coders.contains_key(id)
    &&& coders[id].spec is Some
    &&& coders[id].spec->0.urn == "beam:coder:kv:v1"@
    &&& coders[id].component_coder_ids == seq![first, second]
}

/// Whether the id stands for the coder of floating-point numbers.
pub open spec fn is_size_coder(coders: Map<Seq<char>, CoderV>, id: Seq<char>) -> bool {
    coders.contains_key(id) && coders[id].spec is Some && coders[id].spec->0.urn
        == "beam:coder:double:v1"@
}

/// Whether this is a step of the expansion of `t`: what it does, and for the rest the
/// payload and the environment of `t`.
pub open spec fn is_step(t: TransformV, part: TransformV, urn: Seq<char>) -> bool {
    &&& part.spec is Some
    &&& part.spec->0.urn == urn
    &&& part.spec->0.payload == t.spec->0.payload
    &&& part.environment_id == t.environment_id
    &&& part.subtransforms == Seq::<Seq<char>>::empty()
}

/// Whether the step takes the side inputs of `t` and, under the name of its main input,
/// the collection, and nothing else.
pub open spec fn is_fed(
    t: TransformV,
    p: ParDoV,
    main: Seq<char>,
    part: TransformV,
    source: Seq<char>,
) -> bool {
    &&& !p.side_inputs.contains(main) ==> part.inputs.contains_key(main) && part.inputs[main]
        == source
    &&& forall|n: Seq<char>| #[trigger]
        part.inputs.contains_key(n) ==> n == main || (p.side_inputs.contains(n)
            && t.inputs.contains_key(n))
    &&& forall|n: Seq<char>|
        p.side_inputs.contains(n) && #[trigger] t.inputs.contains_key(n)
            ==> part.inputs.contains_key(n) && part.inputs[n] == t.inputs[n]
}

/// Whether the step fills just this collection.
pub open spec fn fills_only(part: TransformV, out: Seq<char>) -> bool {
    &&& part.outputs.contains_key("out"@)
    &&& part.outputs["out"@] == out
    &&& forall|n: Seq<char>| #[trigger] part.outputs.contains_key(n) ==> n == "out"@
}

/// Whether the collection is new, and windowed and bounded as the other.
pub open spec fn is_new_like(
    c: ComponentsV,
    pcols: Map<Seq<char>, CollectionV>,
    id: Seq<char>,
    template: CollectionV,
) -> bool {
    &&& !c.pcollections.contains_key(id)
    &&& pcols.contains_key(id)
    &&& pcols[id].is_bounded == template.is_bounded
    &&& pcols[id].windowing_strategy_id == template.windowing_strategy_id
}

/// Whether a splittable ParDo was replaced by the chain of its steps: the elements are
/// paired with restrictions, these are split and sized, and truncated where the pipeline
/// drains, and the sized ones are processed.
pub open spec fn is_chain(
    is_drain: bool,
    c: ComponentsV,
    id: Seq<char>,
    p: ParDoV,
    main: Seq<char>,
    r: ReplacementV,
) -> bool {
    let t = c.transforms[id];
    let root = r.root->0;
    let subs = root.subtransforms;
    let parts = r.components->0.transforms;
    let pcols = r.components->0.pcollections;
    let coders = r.components->0.coders;
    let input = c.pcollections[t.inputs[main]];
    let pair = parts[subs[0]];
    let split = parts[subs[1]];
    let process = parts[subs.last()];
    let paired = pair.outputs["out"@];
    let sized = split.outputs["out"@];
    let double = coders[pcols[sized].coder_id].component_coder_ids[1];
    // The ParDo itself keeps its place.
    &&& r.root is Some
    &&& r.components is Some
    &&& root.spec is None
    &&& root.inputs == t.inputs
    &&& root.outputs == t.outputs
    &&& root.unique_name == t.unique_name
    &&& root.environment_id == t.environment_id
    // The steps.
    &&& subs.len() == (if is_drain {
        4nat
    } else {
        3nat
    })
    &&& forall|i: int|
        0 <= i < subs.len() ==> parts.contains_key(#[trigger] subs[i]) && !c.transforms.contains_key(
            subs[i],
        )
    &&& forall|i: int, j: int| 0 <= i < j < subs.len() ==> #[trigger] subs[i] != #[trigger] subs[j]
    &&& forall|k: Seq<char>| #[trigger] parts.contains_key(k) ==> subs.contains(k)
    &&& is_step(t, pair, "beam:transform:sdf_pair_with_restriction:v1"@)
    &&& is_step(t, split, "beam:transform:sdf_split_and_size_restrictions:v1"@)
    &&& is_step(t, process, "beam:transform:sdf_process_sized_element_and_restrictions:v1"@)
    // Each is fed by the one before it.
    &&& t.inputs.contains_key(main)
    &&& pair.inputs == t.inputs
    &&& fills_only(pair, paired)
    &&& is_fed(t, p, main, split, paired)
    &&& fills_only(split, sized)
    &&& process.outputs == t.outputs
    // The collections between them, and their coders.
    &&& paired != sized
    &&& is_new_like(c, pcols, paired, input)
    &&& is_new_like(c, pcols, sized, input)
    &&& !c.coders.contains_key(pcols[paired].coder_id)
    &&& !c.coders.contains_key(pcols[sized].coder_id)
    &&& is_pair_coder(coders, pcols[paired].coder_id, input.coder_id, p.restriction_coder_id)
    &&& is_pair_coder(coders, pcols[sized].coder_id, pcols[paired].coder_id, double)
    &&& is_size_coder(c.coders, double) || is_size_coder(coders, double)
    &&& !is_drain ==> is_fed(t, p, main, process, sized)
    // The step of a pipeline that drains.
    &&& is_drain ==> {
        let truncate = parts[subs[2]];
        let cut = truncate.outputs["out"@];
        &&& is_step(t, truncate, "beam:transform:sdf_truncate_sized_restrictions:v1"@)
        &&& is_fed(t, p, main, truncate, sized)
        &&& fills_only(truncate, cut)
        &&& is_fed(t, p, main, process, cut)
        &&& cut != paired && cut != sized
        &&& is_new_like(c, pcols, cut, input)
        &&& !c.coders.contains_key(pcols[cut].coder_id)
        &&& is_pair_coder(coders, pcols[cut].coder_id, pcols[sized].coder_id, double)
    }
}

proof fn digits_are_no_strokes(n: nat, i: int)
    requires
        0 <= i < decimal(n).len(),
    ensures
        decimal(n)[i] != '/',
    decreases n,
{
    if n < 10 {
        stroke_is_no_digit(n);
    } else {
        stroke_is_no_digit(n % 10);
        if i < decimal(n / 10).len() {
            digits_are_no_strokes(n / 10, i);
        }
    }
}

proof fn stroke_is_no_digit(d: nat)
    requires
        d < 10,
    ensures
        digit(d).len() == 1,
        digit(d)[0] != '/',
{
    reveal_strlit("0");
    reveal_strlit("1");
    reveal_strlit("2");
    reveal_strlit("3");
    reveal_strlit("4");
    reveal_strlit("5");
    reveal_strlit("6");
    reveal_strlit("7");
    reveal_strlit("8");
    reveal_strlit("9");
}

/// New ids behind one text differ by what follows it, and from those of the coder of
/// floating-point numbers.
proof fn ids_differ(base: Seq<char>, taken: Set<Seq<char>>)
    ensures
        ({
            let a = fresh(base + "/PairWithRestriction"@, taken);
            let b = fresh(base + "/SplitAndSize"@, taken);
            let d = fresh(base + "/TruncateAndSize"@, taken);
            let e = fresh(base + "/ProcessSizedElementsAndRestrictions"@, taken);
            let f = fresh("DoubleCoder"@, taken);
            &&& a != b && a != d && a != e && b != d && b != e && d != e
            &&& f != a && f != b && f != d
        }),
{
    let a = fresh(base + "/PairWithRestriction"@, taken);
    let b = fresh(base + "/SplitAndSize"@, taken);
    let d = fresh(base + "/TruncateAndSize"@, taken);
    let e = fresh(base + "/ProcessSizedElementsAndRestrictions"@, taken);
    let f = fresh("DoubleCoder"@, taken);
    reveal_strlit("/PairWithRestriction");
    reveal_strlit("/SplitAndSize");
    reveal_strlit("/TruncateAndSize");
    reveal_strlit("/ProcessSizedElementsAndRestrictions");
    reveal_strlit("DoubleCoder");
    let k = base.len() as int;
    assert("/PairWithRestriction"@[1] == 'P' && "/PairWithRestriction"@[2] == 'a');
    assert("/SplitAndSize"@[1] == 'S');
    assert("/TruncateAndSize"@[1] == 'T');
    assert("/ProcessSizedElementsAndRestrictions"@[1] == 'P'
        && "/ProcessSizedElementsAndRestrictions"@[2] == 'r');
    assert(a[k + 1] == 'P' && a[k + 2] == 'a' && a[k] == '/');
    assert(b[k + 1] == 'S' && b[k] == '/');
    assert(d[k + 1] == 'T' && d[k] == '/');
    assert(e[k + 1] == 'P' && e[k + 2] == 'r');
    let n = choose|i: nat| first_free("DoubleCoder"@, taken, i);
    assert(f == "DoubleCoder"@ + decimal(n));
    assert forall|i: int| 0 <= i < f.len() implies f[i] != '/' by {
        if i >= 11 {
            digits_are_no_strokes(n, i - 11);
        }
    }
    assert(a.len() > k && b.len() > k && d.len() > k);
}

proof fn fresh_is_new(prefix: Seq<char>, taken: Set<Seq<char>>)
    requires
        taken.finite(),
    ensures
        !taken.contains(fresh(prefix, taken)),
{
    taken.lemma_to_seq_to_set_id();
    fresh_exists(prefix, taken.to_seq());
}

/// The expansion of a splittable ParDo is the chain of its steps, for a main input that is
/// a side input only where all inputs are.
#[verifier::rlimit(100)]
pub proof fn expansion_is_the_chain(
    is_drain: bool,
    c: ComponentsV,
    id: Seq<char>,
    p: ParDoV,
    r: ReplacementV,
) -> (main: Seq<char>)
    requires
        expands_to(is_drain, c, id, p, Some(r)),
        c.transforms.dom().finite(),
        c.pcollections.dom().finite(),
        c.coders.dom().finite(),
    ensures
        is_chain(is_drain, c, id, p, main, r),
        p.side_inputs.contains(main) ==> forall|n: Seq<char>| #[trigger]
            c.transforms[id].inputs.contains_key(n) ==> p.side_inputs.contains(n),
        c.transforms.contains_key(id),
        p.restriction_coder_id.len() > 0,
{
    let (main, double) = choose|main: Seq<char>, double: Seq<char>|
        is_main_input(c.transforms[id], p, main) && is_double_choice(c.coders, double) && Some(r)
            == #[trigger] expansion(is_drain, c, id, p, main, double);
    let t = c.transforms[id];
    let input = t.inputs[main];
    let coder = c.pcollections[input].coder_id;
    let ids = expansion_ids(c, id, input);
    ids_differ(id, c.transforms.dom());
    ids_differ(input, c.pcollections.dom());
    ids_differ(coder, c.coders.dom());
    fresh_is_new(id + "/PairWithRestriction"@, c.transforms.dom());
    fresh_is_new(id + "/SplitAndSize"@, c.transforms.dom());
    fresh_is_new(id + "/TruncateAndSize"@, c.transforms.dom());
    fresh_is_new(id + "/ProcessSizedElementsAndRestrictions"@, c.transforms.dom());
    fresh_is_new(input + "/PairWithRestriction"@, c.pcollections.dom());
    fresh_is_new(input + "/SplitAndSize"@, c.pcollections.dom());
    fresh_is_new(input + "/TruncateAndSize"@, c.pcollections.dom());
    fresh_is_new(coder + "/PairWithRestriction"@, c.coders.dom());
    fresh_is_new(coder + "/SplitAndSize"@, c.coders.dom());
    fresh_is_new(coder + "/TruncateAndSize"@, c.coders.dom());
    let subs = r.root->0.subtransforms;
    let parts = r.components->0.transforms;
    let pcols = r.components->0.pcollections;
    let coders = r.components->0.coders;
    assert forall|k: Seq<char>| #[trigger] parts.contains_key(k) implies subs.contains(k) by {
        assert(subs[0] == ids.pair && subs[1] == ids.split && subs.last() == ids.process);
        if is_drain {
            assert(subs[2] == ids.truncate);
        }
    }
    assert(double != ids.pair_coder && double != ids.split_coder && double != ids.truncate_coder);
    assert(coders[pcols[ids.split_out].coder_id].component_coder_ids[1] == double);
    assert(is_size_coder(c.coders, double) || is_size_coder(coders, double));
    main
}

/// A ParDo with a restriction coder is expanded where its inputs lead to collections, and
/// one without is not.
pub proof fn splittable_is_expanded(
    is_drain: bool,
    c: ComponentsV,
    id: Seq<char>,
    p: ParDoV,
    r: Option<ReplacementV>,
)
    requires
        expands_to(is_drain, c, id, p, r),
    ensures
        c.transforms.contains_key(id) && c.transforms[id].spec is Some
            && p.restriction_coder_id.len() > 0 && (exists|n: Seq<char>| #[trigger]
            c.transforms[id].inputs.contains_key(n)) && (forall|n: Seq<char>| #[trigger]
            c.transforms[id].inputs.contains_key(n) ==> c.pcollections.contains_key(
                c.transforms[id].inputs[n],
            )) ==> r is Some,
        r is Some ==> c.transforms.contains_key(id) && c.transforms[id].spec is Some
            && p.restriction_coder_id.len() > 0,
{
    if c.transforms.contains_key(id) && c.transforms[id].spec is Some
        && p.restriction_coder_id.len() > 0 {
        let (main, double) = choose|main: Seq<char>, double: Seq<char>|
            is_main_input(c.transforms[id], p, main) && is_double_choice(c.coders, double) && r
                == #[trigger] expansion(is_drain, c, id, p, main, double);
        if exists|n: Seq<char>| #[trigger] c.transforms[id].inputs.contains_key(n) {
            let n = choose|n: Seq<char>| #[trigger] c.transforms[id].inputs.contains_key(n);
            assert(c.transforms[id].inputs.contains_key(main));
        }
    }
}

/// Looking at a transform without parts replaces it, or leaves all as it was. Whatever
/// else was there stays, and the new parts are there too.
pub proof fn replacing_keeps_the_rest(
    replacement: SizedReplacement,
    urn: Seq<char>,
    before: ComponentsV,
    id: Seq<char>,
    after: ComponentsV,
)
    requires
        looked_at(replacement, urn, before, id, after),
        before.transforms[id].subtransforms.len() == 0,
        before.transforms.dom().finite(),
        before.pcollections.dom().finite(),
        before.coders.dom().finite(),
    ensures
        forall|k: Seq<char>| #[trigger]
            before.transforms.contains_key(k) && k != id ==> after.transforms.contains_key(k)
                && after.transforms[k] == before.transforms[k],
        forall|k: Seq<char>| #[trigger]
            before.pcollections.contains_key(k) ==> after.pcollections.contains_key(k)
                && after.pcollections[k] == before.pcollections[k],
        forall|k: Seq<char>| #[trigger]
            before.coders.contains_key(k) ==> after.coders.contains_key(k) && after.coders[k]
                == before.coders[k],
        after.environments == before.environments,
        after.windowing_strategies == before.windowing_strategies,
        after == before || (before.transforms.contains_key(id) && before.transforms[id].spec is Some
            && before.transforms[id].spec->0.urn == urn && par_do_payload(
            before.transforms[id].spec->0.payload,
        ) is Some && exists|r: ReplacementV, main: Seq<char>| #[trigger]
            is_chain(
                replacement.is_drain,
                before,
                id,
                par_do_payload(before.transforms[id].spec->0.payload)->0,
                main,
                r,
            ) && is_in(r, id, after)),
{
    if after != before {
        let (reply, depth) = choose|reply: Option<ReplacementV>, depth: nat|
            replacement.replies(id, before, reply) && (if reply is Some && reply->0.root is Some {
                nested_within(before.transforms, before.transforms[id].subtransforms, depth)
                    && after == #[trigger] replaced(before, id, reply->0, depth)
            } else {
                after == before
            });
        let r = reply->0;
        let p = par_do_payload(before.transforms[id].spec->0.payload)->0;
        assert(may_expand_to(replacement.is_drain, before, id, Some(r)));
        let main = expansion_is_the_chain(replacement.is_drain, before, id, p, r);
        let parts = r.components->0;
        assert(before.transforms[id].subtransforms =~= seq![]);
        assert(without(before.transforms, before.transforms[id].subtransforms, depth)
            == before.transforms);
        assert forall|k: Seq<char>| #[trigger] parts.transforms.contains_key(k) implies
            !before.transforms.contains_key(k) by {
            let subs = r.root->0.subtransforms;
            let i = choose|i: int| 0 <= i < subs.len() && subs[i] == k;
            assert(!before.transforms.contains_key(subs[i]));
        }
        expansion_adds_only(replacement.is_drain, before, id, p, r);
        assert(is_in(r, id, after));
        assert(is_chain(replacement.is_drain, before, id, p, main, r) && is_in(r, id, after));
    }
}

/// Whether the replacement is in the components.
pub open spec fn is_in(r: ReplacementV, id: Seq<char>, c: ComponentsV) -> bool {
    let parts = r.components->0;
    &&& c.transforms.contains_key(id)
    &&& c.transforms[id] == r.root->0
    &&& forall|k: Seq<char>| #[trigger]
        parts.transforms.contains_key(k) ==> c.transforms.contains_key(k) && c.transforms[k]
            == parts.transforms[k]
    &&& forall|k: Seq<char>| #[trigger]
        parts.pcollections.contains_key(k) ==> c.pcollections.contains_key(k) && c.pcollections[k]
            == parts.pcollections[k]
    &&& forall|k: Seq<char>| #[trigger]
        parts.coders.contains_key(k) ==> c.coders.contains_key(k) && c.coders[k]
            == parts.coders[k]
}

/// What an expansion adds has new ids.
#[verifier::rlimit(60)]
proof fn expansion_adds_only(
    is_drain: bool,
    c: ComponentsV,
    id: Seq<char>,
    p: ParDoV,
    r: ReplacementV,
)
    requires
        expands_to(is_drain, c, id, p, Some(r)),
        c.transforms.dom().finite(),
        c.pcollections.dom().finite(),
        c.coders.dom().finite(),
    ensures
        forall|k: Seq<char>| #[trigger]
            r.components->0.pcollections.contains_key(k) ==> !c.pcollections.contains_key(k),
        forall|k: Seq<char>| #[trigger]
            r.components->0.coders.contains_key(k) ==> !c.coders.contains_key(k),
        forall|k: Seq<char>| !#[trigger] r.components->0.environments.contains_key(k),
        forall|k: Seq<char>| !#[trigger] r.components->0.windowing_strategies.contains_key(k),
        !r.components->0.transforms.contains_key(id),
{
    let (main, double) = choose|main: Seq<char>, double: Seq<char>|
        is_main_input(c.transforms[id], p, main) && is_double_choice(c.coders, double) && Some(r)
            == #[trigger] expansion(is_drain, c, id, p, main, double);
    let input = c.transforms[id].inputs[main];
    let coder = c.pcollections[input].coder_id;
    fresh_is_new(id + "/PairWithRestriction"@, c.transforms.dom());
    fresh_is_new(id + "/SplitAndSize"@, c.transforms.dom());
    fresh_is_new(id + "/TruncateAndSize"@, c.transforms.dom());
    fresh_is_new(id + "/ProcessSizedElementsAndRestrictions"@, c.transforms.dom());
    fresh_is_new(input + "/PairWithRestriction"@, c.pcollections.dom());
    fresh_is_new(input + "/SplitAndSize"@, c.pcollections.dom());
    fresh_is_new(input + "/TruncateAndSize"@, c.pcollections.dom());
    fresh_is_new(coder + "/PairWithRestriction"@, c.coders.dom());
    fresh_is_new(coder + "/SplitAndSize"@, c.coders.dom());
    fresh_is_new(coder + "/TruncateAndSize"@, c.coders.dom());
    fresh_is_new("DoubleCoder"@, c.coders.dom());
}

} // verus!
