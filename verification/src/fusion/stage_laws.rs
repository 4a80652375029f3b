//! What a stage knows of its transforms.
use crate::fusion::ids::{candidate, first_free, fresh, fresh_exists, suffixed};
use crate::fusion::groups::node_at;
use crate::fusion::laws::{is_aside, is_doing, is_rooting};
use crate::fusion::partials::with_outputs;
use crate::fusion::payload::par_do_payload;
use crate::fusion::pipeline::{par_do_of, side_names};
use crate::fusion::sanitize::{
    can_be_taken, is_dangling, is_taken, is_timer_input, made_inside, sanitized, without_dangling,
};
use crate::fusion::stage::{is_splittable_part, node_ids, pcol_ids, ExecutableStage};
use crate::fusion::stage_fuser::{have_environment, is_stage};
use crate::model::{ComponentsV, PcolV, TransformV};
use crate::text::decimal;
use vstd::prelude::*;
use vstd::string::*;

verus! {

/// Whether the payload of the transform is that of a ParDo.
pub open spec fn has_do_payload(t: TransformV) -> bool {
    is_doing(t) || is_rooting(t) || (t.spec is Some && (t.spec->0.urn
        == "beam:transform:sdf_process_keyed_elements:v1"@ || t.spec->0.urn
        == "beam:transform:sdf_process_elements:v1"@))
}

proof fn payloads_are_read(t: TransformV)
    ensures
        has_do_payload(t) ==> par_do_of(t) == par_do_payload(t.spec->0.payload),
        !has_do_payload(t) ==> par_do_of(t) is None,
        forall|n: Seq<char>| #[trigger] side_names(t).contains(n) <==> is_aside(t, n),
{
}

/// A stage runs in the environment of the transform that it starts with, reads the collection
/// that it was given, and holds its transforms and its outputs as the pipeline has them.
pub proof fn stages_are_as_the_pipeline(
    c: ComponentsV,
    input: Seq<char>,
    initial: Seq<Seq<char>>,
    s: ExecutableStage,
    i: int,
)
    requires
        is_stage(c, input, initial, s),
    ensures
        c.environments.contains_key(c.transforms[initial[0]].environment_id),
        s.environment.model() == c.environments[c.transforms[initial[0]].environment_id],
        s.input_pcol.id@ == input,
        s.input_pcol.collection.model() == c.pcollections[input],
        0 <= i < s.transforms@.len() ==> s.transforms@[i].transform.model()
            == c.transforms[s.transforms@[i].id@],
        0 <= i < s.output_pcols@.len() ==> s.output_pcols@[i].collection.model()
            == c.pcollections[s.output_pcols@[i].id@],
        s.components.model() == c,
{
    if 0 <= i < s.transforms@.len() {
        assert(s.transforms@[i].model().transform == c.transforms[s.transforms@[i].id@]);
    }
    if 0 <= i < s.output_pcols@.len() {
        assert(s.output_pcols@[i].model().collection == c.pcollections[s.output_pcols@[i].id@]);
    }
    assert(s.input_pcol.model().id == input);
}

/// A stage knows the side inputs of all its transforms, and no others: each with the
/// transform, the name that its payload declares, and the collection under that name.
pub proof fn stages_know_their_side_inputs(
    c: ComponentsV,
    input: Seq<char>,
    initial: Seq<Seq<char>>,
    s: ExecutableStage,
    t: Seq<char>,
    n: Seq<char>,
)
    requires
        is_stage(c, input, initial, s),
    ensures
        node_ids(s.transforms@).contains(t) && is_aside(c.transforms[t], n) ==> exists|i: int|
            0 <= i < s.side_inputs@.len() && (#[trigger] s.side_inputs@[i]).transform.id@ == t
                && s.side_inputs@[i].local_name@ == n && s.side_inputs@[i].collection.id@
                == c.transforms[t].inputs[n],
        forall|i: int|
            0 <= i < s.side_inputs@.len() ==> node_ids(s.transforms@).contains(
                (#[trigger] s.side_inputs@[i]).transform.id@,
            ) && is_aside(
                c.transforms[s.side_inputs@[i].transform.id@],
                s.side_inputs@[i].local_name@,
            ) && c.transforms[s.side_inputs@[i].transform.id@].inputs.contains_key(
                s.side_inputs@[i].local_name@,
            ) && c.transforms[s.side_inputs@[i].transform.id@].inputs[s.side_inputs@[i].local_name@]
                == s.side_inputs@[i].collection.id@ && s.side_inputs@[i].collection.collection.model()
                == c.pcollections[s.side_inputs@[i].collection.id@],
{
    assert forall|i: int| 0 <= i < s.side_inputs@.len() implies is_aside(
        c.transforms[(#[trigger] s.side_inputs@[i]).transform.id@],
        s.side_inputs@[i].local_name@,
    ) by {
        payloads_are_read(c.transforms[s.side_inputs@[i].transform.id@]);
    }
    payloads_are_read(c.transforms[t]);
    if node_ids(s.transforms@).contains(t) && is_aside(c.transforms[t], n) {
        assert(side_names(c.transforms[t]).contains(n));
        let i = choose|i: int|
            0 <= i < s.side_inputs@.len() && (#[trigger] s.side_inputs@[i]).transform.id@ == t
                && s.side_inputs@[i].local_name@ == n;
        assert(s.side_inputs@[i].points_at(
            c,
            node_at(c, s.side_inputs@[i].transform.id@),
        ));
    }
}

/// A stage knows the states that the payloads of the transforms it starts with declare, and
/// their timers, and no others.
pub proof fn stages_know_their_states_and_timers(
    c: ComponentsV,
    input: Seq<char>,
    initial: Seq<Seq<char>>,
    s: ExecutableStage,
    t: Seq<char>,
    n: Seq<char>,
)
    requires
        is_stage(c, input, initial, s),
        initial.contains(t),
        has_do_payload(c.transforms[t]),
        par_do_payload(c.transforms[t].spec->0.payload) is Some,
    ensures
        par_do_payload(c.transforms[t].spec->0.payload)->0.state_specs.contains(n) <==> exists|
            i: int,
        |
            0 <= i < s.user_states@.len() && (#[trigger] s.user_states@[i]).transform.id@ == t
                && s.user_states@[i].local_name@ == n,
        par_do_payload(c.transforms[t].spec->0.payload)->0.timer_families.contains(n) <==> exists|
            i: int,
        |
            0 <= i < s.timers@.len() && (#[trigger] s.timers@[i]).transform.id@ == t
                && s.timers@[i].local_name@ == n,
        forall|i: int|
            0 <= i < s.user_states@.len() ==> initial.contains(
                (#[trigger] s.user_states@[i]).transform.id@,
            ),
        forall|i: int|
            0 <= i < s.timers@.len() ==> initial.contains((#[trigger] s.timers@[i]).transform.id@),
{
    payloads_are_read(c.transforms[t]);
    let p = par_do_of(c.transforms[t]);
    if p->0.state_specs.contains(n) {
        assert(par_do_of(c.transforms[t])->0.state_specs.contains(n));
    }
    if p->0.timer_families.contains(n) {
        assert(par_do_of(c.transforms[t])->0.timer_families.contains(n));
    }
}

/// The transforms that start a stage have environments, all of one kind.
pub proof fn roots_share_a_kind(c: ComponentsV, ids: Seq<Seq<char>>)
    requires
        ids.len() > 0,
    ensures
        have_environment(c, ids) <==> (forall|i: int|
            0 <= i < ids.len() ==> c.environments.contains_key(
                c.transforms[#[trigger] ids[i]].environment_id,
            ) && c.environments[c.transforms[ids[i]].environment_id].urn
                == c.environments[c.transforms[ids[0]].environment_id].urn),
{
    if forall|i: int|
        0 <= i < ids.len() ==> c.environments.contains_key(
            c.transforms[#[trigger] ids[i]].environment_id,
        ) && c.environments[c.transforms[ids[i]].environment_id].urn
            == c.environments[c.transforms[ids[0]].environment_id].urn {
        assert(c.environments.contains_key(c.transforms[ids[0]].environment_id));
    }
}

/// The parts of a splittable ParDo are those that pair, split, truncate and process.
pub proof fn splittable_parts_are_these(urn: Seq<char>)
    ensures
        is_splittable_part(urn) <==> urn == "beam:transform:sdf_pair_with_restriction:v1"@ || urn
            == "beam:transform:sdf_split_and_size_restrictions:v1"@ || urn
            == "beam:transform:sdf_truncate_sized_restrictions:v1"@ || urn
            == "beam:transform:sdf_process_sized_element_and_restrictions:v1"@,
{
}

// ---------------------------------------------------------------------------
// Inputs that a stage cannot feed
// ---------------------------------------------------------------------------
/// Whether the stage has the collection to hand: it reads it, writes it out, takes it as a
/// side input or for a timer, or one of its transforms fills it.
pub open spec fn has_to_hand(s: ExecutableStage, p: Seq<char>) -> bool {
    ||| s.input_pcol.id@ == p
    ||| exists|i: int| 0 <= i < s.output_pcols@.len() && (#[trigger] s.output_pcols@[i]).id@ == p
    ||| exists|i: int|
        0 <= i < s.side_inputs@.len() && (#[trigger] s.side_inputs@[i]).collection.id@ == p
    ||| exists|i: int|
        0 <= i < s.timers@.len() && (#[trigger] s.timers@[i]).transform.transform.model().inputs
            .contains_key(s.timers@[i].local_name@)
            && s.timers@[i].transform.transform.model().inputs[s.timers@[i].local_name@] == p
    ||| exists|i: int, n: Seq<char>|
        0 <= i < s.transforms@.len() && #[trigger] s.transforms@[i].transform.model().outputs
            .contains_key(n) && s.transforms@[i].transform.model().outputs[n] == p
}

proof fn to_hand_can_be_taken(s: ExecutableStage, p: Seq<char>)
    ensures
        can_be_taken(s, p) <==> has_to_hand(s, p),
{
    if pcol_ids(s.output_pcols@).contains(p) {
        let i = choose|i: int|
            0 <= i < pcol_ids(s.output_pcols@).len() && pcol_ids(s.output_pcols@)[i] == p;
        assert(s.output_pcols@[i].id@ == p);
    }
    if exists|i: int| 0 <= i < s.output_pcols@.len() && (#[trigger] s.output_pcols@[i]).id@ == p {
        let i = choose|i: int|
            0 <= i < s.output_pcols@.len() && (#[trigger] s.output_pcols@[i]).id@ == p;
        assert(pcol_ids(s.output_pcols@)[i] == p);
    }
    assert(made_inside(s, p) == exists|i: int, n: Seq<char>|
        0 <= i < s.transforms@.len() && #[trigger] s.transforms@[i].transform.model().outputs
            .contains_key(n) && s.transforms@[i].transform.model().outputs[n] == p);
    assert(is_timer_input(s, p) == exists|i: int|
        0 <= i < s.timers@.len() && (#[trigger] s.timers@[i]).transform.transform.model().inputs
            .contains_key(s.timers@[i].local_name@)
            && s.timers@[i].transform.transform.model().inputs[s.timers@[i].local_name@] == p);
}

/// Sanitizing takes from the transforms of a stage just those inputs that the stage does not
/// have to hand, and leaves the rest of them, and what goes into the stage and out of it, as
/// it is.
pub proof fn sanitizing_takes_what_is_not_to_hand(
    s: ExecutableStage,
    r: ExecutableStage,
    i: int,
    n: Seq<char>,
)
    requires
        sanitized(s, r),
        0 <= i < s.transforms@.len(),
    ensures
        r.transforms@.len() == s.transforms@.len(),
        r.transforms@[i].id@ == s.transforms@[i].id@,
        r.input_pcol == s.input_pcol,
        r.output_pcols == s.output_pcols,
        r.side_inputs == s.side_inputs,
        r.environment == s.environment,
        ({
            let before = s.transforms@[i].transform.model();
            let after = r.transforms@[i].transform.model();
            &&& after.inputs.contains_key(n) <==> before.inputs.contains_key(n) && has_to_hand(
                s,
                before.inputs[n],
            )
            &&& after.inputs.contains_key(n) ==> after.inputs[n] == before.inputs[n]
            &&& after.outputs == before.outputs
            &&& after.spec == before.spec
            &&& after.unique_name == before.unique_name
            &&& after.environment_id == before.environment_id
        }),
{
    let before = s.transforms@[i].transform.model();
    let after = r.transforms@[i].transform.model();
    if before.inputs.contains_key(n) {
        let p = before.inputs[n];
        to_hand_can_be_taken(s, p);
        assert(s.transforms@[i].transform.model().inputs.contains_key(n));
        assert(is_taken(s, p));
        assert(is_dangling(s, p) <==> !has_to_hand(s, p));
    }
    if forall|p: Seq<char>| !is_dangling(s, p) {
        assert(r == s);
    } else {
        assert(after == without_dangling(s, before));
    }
}

// ---------------------------------------------------------------------------
// New ids
// ---------------------------------------------------------------------------
/// A producer that writes apart keeps the names of its outputs: where a collection has a
/// partial one, it fills that, and else the one it filled before. Nothing else of it changes.
pub proof fn outputs_are_renamed(t: TransformV, m: Map<Seq<char>, PcolV>, n: Seq<char>)
    ensures
        with_outputs(t, m).outputs.contains_key(n) <==> t.outputs.contains_key(n),
        t.outputs.contains_key(n) && m.contains_key(t.outputs[n]) ==> with_outputs(t, m).outputs[n]
            == m[t.outputs[n]].id,
        t.outputs.contains_key(n) && !m.contains_key(t.outputs[n]) ==> with_outputs(
            t,
            m,
        ).outputs[n] == t.outputs[n],
        with_outputs(t, m).inputs == t.inputs,
        with_outputs(t, m).spec == t.spec,
        with_outputs(t, m).unique_name == t.unique_name,
        with_outputs(t, m).environment_id == t.environment_id,
        with_outputs(t, m).subtransforms == t.subtransforms,
{
}

/// A new id is never taken. It is the prefix itself if that is free, and else the prefix, a
/// hyphen and the least number that makes it free.
pub proof fn new_ids_are_free(prefix: Seq<char>, taken: Seq<Seq<char>>)
    ensures
        !taken.contains(suffixed(prefix, taken.to_set())),
        !taken.contains(prefix) ==> suffixed(prefix, taken.to_set()) == prefix,
        taken.contains(prefix) ==> exists|i: nat|
            suffixed(prefix, taken.to_set()) == prefix + seq!['-'] + #[trigger] decimal(i)
                && forall|j: nat|
                j < i ==> taken.contains(prefix + seq!['-'] + #[trigger] decimal(j)),
{
    reveal_strlit("-");
    assert("-"@ =~= seq!['-']);
    let set = taken.to_set();
    let start = prefix + "-"@;
    if taken.contains(prefix) {
        fresh_exists(start, taken);
        let i = choose|i: nat| first_free(start, set, i);
        assert(fresh(start, set) == candidate(start, i));
        assert(suffixed(prefix, set) == prefix + seq!['-'] + decimal(i));
        assert forall|j: nat| j < i implies taken.contains(
            prefix + seq!['-'] + #[trigger] decimal(j),
        ) by {
            assert(set.contains(candidate(start, j)));
        }
    }
}

} // verus!
