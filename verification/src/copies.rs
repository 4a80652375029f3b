//! What a copy keeps: whatever has the same model holds the same.
use crate::engine::graph::ConsumerMetaData;
use crate::environment::DisplayData;
use crate::fusion::refs::{
    side_inputs_model, states_model, timers_model, SideInputRef,
};
use crate::fusion::stage::ExecutableStage;
use crate::jobservice::artifact::{artifacts_model, ArtifactInformation};
use crate::model::{
    coder_map, environment_map, nodes_model, pcollection_map, pcols_model, strategy_map, text_map,
    transform_map, Coder, Components, Environment, FunctionSpec, PCollection, PCollectionNode,
    PTransform, PTransformNode, WindowingStrategy,
};
use crate::named::{texts, NamedMap};
use crate::store::record::{
    primitives_model, record_model, records_model, BeamRecord, PrimitiveValue,
};
use vstd::prelude::*;
use vstd::string::*;

verus! {

/// Whether the two hold the same texts in the same order.
pub open spec fn same_texts(a: Seq<String>, b: Seq<String>) -> bool {
    a.len() == b.len() && forall|i: int| 0 <= i < a.len() ==> (#[trigger] a[i])@ == b[i]@
}

/// Whether the two maps have the same texts under the same names.
pub open spec fn same_text_map(a: NamedMap<String>, b: NamedMap<String>) -> bool {
    &&& forall|n: Seq<char>| #[trigger] a@.contains_key(n) <==> b@.contains_key(n)
    &&& forall|n: Seq<char>| #[trigger] a@.contains_key(n) ==> a@[n]@ == b@[n]@
}

/// Whether both name the same function with the same payload, or neither names one.
pub open spec fn same_spec(a: Option<FunctionSpec>, b: Option<FunctionSpec>) -> bool {
    &&& a is Some <==> b is Some
    &&& a is Some ==> a->0.urn@ == b->0.urn@ && a->0.payload@ == b->0.payload@
}

proof fn texts_tell_all(a: Seq<String>, b: Seq<String>)
    requires
        texts(a) == texts(b),
    ensures
        same_texts(a, b),
{
    assert(texts(a).len() == a.len());
    assert(texts(b).len() == b.len());
    assert forall|i: int| 0 <= i < a.len() implies (#[trigger] a[i])@ == b[i]@ by {
        assert(texts(a)[i] == a[i]@);
        assert(texts(b)[i] == b[i]@);
    }
}

proof fn text_maps_tell_all(a: NamedMap<String>, b: NamedMap<String>)
    requires
        text_map(a) == text_map(b),
    ensures
        same_text_map(a, b),
{
    assert forall|n: Seq<char>| #[trigger] a@.contains_key(n) <==> b@.contains_key(n) by {
        assert(text_map(a).contains_key(n) <==> a@.contains_key(n));
        assert(text_map(b).contains_key(n) <==> b@.contains_key(n));
    }
    assert forall|n: Seq<char>| #[trigger] a@.contains_key(n) implies a@[n]@ == b@[n]@ by {
        assert(text_map(a)[n] == a@[n]@);
        assert(text_map(b)[n] == b@[n]@);
    }
}

/// A copy of a transform has its name, its function, its parts, its inputs, its outputs and
/// its environment.
pub proof fn transforms_are_copied(a: PTransform, b: PTransform)
    requires
        a.model() == b.model(),
    ensures
        a.unique_name@ == b.unique_name@,
        same_spec(a.spec, b.spec),
        same_texts(a.subtransforms@, b.subtransforms@),
        same_text_map(a.inputs, b.inputs),
        same_text_map(a.outputs, b.outputs),
        a.environment_id@ == b.environment_id@,
{
    texts_tell_all(a.subtransforms@, b.subtransforms@);
    text_maps_tell_all(a.inputs, b.inputs);
    text_maps_tell_all(a.outputs, b.outputs);
    if a.spec is Some && b.spec is Some {
        assert(a.spec->0.model() == b.spec->0.model());
    }
}

/// A copy of a collection has its name, its coder, whether it is bounded, and its windows.
pub proof fn collections_are_copied(a: PCollection, b: PCollection)
    requires
        a.model() == b.model(),
    ensures
        a.unique_name@ == b.unique_name@,
        a.coder_id@ == b.coder_id@,
        a.is_bounded == b.is_bounded,
        a.windowing_strategy_id@ == b.windowing_strategy_id@,
{
}

/// A copy of a coder has its function and its components.
pub proof fn coders_are_copied(a: Coder, b: Coder)
    requires
        a.model() == b.model(),
    ensures
        same_spec(a.spec, b.spec),
        same_texts(a.component_coder_ids@, b.component_coder_ids@),
{
    texts_tell_all(a.component_coder_ids@, b.component_coder_ids@);
    if a.spec is Some && b.spec is Some {
        assert(a.spec->0.model() == b.spec->0.model());
    }
}

/// A copy of a windowing strategy has its coder.
pub proof fn strategies_are_copied(a: WindowingStrategy, b: WindowingStrategy)
    requires
        a.model() == b.model(),
    ensures
        a.window_coder_id@ == b.window_coder_id@,
{
}

/// Whether the two are the same display data.
pub open spec fn same_display(a: DisplayData, b: DisplayData) -> bool {
    a.urn@ == b.urn@ && a.payload@ == b.payload@
}

/// Whether the two say the same of an artifact.
pub open spec fn same_artifact(a: ArtifactInformation, b: ArtifactInformation) -> bool {
    a.type_urn@ == b.type_urn@ && a.type_payload@ == b.type_payload@ && a.role_urn@ == b.role_urn@
        && a.role_payload@ == b.role_payload@
}

/// A copy of what is known of an artifact says the same.
pub proof fn artifacts_are_copied(a: ArtifactInformation, b: ArtifactInformation)
    requires
        a.model() == b.model(),
    ensures
        same_artifact(a, b),
{
}

/// A copy of an environment has its kind, its payload, and all that goes with it.
pub proof fn environments_are_copied(a: Environment, b: Environment)
    requires
        a.model() == b.model(),
    ensures
        a.urn@ == b.urn@,
        a.payload@ == b.payload@,
        same_texts(a.capabilities@, b.capabilities@),
        a.display_data@.len() == b.display_data@.len(),
        forall|i: int|
            0 <= i < a.display_data@.len() ==> same_display(
                #[trigger] a.display_data@[i],
                b.display_data@[i],
            ),
        a.dependencies@.len() == b.dependencies@.len(),
        forall|i: int|
            0 <= i < a.dependencies@.len() ==> same_artifact(
                #[trigger] a.dependencies@[i],
                b.dependencies@[i],
            ),
        a.resource_hints.model() == b.resource_hints.model(),
{
    texts_tell_all(a.capabilities@, b.capabilities@);
    let (da, db) = (a.model().display_data, b.model().display_data);
    assert(da.len() == db.len());
    assert forall|i: int| 0 <= i < a.display_data@.len() implies same_display(
        #[trigger] a.display_data@[i],
        b.display_data@[i],
    ) by {
        assert(da[i] == db[i]);
    }
    let (ea, eb) = (artifacts_model(a.dependencies@), artifacts_model(b.dependencies@));
    assert(ea.len() == eb.len());
    assert forall|i: int| 0 <= i < a.dependencies@.len() implies same_artifact(
        #[trigger] a.dependencies@[i],
        b.dependencies@[i],
    ) by {
        assert(ea[i] == eb[i]);
        artifacts_are_copied(a.dependencies@[i], b.dependencies@[i]);
    }
}

/// A copy of the parts of a pipeline has the same parts under the same ids, each of them a
/// copy.
pub proof fn components_are_copied(a: Components, b: Components, id: Seq<char>)
    requires
        a.model() == b.model(),
    ensures
        a.transforms@.contains_key(id) <==> b.transforms@.contains_key(id),
        a.transforms@.contains_key(id) ==> a.transforms@[id].model() == b.transforms@[id].model(),
        a.pcollections@.contains_key(id) <==> b.pcollections@.contains_key(id),
        a.pcollections@.contains_key(id) ==> a.pcollections@[id].model()
            == b.pcollections@[id].model(),
        a.coders@.contains_key(id) <==> b.coders@.contains_key(id),
        a.coders@.contains_key(id) ==> a.coders@[id].model() == b.coders@[id].model(),
        a.windowing_strategies@.contains_key(id) <==> b.windowing_strategies@.contains_key(id),
        a.windowing_strategies@.contains_key(id) ==> a.windowing_strategies@[id].model()
            == b.windowing_strategies@[id].model(),
        a.environments@.contains_key(id) <==> b.environments@.contains_key(id),
        a.environments@.contains_key(id) ==> a.environments@[id].model()
            == b.environments@[id].model(),
{
    assert(transform_map(a.transforms).contains_key(id) <==> transform_map(
        b.transforms,
    ).contains_key(id));
    assert(transform_map(a.transforms)[id] == transform_map(b.transforms)[id]);
    assert(pcollection_map(a.pcollections).contains_key(id) <==> pcollection_map(
        b.pcollections,
    ).contains_key(id));
    assert(pcollection_map(a.pcollections)[id] == pcollection_map(b.pcollections)[id]);
    assert(coder_map(a.coders).contains_key(id) <==> coder_map(b.coders).contains_key(id));
    assert(coder_map(a.coders)[id] == coder_map(b.coders)[id]);
    assert(strategy_map(a.windowing_strategies).contains_key(id) <==> strategy_map(
        b.windowing_strategies,
    ).contains_key(id));
    assert(strategy_map(a.windowing_strategies)[id] == strategy_map(b.windowing_strategies)[id]);
    assert(environment_map(a.environments).contains_key(id) <==> environment_map(
        b.environments,
    ).contains_key(id));
    assert(environment_map(a.environments)[id] == environment_map(b.environments)[id]);
}

/// Whether the two are the same transform under the same id.
pub open spec fn same_node(a: PTransformNode, b: PTransformNode) -> bool {
    a.id@ == b.id@ && a.transform.model() == b.transform.model()
}

/// Whether the two are the same collection under the same id.
pub open spec fn same_pcol(a: PCollectionNode, b: PCollectionNode) -> bool {
    a.id@ == b.id@ && a.collection.model() == b.collection.model()
}

/// Whether the two are the same side input.
pub open spec fn same_side_input(a: SideInputRef, b: SideInputRef) -> bool {
    same_node(a.transform, b.transform) && a.local_name@ == b.local_name@ && same_pcol(
        a.collection,
        b.collection,
    )
}

/// A copy of a stage has its environment, its input, its outputs, its transforms, its side
/// inputs, its states and its timers, in their order.
pub proof fn stages_are_copied(a: ExecutableStage, b: ExecutableStage, i: int)
    requires
        a.model() == b.model(),
    ensures
        a.components.model() == b.components.model(),
        a.environment.model() == b.environment.model(),
        same_pcol(a.input_pcol, b.input_pcol),
        a.output_pcols@.len() == b.output_pcols@.len(),
        0 <= i < a.output_pcols@.len() ==> same_pcol(a.output_pcols@[i], b.output_pcols@[i]),
        a.transforms@.len() == b.transforms@.len(),
        0 <= i < a.transforms@.len() ==> same_node(a.transforms@[i], b.transforms@[i]),
        a.side_inputs@.len() == b.side_inputs@.len(),
        0 <= i < a.side_inputs@.len() ==> same_side_input(a.side_inputs@[i], b.side_inputs@[i]),
        a.user_states@.len() == b.user_states@.len(),
        0 <= i < a.user_states@.len() ==> same_node(
            a.user_states@[i].transform,
            b.user_states@[i].transform,
        ) && a.user_states@[i].local_name@ == b.user_states@[i].local_name@,
        a.timers@.len() == b.timers@.len(),
        0 <= i < a.timers@.len() ==> same_node(a.timers@[i].transform, b.timers@[i].transform)
            && a.timers@[i].local_name@ == b.timers@[i].local_name@,
{
    assert(a.input_pcol.model() == b.input_pcol.model());
    let (oa, ob) = (pcols_model(a.output_pcols@), pcols_model(b.output_pcols@));
    assert(oa.len() == ob.len());
    if 0 <= i < a.output_pcols@.len() {
        assert(oa[i] == ob[i]);
    }
    let (ta, tb) = (nodes_model(a.transforms@), nodes_model(b.transforms@));
    assert(ta.len() == tb.len());
    if 0 <= i < a.transforms@.len() {
        assert(ta[i] == tb[i]);
    }
    let (sa, sb) = (side_inputs_model(a.side_inputs@), side_inputs_model(b.side_inputs@));
    assert(sa.len() == sb.len());
    if 0 <= i < a.side_inputs@.len() {
        assert(sa[i] == sb[i]);
        assert(sa[i].transform == sb[i].transform && sa[i].collection == sb[i].collection);
    }
    let (ua, ub) = (states_model(a.user_states@), states_model(b.user_states@));
    assert(ua.len() == ub.len());
    if 0 <= i < a.user_states@.len() {
        assert(ua[i] == ub[i]);
        assert(ua[i].transform == ub[i].transform);
    }
    let (ma, mb) = (timers_model(a.timers@), timers_model(b.timers@));
    assert(ma.len() == mb.len());
    if 0 <= i < a.timers@.len() {
        assert(ma[i] == mb[i]);
        assert(ma[i].transform == mb[i].transform);
    }
}

/// A copy of what is known of an edge names the same ends, the same collection and the same
/// coders.
pub proof fn edges_are_copied(a: ConsumerMetaData, b: ConsumerMetaData)
    requires
        a.model() == b.model(),
    ensures
        a.producer_transform_id@ == b.producer_transform_id@,
        a.produced_pcol_id@ == b.produced_pcol_id@,
        a.coder_id@ == b.coder_id@,
        a.consumer_transfrom_id@ == b.consumer_transfrom_id@,
        a.component_coder is Some <==> b.component_coder is Some,
        a.component_coder is Some ==> same_texts(a.component_coder->0@, b.component_coder->0@),
{
    if a.component_coder is Some && b.component_coder is Some {
        assert(a.model().components->0 == b.model().components->0);
        texts_tell_all(a.component_coder->0@, b.component_coder->0@);
    }
}

/// Whether the two are the same value.
pub open spec fn same_value(a: PrimitiveValue, b: PrimitiveValue) -> bool {
    match (a, b) {
        (PrimitiveValue::String(x), PrimitiveValue::String(y)) => x@ == y@,
        (PrimitiveValue::Bytes(x), PrimitiveValue::Bytes(y)) => x@ == y@,
        (PrimitiveValue::Int64(x), PrimitiveValue::Int64(y)) => x == y,
        (PrimitiveValue::Float64(x), PrimitiveValue::Float64(y)) => x == y,
        (PrimitiveValue::Bool(x), PrimitiveValue::Bool(y)) => x == y,
        (PrimitiveValue::Void, PrimitiveValue::Void) => true,
        _ => false,
    }
}

/// Whether the two are the same record, part by part.
pub open spec fn same_record(a: BeamRecord, b: BeamRecord) -> bool
    decreases a,
{
    match (a, b) {
        (BeamRecord::PRIMITIVE(x), BeamRecord::PRIMITIVE(y)) => same_value(x, y),
        (BeamRecord::ITERABLE(x), BeamRecord::ITERABLE(y)) => x.list@.len() == y.list@.len()
            && forall|i: int|
            0 <= i < x.list@.len() ==> same_record(#[trigger] x.list@[i], y.list@[i]),
        (BeamRecord::TUPLE(x), BeamRecord::TUPLE(y)) => x.values@.len() == y.values@.len()
            && forall|i: int|
            0 <= i < x.values@.len() ==> same_value(#[trigger] x.values@[i], y.values@[i]),
        (BeamRecord::KV(x), BeamRecord::KV(y)) => same_value(x.key, y.key) && same_record(
            *x.value,
            *y.value,
        ),
        (BeamRecord::GBK(x), BeamRecord::GBK(y)) => same_value(x.key, y.key) && x.value.list@.len()
            == y.value.list@.len() && forall|i: int|
            0 <= i < x.value.list@.len() ==> same_record(
                #[trigger] x.value.list@[i],
                y.value.list@[i],
            ),
        _ => false,
    }
}

/// Values with one model are the same value.
pub proof fn values_are_copied(a: PrimitiveValue, b: PrimitiveValue)
    ensures
        a.model() == b.model() <==> same_value(a, b),
{
}

/// Records with one model are the same record.
pub proof fn records_are_copied(a: BeamRecord, b: BeamRecord)
    requires
        record_model(a) == record_model(b),
    ensures
        same_record(a, b),
    decreases a,
{
    match (a, b) {
        (BeamRecord::ITERABLE(x), BeamRecord::ITERABLE(y)) => {
            let (p, q) = (records_model(x.list@), records_model(y.list@));
            assert(p.len() == q.len());
            assert forall|i: int| 0 <= i < x.list@.len() implies same_record(
                #[trigger] x.list@[i],
                y.list@[i],
            ) by {
                assert(p[i] == q[i]);
                records_are_copied(x.list@[i], y.list@[i]);
            }
        },
        (BeamRecord::TUPLE(x), BeamRecord::TUPLE(y)) => {
            let p = primitives_model(x.values@);
            let q = primitives_model(y.values@);
            assert(p.len() == q.len());
            assert forall|i: int| 0 <= i < x.values@.len() implies same_value(
                #[trigger] x.values@[i],
                y.values@[i],
            ) by {
                assert(p[i] == q[i]);
            }
        },
        (BeamRecord::KV(x), BeamRecord::KV(y)) => {
            records_are_copied(*x.value, *y.value);
        },
        (BeamRecord::GBK(x), BeamRecord::GBK(y)) => {
            let (p, q) = (records_model(x.value.list@), records_model(y.value.list@));
            assert(p.len() == q.len());
            assert forall|i: int| 0 <= i < x.value.list@.len() implies same_record(
                #[trigger] x.value.list@[i],
                y.value.list@[i],
            ) by {
                assert(p[i] == q[i]);
                records_are_copied(x.value.list@[i], y.value.list@[i]);
            }
        },
        _ => {},
    }
}

} // verus!
