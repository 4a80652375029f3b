//! What workers are told of the runner's transforms.
use crate::transforms::flatten::Flatten;
use crate::transforms::gbk::GroupByKey;
use crate::transforms::impulse::Impulse;
use crate::transforms::{has_value, told, touches, FlareTransform, PartsV};
use vstd::prelude::*;
use vstd::string::*;

verus! {

/// A transform is told of under its name, with its inputs as inputs and its outputs as
/// outputs, and belongs to no environment.
pub proof fn transforms_are_told_as_they_are(parts: PartsV, urn: Seq<char>)
    ensures
        told(parts, urn).unique_name == parts.name,
        told(parts, urn).spec is Some,
        told(parts, urn).spec->0.urn == urn,
        told(parts, urn).spec->0.payload.len() == 0,
        told(parts, urn).inputs == parts.inputs,
        told(parts, urn).outputs == parts.outputs,
        told(parts, urn).subtransforms.len() == 0,
        told(parts, urn).environment_id.len() == 0,
{
}

/// The transforms of the runner have the names of the Beam model.
pub proof fn transforms_have_their_names()
    ensures
        Impulse::urn_text() == "beam:transform:impulse:v1"@,
        GroupByKey::urn_text() == "beam:transform:group_by_key:v1"@,
        Flatten::urn_text() == "beam:transform:flatten:v1"@,
{
}

/// A collection is of a transform if and only if one of its inputs or outputs is the
/// collection.
pub proof fn inputs_and_outputs_are_touched(parts: PartsV, label: Seq<char>, p: Seq<char>)
    ensures
        parts.inputs.contains_key(label) ==> touches(parts, parts.inputs[label]),
        parts.outputs.contains_key(label) ==> touches(parts, parts.outputs[label]),
        (forall|l: Seq<char>| #[trigger]
            parts.inputs.contains_key(l) ==> parts.inputs[l] != p) && (forall|l: Seq<char>|
            #[trigger] parts.outputs.contains_key(l) ==> parts.outputs[l] != p) ==> !touches(
            parts,
            p,
        ),
{
    if parts.inputs.contains_key(label) {
        assert(has_value(parts.inputs, parts.inputs[label]));
    }
    if parts.outputs.contains_key(label) {
        assert(has_value(parts.outputs, parts.outputs[label]));
    }
}

} // verus!
