//! What a pipeline says of a ParDo.
use crate::environment::{Environment, EnvironmentV};
use crate::named::texts;
use beam_model_rs::v1::{self, ParDoPayload};
use prost::Message;
use vstd::prelude::*;

verus! {

/// The facts of a ParDo that the runner looks at: the local names of its side
/// inputs, states and timer families, and the coder of its restrictions.
pub struct ParDoFacts {
    pub side_inputs: Vec<String>,
    pub state_specs: Vec<String>,
    pub timer_families: Vec<String>,
    pub restriction_coder_id: String,
}

#[verifier::ext_equal]
pub struct ParDoV {
    pub side_inputs: Set<Seq<char>>,
    pub state_specs: Set<Seq<char>>,
    pub timer_families: Set<Seq<char>>,
    pub restriction_coder_id: Seq<char>,
}

impl ParDoFacts {
    pub open spec fn model(self) -> ParDoV {
        ParDoV {
            side_inputs: texts(self.side_inputs@).to_set(),
            state_specs: texts(self.state_specs@).to_set(),
            timer_families: texts(self.timer_families@).to_set(),
            restriction_coder_id: self.restriction_coder_id@,
        }
    }
}

/// The facts in the bytes of a protobuf `ParDoPayload` message, if they are one.
pub uninterp spec fn par_do_payload(payload: Seq<u8>) -> Option<ParDoV>;

/// `prost::Message::decode` for the `ParDoPayload` message: the keys of its three
/// maps, in no stated order, and its restriction coder; nothing where the bytes
/// are no such message. The facts are claimed to depend on the bytes alone.
#[verifier::external_body]
pub(crate) fn decode_par_do(payload: &[u8]) -> (r: Option<ParDoFacts>)
    ensures
        match r {
            Some(f) => par_do_payload(payload@) == Some(f.model()),
            None => par_do_payload(payload@) is None,
        },
{
    let p = ParDoPayload::decode(payload).ok()?;
    Some(ParDoFacts {
        side_inputs: p.side_inputs.into_keys().collect(),
        state_specs: p.state_specs.into_keys().collect(),
        timer_families: p.timer_family_specs.into_keys().collect(),
        restriction_coder_id: p.restriction_coder_id,
    })
}

/// The `Debug` form of a protobuf `Environment` message with at most one resource hint.
pub uninterp spec fn environment_debug(e: EnvironmentV) -> Seq<char>;

/// Whether the text shows the environment. Several resource hints come in any order.
pub open spec fn shows_environment(e: EnvironmentV, text: Seq<char>) -> bool {
    e.resource_hints.dom().len() <= 1 ==> text == environment_debug(e)
}

/// The `Debug` form, from `format!`, of the protobuf `Environment` message that holds what
/// this one holds: the same for the same environment. How it looks is not told. The
/// message keeps its resource hints in a hash map, so where there are several the text
/// also goes by the order in which that map is walked, and nothing is claimed of it.
#[verifier::external_body]
pub(crate) fn shown_environment(e: &Environment) -> (r: String)
    ensures
        e.model().resource_hints.dom().len() <= 1 ==> r@ == environment_debug(e.model()),
{
    let shown = v1::Environment {
        urn: e.urn.clone(),
        payload: e.payload.clone(),
        display_data: e.display_data.iter().map(|d| v1::DisplayData { urn: d.urn.clone(), payload: d.payload.clone() }).collect(),
        capabilities: e.capabilities.clone(),
        dependencies: e.dependencies.iter().map(|a| v1::ArtifactInformation {
            type_urn: a.type_urn.clone(),
            type_payload: a.type_payload.clone(),
            role_urn: a.role_urn.clone(),
            role_payload: a.role_payload.clone(),
        }).collect(),
        resource_hints: e.resource_hints.hints.entries.iter().cloned().collect(),
    };
    format!("{:?}", shown)
}

} // verus!
