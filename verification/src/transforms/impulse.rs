//! Impulse: the element that starts a pipeline.
use crate::jobservice::urns;
use crate::named::NamedMap;
use crate::transforms::{FlareTransform, TransformParts};
use vstd::prelude::*;

verus! {

/// Gives one empty element.
#[derive(Debug, Clone)]
pub struct Impulse {
    pub parts: TransformParts,
}

impl FlareTransform for Impulse {
    open spec fn urn_text() -> Seq<char> {
        urns::IMPULSE_TRANSFORM@
    }

    open spec fn parts_of(&self) -> TransformParts {
        self.parts
    }

    fn urn() -> (r: &'static str) {
        urns::IMPULSE_TRANSFORM
    }

    fn with(
        id: String,
        inputs: NamedMap<String>,
        outputs: NamedMap<String>,
        name: String,
    ) -> (r: Self) {
        Impulse { parts: TransformParts { id, name, inputs, outputs } }
    }

    fn parts(&self) -> (r: &TransformParts) {
        &self.parts
    }
}

} // verus!
