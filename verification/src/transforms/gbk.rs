//! GroupByKey: the values of each key.
use crate::jobservice::urns;
use crate::named::NamedMap;
use crate::transforms::{FlareTransform, TransformParts};
use vstd::prelude::*;

verus! {

/// Collects the values of each key.
#[derive(Debug, Clone)]
pub struct GroupByKey {
    pub parts: TransformParts,
}

impl FlareTransform for GroupByKey {
    open spec fn urn_text() -> Seq<char> {
        urns::GROUP_BY_KEY_TRANSFORM@
    }

    open spec fn parts_of(&self) -> TransformParts {
        self.parts
    }

    fn urn() -> (r: &'static str) {
        urns::GROUP_BY_KEY_TRANSFORM
    }

    fn with(
        id: String,
        inputs: NamedMap<String>,
        outputs: NamedMap<String>,
        name: String,
    ) -> (r: Self) {
        GroupByKey { parts: TransformParts { id, name, inputs, outputs } }
    }

    fn parts(&self) -> (r: &TransformParts) {
        &self.parts
    }
}

} // verus!
