//! Flatten: several collections into one.
use crate::jobservice::urns;
use crate::named::NamedMap;
use crate::store::record::{records_model, BeamRecord, RecordV};
use crate::transforms::{FlareTransform, TransformParts};
use vstd::prelude::*;

verus! {

/// Puts the elements of all its inputs into its output, unchanged.
#[derive(Debug, Clone)]
pub struct Flatten {
    pub parts: TransformParts,
}

impl FlareTransform for Flatten {
    open spec fn urn_text() -> Seq<char> {
        urns::FLATTEN_TRANSFORM@
    }

    open spec fn parts_of(&self) -> TransformParts {
        self.parts
    }

    fn urn() -> (r: &'static str) {
        urns::FLATTEN_TRANSFORM
    }

    fn with(
        id: String,
        inputs: NamedMap<String>,
        outputs: NamedMap<String>,
        name: String,
    ) -> (r: Self) {
        Flatten { parts: TransformParts { id, name, inputs, outputs } }
    }

    fn parts(&self) -> (r: &TransformParts) {
        &self.parts
    }
}

/// The elements of several collections, one after the other.
pub open spec fn merged(s: Seq<Vec<BeamRecord>>) -> Seq<RecordV>
    decreases s.len(),
{
    if s.len() == 0 {
        seq![]
    } else {
        merged(s.drop_last()) + records_model(s.last()@)
    }
}

impl Flatten {
    /// The elements of all inputs; nothing is to be written where there are none.
    pub fn merge(inputs: Vec<Vec<BeamRecord>>) -> (r: Option<Vec<BeamRecord>>)
        ensures
            match r {
                Some(all) => all@.len() > 0 && records_model(all@) == merged(inputs@),
                None => merged(inputs@).len() == 0,
            },
    {
        let ghost whole = inputs@;
        let mut all: Vec<BeamRecord> = Vec::new();
        assert(records_model(all@) =~= seq![]);
        assert(whole.take(0) =~= seq![]);
        for input in it: inputs
            invariant
                it.seq() == whole,
                records_model(all@) == merged(whole.take(it.index())),
        {
            let ghost before = all@;
            let ghost i = it.index();
            let mut more: Vec<BeamRecord> = input;
            let ghost added = more@;
            all.append(&mut more);
            proof {
                assert(whole.take(i + 1).drop_last() =~= whole.take(i));
                assert(whole.take(i + 1).last() == whole[i]);
                assert(records_model(all@) =~= records_model(before) + records_model(added));
            }
        }
        assert(whole.take(whole.len() as int) =~= whole);
        assert(records_model(all@).len() == all@.len());
        if all.len() == 0 {
            None
        } else {
            Some(all)
        }
    }
}

} // verus!
