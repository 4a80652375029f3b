//! Coders, types and values once more.
use crate::coders::primitives::{
    BoolCoder, BytesCoder, DoubleCoder, IterableCoder, LengthPrefixCoder, NullableCoder,
    PickleCoder, StringUtf8Coder, TupleCoder, VarInt32Coder, VarIntCoder, VoidCoder,
};
use crate::coders::row::{
    entries_model, entry_model, items_model, option_model, value_model, BeamRow, FieldValue,
};
use crate::coders::schema::{BeamFieldType, BeamTypeKind};
use crate::coders::StandardBeamCoders;
use std::sync::Arc;
use vstd::prelude::*;

verus! {

// ---------------------------------------------------------------------------
// Coders
// ---------------------------------------------------------------------------
/// Whether two coders are of the same kind and made of the same coders.
pub open spec fn same_coder(a: StandardBeamCoders, b: StandardBeamCoders) -> bool
    decreases a, 0nat,
{
    match (a, b) {
        (StandardBeamCoders::Iterable(x), StandardBeamCoders::Iterable(y)) => same_coder(
            *x.element_coder,
            *y.element_coder,
        ),
        (StandardBeamCoders::Nullable(x), StandardBeamCoders::Nullable(y)) => same_coder(
            *x.value_coder,
            *y.value_coder,
        ),
        (StandardBeamCoders::Tuple(x), StandardBeamCoders::Tuple(y)) => x.component_coders@.len()
            == y.component_coders@.len() && same_components(x, y, 0),
        (StandardBeamCoders::Kv(k, v), StandardBeamCoders::Kv(l, w)) => same_coder(*k, *l)
            && same_coder(*v, *w),
        (StandardBeamCoders::Gbk(k, x), StandardBeamCoders::Gbk(l, y)) => same_coder(*k, *l)
            && same_coder(*x.element_coder, *y.element_coder),
        _ => a == b,
    }
}

/// The same of the components from the `i`th on.
pub open spec fn same_components(x: TupleCoder, y: TupleCoder, i: nat) -> bool
    decreases x, x.component_coders@.len() - i,
{
    i < x.component_coders@.len() ==> same_coder(
        x.component_coders[i as int],
        y.component_coders[i as int],
    ) && same_components(x, y, i + 1)
}

/// Components that are the same one by one are the same from the `i`th on.
proof fn components_are_same(x: TupleCoder, y: TupleCoder, i: nat)
    requires
        forall|j: int|
            0 <= j < x.component_coders@.len() ==> same_coder(
                #[trigger] x.component_coders@[j],
                y.component_coders@[j],
            ),
    ensures
        same_components(x, y, i),
    decreases x.component_coders@.len() - i,
{
    if i < x.component_coders@.len() {
        assert(same_coder(x.component_coders@[i as int], y.component_coders@[i as int]));
        components_are_same(x, y, i + 1);
    }
}

impl TupleCoder {
    /// The same coder once more.
    pub fn duplicate(&self) -> (r: TupleCoder)
        ensures
            r.component_coders@.len() == self.component_coders@.len(),
            same_components(*self, r, 0),
        decreases self, 0nat,
    {
        let n: usize = self.component_coders.len();
        let mut out: Vec<StandardBeamCoders> = Vec::new();
        let mut i: usize = 0;
        while i < n
            invariant
                n == self.component_coders@.len(),
                i <= n,
                out@.len() == i,
                forall|j: int|
                    0 <= j < i ==> same_coder(
                        #[trigger] self.component_coders@[j],
                        out@[j],
                    ),
            decreases n - i,
        {
            let coder = self.component_coders[i].duplicate();
            out.push(coder);
            i = i + 1;
        }
        let r = TupleCoder { component_coders: out };
        proof {
            components_are_same(*self, r, 0);
        }
        r
    }
}

impl StandardBeamCoders {
    /// The same coder once more.
    pub fn duplicate(&self) -> (r: StandardBeamCoders)
        ensures
            same_coder(*self, r),
        decreases self, 1nat,
    {
        match self {
            StandardBeamCoders::StringUtf8(_) => StandardBeamCoders::StringUtf8(StringUtf8Coder),
            StandardBeamCoders::Bytes(_) => StandardBeamCoders::Bytes(BytesCoder),
            StandardBeamCoders::VarInt(_) => StandardBeamCoders::VarInt(VarIntCoder),
            StandardBeamCoders::VarInt32(_) => StandardBeamCoders::VarInt32(VarInt32Coder),
            StandardBeamCoders::Bool(_) => StandardBeamCoders::Bool(BoolCoder),
            StandardBeamCoders::Double(_) => StandardBeamCoders::Double(DoubleCoder),
            StandardBeamCoders::Void(_) => StandardBeamCoders::Void(VoidCoder),
            StandardBeamCoders::Iterable(c) => StandardBeamCoders::Iterable(
                IterableCoder { element_coder: Box::new(c.element_coder.duplicate()) },
            ),
            StandardBeamCoders::Nullable(c) => StandardBeamCoders::Nullable(
                NullableCoder { value_coder: Box::new(c.value_coder.duplicate()) },
            ),
            StandardBeamCoders::LengthPrefix(_) => StandardBeamCoders::LengthPrefix(
                LengthPrefixCoder,
            ),
            StandardBeamCoders::Pickle(_) => StandardBeamCoders::Pickle(PickleCoder),
            StandardBeamCoders::Tuple(c) => StandardBeamCoders::Tuple(c.duplicate()),
            StandardBeamCoders::Kv(k, v) => StandardBeamCoders::Kv(
                Box::new(k.duplicate()),
                Box::new(v.duplicate()),
            ),
            StandardBeamCoders::Gbk(k, c) => StandardBeamCoders::Gbk(
                Box::new(k.duplicate()),
                IterableCoder { element_coder: Box::new(c.element_coder.duplicate()) },
            ),
        }
    }
}

impl Clone for StandardBeamCoders {
    fn clone(&self) -> (r: StandardBeamCoders)
        ensures
            same_coder(*self, r),
    {
        self.duplicate()
    }
}

// ---------------------------------------------------------------------------
// Types of fields
// ---------------------------------------------------------------------------
impl BeamFieldType {
    /// The same type once more.
    pub fn duplicate(&self) -> (r: BeamFieldType)
        ensures
            r == *self,
        decreases self,
    {
        let kind = match &self.kind {
            BeamTypeKind::Byte => BeamTypeKind::Byte,
            BeamTypeKind::Int16 => BeamTypeKind::Int16,
            BeamTypeKind::Int32 => BeamTypeKind::Int32,
            BeamTypeKind::Int64 => BeamTypeKind::Int64,
            BeamTypeKind::Float => BeamTypeKind::Float,
            BeamTypeKind::Double => BeamTypeKind::Double,
            BeamTypeKind::String => BeamTypeKind::String,
            BeamTypeKind::Boolean => BeamTypeKind::Boolean,
            BeamTypeKind::Bytes => BeamTypeKind::Bytes,
            BeamTypeKind::Array(item) => BeamTypeKind::Array(Box::new(item.duplicate())),
            BeamTypeKind::Iterable(item) => BeamTypeKind::Iterable(Box::new(item.duplicate())),
            BeamTypeKind::BeamMap(k, v) => BeamTypeKind::BeamMap(
                Box::new(k.duplicate()),
                Box::new(v.duplicate()),
            ),
            BeamTypeKind::Row(schema) => BeamTypeKind::Row(Arc::clone(schema)),
            BeamTypeKind::Logical { urn, repr } => BeamTypeKind::Logical {
                urn: urn.clone(),
                repr: Box::new(repr.duplicate()),
            },
        };
        BeamFieldType { nullable: self.nullable, kind }
    }
}

impl Clone for BeamFieldType {
    fn clone(&self) -> (r: BeamFieldType)
        ensures
            r == *self,
    {
        self.duplicate()
    }
}

// ---------------------------------------------------------------------------
// Values of fields
// ---------------------------------------------------------------------------
/// The same value or null once more.
pub fn duplicate_option(v: &Option<FieldValue>) -> (r: Option<FieldValue>)
    ensures
        option_model(r) == option_model(*v),
    decreases v, 0nat,
{
    match v {
        Some(x) => Some(x.duplicate()),
        None => None,
    }
}

/// The same values once more.
pub fn duplicate_items(items: &Vec<Option<FieldValue>>) -> (r: Vec<Option<FieldValue>>)
    ensures
        items_model(r@) == items_model(items@),
    decreases items, 0nat,
{
    let n: usize = items.len();
    let mut out: Vec<Option<FieldValue>> = Vec::new();
    let mut i: usize = 0;
    while i < n
        invariant
            n == items@.len(),
            i <= n,
            out@.len() == i,
            forall|j: int|
                0 <= j < i ==> option_model(#[trigger] out@[j]) == option_model(items@[j]),
        decreases n - i,
    {
        let item: &Option<FieldValue> = &items[i];
        out.push(duplicate_option(item));
        i = i + 1;
    }
    assert(items_model(out@) =~= items_model(items@));
    out
}

/// The same entries once more.
pub fn duplicate_entries(entries: &Vec<(Option<FieldValue>, Option<FieldValue>)>) -> (r: Vec<
    (Option<FieldValue>, Option<FieldValue>),
>)
    ensures
        entries_model(r@) == entries_model(entries@),
    decreases entries, 0nat,
{
    let n: usize = entries.len();
    let mut out: Vec<(Option<FieldValue>, Option<FieldValue>)> = Vec::new();
    let mut i: usize = 0;
    while i < n
        invariant
            n == entries@.len(),
            i <= n,
            out@.len() == i,
            forall|j: int|
                0 <= j < i ==> entry_model(#[trigger] out@[j]) == entry_model(entries@[j]),
        decreases n - i,
    {
        let entry: &(Option<FieldValue>, Option<FieldValue>) = &entries[i];
        out.push((duplicate_option(&entry.0), duplicate_option(&entry.1)));
        i = i + 1;
    }
    assert(entries_model(out@) =~= entries_model(entries@));
    out
}

impl FieldValue {
    /// The same value once more.
    pub fn duplicate(&self) -> (r: FieldValue)
        ensures
            value_model(r) == value_model(*self),
        decreases self, 0nat,
    {
        match self {
            FieldValue::Byte(x) => FieldValue::Byte(*x),
            FieldValue::Int16(x) => FieldValue::Int16(*x),
            FieldValue::Int32(x) => FieldValue::Int32(*x),
            FieldValue::Int64(x) => FieldValue::Int64(*x),
            FieldValue::Float(x) => FieldValue::Float(*x),
            FieldValue::Double(x) => FieldValue::Double(*x),
            FieldValue::String(x) => FieldValue::String(x.clone()),
            FieldValue::Boolean(x) => FieldValue::Boolean(*x),
            FieldValue::Bytes(x) => FieldValue::Bytes(x.clone()),
            FieldValue::Array(x) => FieldValue::Array(duplicate_items(x)),
            FieldValue::Iterable(x) => FieldValue::Iterable(duplicate_items(x)),
            FieldValue::BeamMap(x) => FieldValue::BeamMap(duplicate_entries(x)),
            FieldValue::Row(x) => FieldValue::Row(BeamRow { fields: duplicate_items(&x.fields) }),
            FieldValue::Logical(x) => FieldValue::Logical(Box::new(x.duplicate())),
        }
    }
}

impl Clone for FieldValue {
    fn clone(&self) -> (r: FieldValue)
        ensures
            value_model(r) == value_model(*self),
    {
        self.duplicate()
    }
}

impl Clone for BeamRow {
    fn clone(&self) -> (r: BeamRow)
        ensures
            r.model() == self.model(),
    {
        BeamRow { fields: duplicate_items(&self.fields) }
    }
}

} // verus!
