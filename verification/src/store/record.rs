//! The records of a collection.
use crate::utils::errors::ElementStoreError;
use vstd::prelude::*;
use vstd::string::*;

pub use crate::store::batch::{
    beamrecords_to_record_batch, iterable_value_from_array_row, iterable_values_to_array,
    primitive_value_from_array_row, primitive_values_to_array, record_batch_to_beamrecords,
};
pub use crate::store::table::{derive_table_schema, RecordTableSchema, TableType};

verus! {

/// One element of a collection.
#[derive(Debug, PartialEq, Eq, Hash)]
pub enum BeamRecord {
    PRIMITIVE(PrimitiveValue),
    ITERABLE(IterableValue),
    TUPLE(TupleValue),
    KV(BeamKV),
    GBK(BeamGbk),
}

/// The shape of a record.
#[derive(Debug, Clone, Copy, PartialEq, Eq, Structural)]
pub enum BeamRecordType {
    Primitive,
    Iterable,
    Tuple,
    Kv,
    Gbk,
}

/// A value without parts. A `Float64` is held as its 64 bits, by which two of
/// them are compared and written.
#[derive(Debug, Clone, PartialEq, Eq, Hash)]
pub enum PrimitiveValue {
    String(String),
    Bytes(Vec<u8>),
    Int64(i64),
    Float64(u64),
    Bool(bool),
    Void,
}

/// A list of records.
#[derive(Debug, Clone, PartialEq, Eq, Hash)]
pub struct IterableValue {
    pub list: Vec<BeamRecord>,
}

/// A fixed number of primitive values.
#[derive(Debug, Clone, PartialEq, Eq, Hash)]
pub struct TupleValue {
    pub values: Vec<PrimitiveValue>,
}

/// A key and its value.
#[derive(Debug, Clone, PartialEq, Eq, Hash)]
pub struct BeamKV {
    pub key: PrimitiveValue,
    pub value: Box<BeamRecord>,
}

/// A key and all its values.
#[derive(Debug, Clone, PartialEq, Eq, Hash)]
pub struct BeamGbk {
    pub key: PrimitiveValue,
    pub value: IterableValue,
}

/// A primitive value as mathematics sees it.
#[verifier::ext_equal]
pub enum PrimitiveV {
    String(Seq<char>),
    Bytes(Seq<u8>),
    Int64(i64),
    Float64(u64),
    Bool(bool),
    Void,
}

/// A record as mathematics sees it.
#[verifier::ext_equal]
pub enum RecordV {
    Primitive(PrimitiveV),
    Iterable(Seq<RecordV>),
    Tuple(Seq<PrimitiveV>),
    Kv(PrimitiveV, Box<RecordV>),
    Gbk(PrimitiveV, Seq<RecordV>),
}

impl PrimitiveValue {
    pub open spec fn model(self) -> PrimitiveV {
        match self {
            PrimitiveValue::String(s) => PrimitiveV::String(s@),
            PrimitiveValue::Bytes(b) => PrimitiveV::Bytes(b@),
            PrimitiveValue::Int64(v) => PrimitiveV::Int64(v),
            PrimitiveValue::Float64(v) => PrimitiveV::Float64(v),
            PrimitiveValue::Bool(v) => PrimitiveV::Bool(v),
            PrimitiveValue::Void => PrimitiveV::Void,
        }
    }

    /// The same value once more.
    pub fn duplicate(&self) -> (r: PrimitiveValue)
        ensures
            r.model() == self.model(),
    {
        match self {
            PrimitiveValue::String(s) => PrimitiveValue::String(s.clone()),
            PrimitiveValue::Bytes(b) => PrimitiveValue::Bytes(
                crate::coders::wire::copy_range(b, 0, b.len()),
            ),
            PrimitiveValue::Int64(v) => PrimitiveValue::Int64(*v),
            PrimitiveValue::Float64(v) => PrimitiveValue::Float64(*v),
            PrimitiveValue::Bool(v) => PrimitiveValue::Bool(*v),
            PrimitiveValue::Void => PrimitiveValue::Void,
        }
    }

    /// Whether the two are the same value.
    pub fn same(&self, other: &PrimitiveValue) -> (r: bool)
        ensures
            r == (self.model() == other.model()),
    {
        match (self, other) {
            (PrimitiveValue::String(a), PrimitiveValue::String(b)) => *a == *b,
            (PrimitiveValue::Bytes(a), PrimitiveValue::Bytes(b)) => same_bytes(a, b),
            (PrimitiveValue::Int64(a), PrimitiveValue::Int64(b)) => *a == *b,
            (PrimitiveValue::Float64(a), PrimitiveValue::Float64(b)) => *a == *b,
            (PrimitiveValue::Bool(a), PrimitiveValue::Bool(b)) => *a == *b,
            (PrimitiveValue::Void, PrimitiveValue::Void) => true,
            _ => false,
        }
    }
}

/// Whether the two hold the same bytes.
pub fn same_bytes(a: &Vec<u8>, b: &Vec<u8>) -> (r: bool)
    ensures
        r == (a@ == b@),
{
    if a.len() != b.len() {
        return false;
    }
    let n: usize = a.len();
    let mut i: usize = 0;
    while i < n
        invariant
            n == a@.len(),
            n == b@.len(),
            i <= n,
            a@.take(i as int) == b@.take(i as int),
        decreases n - i,
    {
        if a[i] != b[i] {
            assert(a@[i as int] != b@[i as int]);
            return false;
        }
        assert(a@.take(i + 1) =~= a@.take(i as int).push(a@[i as int]));
        assert(b@.take(i + 1) =~= b@.take(i as int).push(b@[i as int]));
        i = i + 1;
    }
    assert(a@.take(n as int) =~= a@);
    assert(b@.take(n as int) =~= b@);
    true
}

/// The models of some primitive values, in order.
pub open spec fn primitives_model(s: Seq<PrimitiveValue>) -> Seq<PrimitiveV> {
    Seq::new(s.len(), |i: int| s[i].model())
}

/// The models of some records, in order.
pub open spec fn records_model(s: Seq<BeamRecord>) -> Seq<RecordV>
    decreases s,
{
    Seq::new(
        s.len(),
        |i: int|
            if 0 <= i < s.len() {
                record_model(s[i])
            } else {
                RecordV::Primitive(PrimitiveV::Void)
            },
    )
}

/// The model of a record.
pub open spec fn record_model(r: BeamRecord) -> RecordV
    decreases r,
{
    match r {
        BeamRecord::PRIMITIVE(p) => RecordV::Primitive(p.model()),
        BeamRecord::ITERABLE(it) => RecordV::Iterable(records_model(it.list@)),
        BeamRecord::TUPLE(t) => RecordV::Tuple(primitives_model(t.values@)),
        BeamRecord::KV(kv) => RecordV::Kv(kv.key.model(), Box::new(record_model(*kv.value))),
        BeamRecord::GBK(gbk) => RecordV::Gbk(gbk.key.model(), records_model(gbk.value.list@)),
    }
}

impl IterableValue {
    /// A list of primitive values.
    pub fn new(list: Vec<PrimitiveValue>) -> (r: IterableValue)
        ensures
            r.list@.len() == list@.len(),
            forall|i: int|
                0 <= i < list@.len() ==> #[trigger] r.list@[i] == BeamRecord::PRIMITIVE(list@[i]),
    {
        let mut out: Vec<BeamRecord> = Vec::new();
        let ghost all = list@;
        for value in it: list
            invariant
                it.seq() == all,
                out@.len() == it.index(),
                forall|i: int|
                    0 <= i < out@.len() ==> #[trigger] out@[i] == BeamRecord::PRIMITIVE(all[i]),
        {
            out.push(BeamRecord::PRIMITIVE(value));
        }
        IterableValue { list: out }
    }

    /// The same list once more.
    pub fn duplicate(&self) -> (r: IterableValue)
        ensures
            records_model(r.list@) == records_model(self.list@),
        decreases self, 0nat,
    {
        let n: usize = self.list.len();
        let mut out: Vec<BeamRecord> = Vec::new();
        let mut i: usize = 0;
        while i < n
            invariant
                n == self.list@.len(),
                i <= n,
                out@.len() == i,
                forall|j: int|
                    0 <= j < i ==> record_model(#[trigger] out@[j]) == record_model(self.list@[j]),
            decreases n - i,
        {
            let record = self.list[i].duplicate();
            out.push(record);
            i = i + 1;
        }
        assert(records_model(out@) =~= records_model(self.list@));
        IterableValue { list: out }
    }
}

impl TupleValue {
    pub fn new(values: Vec<PrimitiveValue>) -> (r: TupleValue)
        ensures
            r.values@ == values@,
    {
        TupleValue { values }
    }
}

/// The same values once more.
pub fn duplicate_primitives(values: &Vec<PrimitiveValue>) -> (r: Vec<PrimitiveValue>)
    ensures
        primitives_model(r@) == primitives_model(values@),
{
    let n: usize = values.len();
    let mut out: Vec<PrimitiveValue> = Vec::new();
    let mut i: usize = 0;
    while i < n
        invariant
            n == values@.len(),
            i <= n,
            out@.len() == i,
            forall|j: int| 0 <= j < i ==> (#[trigger] out@[j]).model() == values@[j].model(),
        decreases n - i,
    {
        out.push(values[i].duplicate());
        i = i + 1;
    }
    assert(primitives_model(out@) =~= primitives_model(values@));
    out
}

impl Clone for BeamRecord {
    fn clone(&self) -> (r: BeamRecord)
        ensures
            record_model(r) == record_model(*self),
    {
        self.duplicate()
    }
}

/// What the accessors answer for a record of another shape.
pub open spec fn excluded() -> Seq<char> {
    "excluded other types"@
}

impl BeamRecord {
    /// The same record once more.
    pub fn duplicate(&self) -> (r: BeamRecord)
        ensures
            record_model(r) == record_model(*self),
        decreases self, 0nat,
    {
        match self {
            BeamRecord::PRIMITIVE(p) => BeamRecord::PRIMITIVE(p.duplicate()),
            BeamRecord::ITERABLE(it) => BeamRecord::ITERABLE(it.duplicate()),
            BeamRecord::TUPLE(t) => BeamRecord::TUPLE(
                TupleValue { values: duplicate_primitives(&t.values) },
            ),
            BeamRecord::KV(kv) => BeamRecord::KV(
                BeamKV { key: kv.key.duplicate(), value: Box::new(kv.value.duplicate()) },
            ),
            BeamRecord::GBK(gbk) => BeamRecord::GBK(
                BeamGbk { key: gbk.key.duplicate(), value: gbk.value.duplicate() },
            ),
        }
    }

    /// The shape of the record.
    pub fn record_type(&self) -> (r: BeamRecordType)
        ensures
            match record_model(*self) {
                RecordV::Primitive(_) => r == BeamRecordType::Primitive,
                RecordV::Iterable(_) => r == BeamRecordType::Iterable,
                RecordV::Tuple(_) => r == BeamRecordType::Tuple,
                RecordV::Kv(_, _) => r == BeamRecordType::Kv,
                RecordV::Gbk(_, _) => r == BeamRecordType::Gbk,
            },
    {
        match self {
            BeamRecord::PRIMITIVE(_) => BeamRecordType::Primitive,
            BeamRecord::ITERABLE(_) => BeamRecordType::Iterable,
            BeamRecord::TUPLE(_) => BeamRecordType::Tuple,
            BeamRecord::KV(_) => BeamRecordType::Kv,
            BeamRecord::GBK(_) => BeamRecordType::Gbk,
        }
    }

    /// The value of a primitive record; any other shape is refused.
    pub fn get_primitive(&self) -> (r: Result<PrimitiveValue, ElementStoreError>)
        ensures
            match record_model(*self) {
                RecordV::Primitive(p) => r matches Ok(v) && v.model() == p,
                _ => r matches Err(ElementStoreError::UnsupportedType(m)) && m@ == excluded(),
            },
    {
        match self {
            BeamRecord::PRIMITIVE(value) => Ok(value.duplicate()),
            _ => Err(ElementStoreError::UnsupportedType("excluded other types".to_owned())),
        }
    }

    /// The pair of a keyed record; any other shape is refused.
    pub fn get_kv(self) -> (r: Result<BeamKV, ElementStoreError>)
        ensures
            match self {
                BeamRecord::KV(kv) => r == Ok::<BeamKV, ElementStoreError>(kv),
                _ => r matches Err(ElementStoreError::UnsupportedType(m)) && m@ == excluded(),
            },
    {
        match self {
            BeamRecord::KV(value) => Ok(value),
            _ => Err(ElementStoreError::UnsupportedType("excluded other types".to_owned())),
        }
    }

    /// The group of a grouped record; any other shape is refused.
    pub fn get_gbk(self) -> (r: Result<BeamGbk, ElementStoreError>)
        ensures
            match self {
                BeamRecord::GBK(gbk) => r == Ok::<BeamGbk, ElementStoreError>(gbk),
                _ => r matches Err(ElementStoreError::UnsupportedType(m)) && m@ == excluded(),
            },
    {
        match self {
            BeamRecord::GBK(value) => Ok(value),
            _ => Err(ElementStoreError::UnsupportedType("excluded other types".to_owned())),
        }
    }

    /// The list of an iterable record; any other shape is refused.
    pub fn get_iterable(&self) -> (r: Result<IterableValue, ElementStoreError>)
        ensures
            match record_model(*self) {
                RecordV::Iterable(s) => r matches Ok(v) && records_model(v.list@) == s,
                _ => r matches Err(ElementStoreError::UnsupportedType(m)) && m@ == excluded(),
            },
    {
        match self {
            BeamRecord::ITERABLE(value) => Ok(value.duplicate()),
            _ => Err(ElementStoreError::UnsupportedType("excluded other types".to_owned())),
        }
    }
}

} // verus!
