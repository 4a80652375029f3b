//! The coder of rows.
//!
//! A row is written as the number of its fields, a bitmap of the null ones, and
//! the values that are not null, in the order that the schema sets.
use crate::coders::schema::{is_order, BeamField, BeamFieldType, BeamSchema, BeamTypeKind};
use crate::coders::wire::{
    big_endian, copy_range, encode_signed_varint, encode_varint, parse_i32, parse_signed_varint,
    parse_varint, parse_word, pow256, prefixed, put_prefixed, put_u64, put_word, read_i32,
    read_signed_varint, read_varint, read_word, signed32, step_is, text_from_utf8, to_signed32,
    two64, unsigned32, unsigned64, utf8_error_text, varint, ByteReader, Parse, Step,
};
use crate::text::{around_decimal, decimal, join2, join3};
use crate::utils::errors::CodersError;
use std::sync::Arc;
use vstd::prelude::*;
use vstd::string::*;
use vstd::utf8::*;

verus! {

/// A row: its values as the schema defines the fields; `None` is null.
#[derive(Debug, PartialEq)]
pub struct BeamRow {
    pub fields: Vec<Option<FieldValue>>,
}

/// A value of a field. Floating-point numbers are held as their bits.
#[derive(Debug, PartialEq)]
pub enum FieldValue {
    Byte(i8),
    Int16(i16),
    Int32(i32),
    Int64(i64),
    Float(u32),
    Double(u64),
    String(String),
    Boolean(bool),
    Bytes(Vec<u8>),
    Array(Vec<Option<FieldValue>>),
    Iterable(Vec<Option<FieldValue>>),
    BeamMap(Vec<(Option<FieldValue>, Option<FieldValue>)>),
    Row(BeamRow),
    Logical(Box<FieldValue>),
}

/// A value of a field as mathematics sees it.
#[verifier::ext_equal]
pub enum FieldV {
    Byte(i8),
    Int16(i16),
    Int32(i32),
    Int64(i64),
    Float(u32),
    Double(u64),
    String(Seq<char>),
    Boolean(bool),
    Bytes(Seq<u8>),
    Array(Seq<Option<FieldV>>),
    Iterable(Seq<Option<FieldV>>),
    BeamMap(Seq<EntryV>),
    Row(Seq<Option<FieldV>>),
    Logical(Box<FieldV>),
}

/// An entry of a map as mathematics sees it.
#[verifier::ext_equal]
pub struct EntryV {
    pub key: Option<FieldV>,
    pub value: Option<FieldV>,
}

pub open spec fn value_model(v: FieldValue) -> FieldV
    decreases v,
{
    match v {
        FieldValue::Byte(x) => FieldV::Byte(x),
        FieldValue::Int16(x) => FieldV::Int16(x),
        FieldValue::Int32(x) => FieldV::Int32(x),
        FieldValue::Int64(x) => FieldV::Int64(x),
        FieldValue::Float(x) => FieldV::Float(x),
        FieldValue::Double(x) => FieldV::Double(x),
        FieldValue::String(x) => FieldV::String(x@),
        FieldValue::Boolean(x) => FieldV::Boolean(x),
        FieldValue::Bytes(x) => FieldV::Bytes(x@),
        FieldValue::Array(x) => FieldV::Array(items_model(x@)),
        FieldValue::Iterable(x) => FieldV::Iterable(items_model(x@)),
        FieldValue::BeamMap(x) => FieldV::BeamMap(entries_model(x@)),
        FieldValue::Row(x) => FieldV::Row(items_model(x.fields@)),
        FieldValue::Logical(x) => FieldV::Logical(Box::new(value_model(*x))),
    }
}

pub open spec fn option_model(o: Option<FieldValue>) -> Option<FieldV>
    decreases o,
{
    match o {
        Some(v) => Some(value_model(v)),
        None => None,
    }
}

pub open spec fn items_model(s: Seq<Option<FieldValue>>) -> Seq<Option<FieldV>>
    decreases s,
{
    Seq::new(
        s.len(),
        |i: int|
            if 0 <= i < s.len() {
                option_model(s[i])
            } else {
                None
            },
    )
}

pub open spec fn entry_model(e: (Option<FieldValue>, Option<FieldValue>)) -> EntryV
    decreases e,
{
    EntryV { key: option_model(e.0), value: option_model(e.1) }
}

pub open spec fn entries_model(s: Seq<(Option<FieldValue>, Option<FieldValue>)>) -> Seq<EntryV>
    decreases s,
{
    Seq::new(
        s.len(),
        |i: int|
            if 0 <= i < s.len() {
                entry_model(s[i])
            } else {
                EntryV { key: None, value: None }
            },
    )
}

impl BeamRow {
    pub open spec fn model(self) -> Seq<Option<FieldV>> {
        items_model(self.fields@)
    }

    pub fn new(fields: Vec<Option<FieldValue>>) -> (r: BeamRow)
        ensures
            r.fields@ == fields@,
    {
        BeamRow { fields }
    }

    /// The value at `index`, if there is such a field.
    pub fn get(&self, index: usize) -> (r: Option<&Option<FieldValue>>)
        ensures
            match r {
                Some(v) => index < self.fields@.len() && *v == self.fields@[index as int],
                None => index >= self.fields@.len(),
            },
    {
        if index < self.fields.len() {
            Some(&self.fields[index])
        } else {
            None
        }
    }

    /// Puts a value at `index`; nothing happens if there is no such field.
    pub fn set(&mut self, index: usize, value: Option<FieldValue>)
        ensures
            final(self).fields@ == (if index < old(self).fields@.len() {
                old(self).fields@.update(index as int, value)
            } else {
                old(self).fields@
            }),
    {
        if index < self.fields.len() {
            self.fields[index] = value;
        }
    }
}

impl Default for BeamRow {
    fn default() -> (r: BeamRow)
        ensures
            r.fields@.len() == 0,
    {
        BeamRow { fields: Vec::new() }
    }
}

// ---------------------------------------------------------------------------
// Well-formed schemas
// ---------------------------------------------------------------------------
/// Whether the write order of the schema, and of every schema in it, lists each
/// field once.
pub open spec fn schema_wf(s: BeamSchema) -> bool
    decreases s, 0nat,
{
    is_order(s.encode_order@, s.fields@.len()) && fields_wf(s.fields, 0)
}

pub open spec fn fields_wf(fields: Vec<BeamField>, i: nat) -> bool
    decreases fields, fields@.len() - i,
{
    i < fields@.len() ==> type_wf(fields[i as int].field_type) && fields_wf(fields, i + 1)
}

pub open spec fn type_wf(t: BeamFieldType) -> bool
    decreases t, 0nat,
{
    match t.kind {
        BeamTypeKind::Array(e) => type_wf(*e),
        BeamTypeKind::Iterable(e) => type_wf(*e),
        BeamTypeKind::BeamMap(k, v) => type_wf(*k) && type_wf(*v),
        BeamTypeKind::Row(s) => schema_wf(*s),
        BeamTypeKind::Logical { urn, repr } => type_wf(*repr),
        _ => true,
    }
}

proof fn field_wf(fields: Vec<BeamField>, i: nat, k: nat)
    requires
        fields_wf(fields, i),
        i <= k < fields@.len(),
    ensures
        type_wf(fields[k as int].field_type),
    decreases k - i,
{
    if i < k {
        field_wf(fields, i + 1, k);
    }
}

/// The schema of a row type.
pub open spec fn row_schema(t: BeamFieldType) -> BeamSchema {
    *(t.kind->Row_0)
}

/// A resolved schema is well-formed.
pub proof fn resolved_schema_wf(m: crate::coders::schema::SchemaV, s: BeamSchema)
    requires
        crate::coders::schema::schema_of(m, s),
        m.fields.len() <= usize::MAX,
    ensures
        schema_wf(s),
    decreases s, 0nat,
{
    resolved_fields_wf(m.fields, s.fields, 0);
    if !m.encoding_positions_set {
        let order = s.encode_order@;
        assert forall|a: int| 0 <= a < order.len() implies #[trigger] order[a] == a as usize by {}
    }
}

proof fn resolved_fields_wf(m: Seq<crate::coders::schema::FieldMsgV>, fields: Vec<BeamField>, i: nat)
    requires
        crate::coders::schema::fields_of(m, fields, i),
    ensures
        fields_wf(fields, i),
    decreases fields, fields@.len() - i,
{
    if i < fields@.len() {
        resolved_type_wf(m[i as int].field_type->0, fields[i as int].field_type);
        resolved_fields_wf(m, fields, i + 1);
    }
}

proof fn resolved_type_wf(m: crate::coders::schema::TypeV, t: BeamFieldType)
    requires
        crate::coders::schema::type_of(m, t),
    ensures
        type_wf(t),
    decreases t, 0nat,
{
    use_type_of(m, t);
    match (m.type_info->0, t.kind) {
        (crate::coders::schema::InfoV::Array(Some(e)), BeamTypeKind::Array(r)) => {
            resolved_type_wf(*e, *r);
        },
        (crate::coders::schema::InfoV::Iterable(Some(e)), BeamTypeKind::Iterable(r)) => {
            resolved_type_wf(*e, *r);
        },
        (
            crate::coders::schema::InfoV::BeamMap(Some(k), Some(v)),
            BeamTypeKind::BeamMap(rk, rv),
        ) => {
            resolved_type_wf(*k, *rk);
            resolved_type_wf(*v, *rv);
        },
        (crate::coders::schema::InfoV::Row(Some(_)), BeamTypeKind::Row(_)) => {
            vec_len_bound(row_schema(t).fields);
            resolved_schema_wf(*(m.type_info->0->Row_0->0), row_schema(t));
        },
        (
            crate::coders::schema::InfoV::Logical(urn, Some(e)),
            BeamTypeKind::Logical { urn: u, repr },
        ) => {
            resolved_type_wf(*e, *repr);
        },
        _ => {},
    }
}

proof fn use_type_of(m: crate::coders::schema::TypeV, t: BeamFieldType)
    requires
        crate::coders::schema::type_of(m, t),
    ensures
        m.type_info is Some,
{
}

/// The length of a vector is a machine number.
pub proof fn vec_len_bound<T>(v: Vec<T>)
    ensures
        v@.len() <= usize::MAX,
{
    let n: usize = v.len();
}

// ---------------------------------------------------------------------------
// What is written
// ---------------------------------------------------------------------------
/// What writing comes to: whether all could be written, and the bytes, which
/// where it could not are those written until then.
#[verifier::ext_equal]
pub struct Emit {
    pub ok: bool,
    pub bytes: Seq<u8>,
    /// Why it could not.
    pub reason: Option<Seq<char>>,
}

impl Emit {
    /// Writing this and, if that went well, the other.
    pub open spec fn and(self, other: Emit) -> Emit {
        if self.ok {
            Emit { bytes: self.bytes + other.bytes, ..other }
        } else {
            self
        }
    }
}

pub open spec fn wrote(bytes: Seq<u8>) -> Emit {
    Emit { ok: true, bytes, reason: None }
}

pub open spec fn refused_as(reason: Seq<char>) -> Emit {
    Emit { ok: false, bytes: seq![], reason: Some(reason) }
}

/// Why a row with another number of fields is refused.
pub open spec fn count_mismatch(expected: nat, given: nat) -> Seq<char> {
    "row field count mismatch: schema expects "@ + decimal(expected) + ", row has "@ + decimal(given)
}

/// Why a row with a null in a field that must have a value is refused.
pub open spec fn unexpected_null(field: Seq<char>) -> Seq<char> {
    "field '"@ + field + "' is not nullable but row value is null"@
}

/// An 8-bit number as the unsigned one with the same bits.
pub open spec fn unsigned8(v: i8) -> u8 {
    if v < 0 {
        (v + 256) as u8
    } else {
        v as u8
    }
}

pub open spec fn signed8(v: u8) -> i8 {
    if v >= 128 {
        (v - 256) as i8
    } else {
        v as i8
    }
}

/// A 16-bit number as the unsigned one with the same bits.
pub open spec fn unsigned16(v: i16) -> u16 {
    if v < 0 {
        (v + 0x1_0000) as u16
    } else {
        v as u16
    }
}

pub open spec fn signed16(v: u16) -> i16 {
    if v >= 0x8000 {
        (v - 0x1_0000) as i16
    } else {
        v as i16
    }
}

/// A value of a type that is not made of others.
pub open spec fn emit_atom(k: BeamTypeKind, v: FieldV) -> Emit {
    match (k, v) {
        (BeamTypeKind::Byte, FieldV::Byte(x)) => wrote(seq![unsigned8(x)]),
        (BeamTypeKind::Int16, FieldV::Int16(x)) => wrote(big_endian(unsigned16(x) as nat, 2)),
        (BeamTypeKind::Int32, FieldV::Int32(x)) => wrote(varint(unsigned64(x as i64) as nat)),
        (BeamTypeKind::Int64, FieldV::Int64(x)) => wrote(varint(unsigned64(x) as nat)),
        (BeamTypeKind::Float, FieldV::Float(x)) => wrote(big_endian(x as nat, 4)),
        (BeamTypeKind::Double, FieldV::Double(x)) => wrote(big_endian(x as nat, 8)),
        (BeamTypeKind::String, FieldV::String(x)) => wrote(prefixed(encode_utf8(x))),
        (BeamTypeKind::Boolean, FieldV::Boolean(x)) => wrote(seq![if x { 1u8 } else { 0u8 }]),
        (BeamTypeKind::Bytes, FieldV::Bytes(x)) => wrote(prefixed(x)),
        _ => refused_as(mismatch_form(k, v)),
    }
}

/// The value that is written for `v` under a logical type: what it wraps, or the
/// bare value itself.
pub open spec fn unwrapped(v: FieldV) -> FieldV {
    match v {
        FieldV::Logical(inner) => *inner,
        _ => v,
    }
}

/// Writing a value of a type.
pub open spec fn emit_value(t: BeamFieldType, v: FieldV) -> Emit
    decreases t, 1nat, 0nat,
{
    match t.kind {
        BeamTypeKind::Array(e) => match v {
            FieldV::Array(s) => wrote(big_endian(s.len(), 4)).and(emit_items(*e, s)),
            _ => refused_as(mismatch_form(t.kind, v)),
        },
        BeamTypeKind::Iterable(e) => match v {
            FieldV::Iterable(s) => wrote(big_endian(s.len(), 4)).and(emit_items(*e, s)),
            _ => refused_as(mismatch_form(t.kind, v)),
        },
        BeamTypeKind::BeamMap(kt, vt) => match v {
            FieldV::BeamMap(s) => wrote(big_endian(s.len(), 4)).and(emit_entries(t, s)),
            _ => refused_as(mismatch_form(t.kind, v)),
        },
        BeamTypeKind::Row(schema) => match v {
            FieldV::Row(s) => emit_row(*schema, s),
            _ => refused_as(mismatch_form(t.kind, v)),
        },
        BeamTypeKind::Logical { urn, repr } => emit_value(*repr, unwrapped(v)),
        k => emit_atom(k, v),
    }
}

/// Writing an item of a list: a nullable one behind a byte that says whether it
/// is there.
pub open spec fn emit_item(t: BeamFieldType, v: Option<FieldV>) -> Emit
    decreases t, 2nat, 0nat,
{
    match v {
        Some(x) => if t.nullable {
            wrote(seq![1u8]).and(emit_value(t, x))
        } else {
            emit_value(t, x)
        },
        None => if t.nullable {
            wrote(seq![0u8])
        } else {
            refused_as("null element for non-nullable element type"@)
        },
    }
}

pub open spec fn emit_items(t: BeamFieldType, s: Seq<Option<FieldV>>) -> Emit
    decreases t, 3nat, s.len(),
{
    if s.len() == 0 {
        wrote(seq![])
    } else {
        emit_item(t, s[0]).and(emit_items(t, s.skip(1)))
    }
}

/// The entries of a map, each as its key and its value.
pub open spec fn emit_entries(t: BeamFieldType, s: Seq<EntryV>) -> Emit
    decreases t, 0nat, s.len(),
{
    match t.kind {
        BeamTypeKind::BeamMap(kt, vt) => if s.len() == 0 {
            wrote(seq![])
        } else {
            emit_item(*kt, s[0].key).and(emit_item(*vt, s[0].value)).and(emit_entries(t, s.skip(1)))
        },
        _ => wrote(seq![]),
    }
}

/// One bit, at its place in a byte.
pub open spec fn bit_value(k: int) -> int {
    if k == 0 {
        1
    } else if k == 1 {
        2
    } else if k == 2 {
        4
    } else if k == 3 {
        8
    } else if k == 4 {
        16
    } else if k == 5 {
        32
    } else if k == 6 {
        64
    } else {
        128
    }
}

/// Whether the field written at `pos` is null.
pub open spec fn null_at(order: Seq<usize>, row: Seq<Option<FieldV>>, pos: int) -> bool {
    0 <= pos < order.len() && row[order[pos] as int] is None
}

/// The bits below the `k`th of the byte that starts at position `base`.
pub open spec fn null_bits(
    order: Seq<usize>,
    row: Seq<Option<FieldV>>,
    base: int,
    k: nat,
) -> int
    decreases k,
{
    if k == 0 {
        0
    } else {
        null_bits(order, row, base, (k - 1) as nat) + (if null_at(order, row, base + k - 1) {
            bit_value(k - 1)
        } else {
            0
        })
    }
}

/// The bitmap of the null fields, by the order in which they are written.
pub open spec fn null_bitmap(order: Seq<usize>, row: Seq<Option<FieldV>>) -> Seq<u8> {
    Seq::new((order.len() + 7) / 8, |j: int| null_bits(order, row, 8 * j, 8) as u8)
}

pub open spec fn has_nulls(order: Seq<usize>, row: Seq<Option<FieldV>>) -> bool {
    exists|pos: int| 0 <= pos < order.len() && #[trigger] null_at(order, row, pos)
}

/// The field count and the bitmap; without null fields the bitmap has no bytes.
pub open spec fn row_header(order: Seq<usize>, row: Seq<Option<FieldV>>) -> Seq<u8> {
    if has_nulls(order, row) {
        varint(row.len()) + prefixed(null_bitmap(order, row))
    } else {
        varint(row.len()) + varint(0)
    }
}

/// Writing the fields from the `pos`th on.
pub open spec fn emit_fields(schema: BeamSchema, row: Seq<Option<FieldV>>, pos: nat) -> Emit
    decreases schema, 1nat, schema.encode_order@.len() - pos,
{
    if pos < schema.encode_order@.len() && 0 <= schema.encode_order@[pos as int]
        < schema.fields@.len() {
        let i = schema.encode_order@[pos as int] as int;
        let here = match row[i] {
            Some(v) => emit_value(schema.fields[i].field_type, v),
            None => if schema.fields[i].field_type.nullable {
                wrote(seq![])
            } else {
                refused_as(unexpected_null(schema.fields[i].name@))
            },
        };
        here.and(emit_fields(schema, row, pos + 1))
    } else {
        wrote(seq![])
    }
}

/// Writing a row.
pub open spec fn emit_row(schema: BeamSchema, row: Seq<Option<FieldV>>) -> Emit
    decreases schema, 2nat, 0nat,
{
    if row.len() != schema.fields@.len() {
        refused_as(count_mismatch(schema.fields@.len(), row.len()))
    } else {
        wrote(row_header(schema.encode_order@, row)).and(emit_fields(schema, row, 0))
    }
}

// ---------------------------------------------------------------------------
// What is read
// ---------------------------------------------------------------------------
/// The bytes of a word, or the refusal where there are too few.
pub open spec fn parse_fixed(b: Seq<u8>, w: nat, short: Seq<char>) -> Parse<nat> {
    if b.len() < w {
        Parse::Fail(short, 0)
    } else {
        parse_word(b, w)
    }
}

/// Length-prefixed bytes, or the refusal where there are too few.
pub open spec fn parse_sized(b: Seq<u8>, short: Seq<char>) -> Parse<Seq<u8>> {
    match parse_varint(b) {
        Parse::Value(len, n) => if len <= b.len() - n {
            Parse::Value(b.subrange(n as int, n + len), n + len as nat)
        } else {
            Parse::Fail(short, n)
        },
        p => p.failed::<Seq<u8>>(),
    }
}

/// The count of a list, or the refusal where there are too few bytes.
pub open spec fn parse_count(b: Seq<u8>, short: Seq<char>) -> Parse<i32> {
    if b.len() < 4 {
        Parse::Fail(short, 0)
    } else {
        parse_i32(b)
    }
}

/// A value of a type that is not made of others.
pub open spec fn parse_atom(k: BeamTypeKind, b: Seq<u8>) -> Parse<FieldV> {
    match k {
        BeamTypeKind::Byte => parse_fixed(b, 1, "insufficient bytes for Byte"@).map(
            |v: nat| FieldV::Byte(signed8(v as u8)),
        ),
        BeamTypeKind::Int16 => parse_fixed(b, 2, "insufficient bytes for Int16"@).map(
            |v: nat| FieldV::Int16(signed16(v as u16)),
        ),
        BeamTypeKind::Int32 => parse_varint(b).map(
            |v: u64| FieldV::Int32(signed32((v % 0x1_0000_0000) as u32)),
        ),
        BeamTypeKind::Int64 => parse_signed_varint(b).map(|v: i64| FieldV::Int64(v)),
        BeamTypeKind::Float => parse_fixed(b, 4, "insufficient bytes for Float"@).map(
            |v: nat| FieldV::Float(v as u32),
        ),
        BeamTypeKind::Double => parse_fixed(b, 8, "insufficient bytes for Double"@).map(
            |v: nat| FieldV::Double(v as u64),
        ),
        BeamTypeKind::String => match parse_sized(b, "insufficient bytes for String"@) {
            Parse::Value(s, n) => if valid_utf8(s) {
                Parse::Value(FieldV::String(decode_utf8(s)), n)
            } else {
                Parse::Fail("invalid UTF-8 string in Row: "@ + utf8_error_text(s), n)
            },
            p => p.failed::<FieldV>(),
        },
        BeamTypeKind::Boolean => parse_fixed(b, 1, "insufficient bytes for Boolean"@).map(
            |v: nat| FieldV::Boolean(v != 0),
        ),
        BeamTypeKind::Bytes => parse_sized(b, "insufficient bytes for Bytes"@).map(
            |s: Seq<u8>| FieldV::Bytes(s),
        ),
        _ => Parse::Malformed,
    }
}

/// The items read, as an array.
pub open spec fn as_array(p: Parse<Seq<Option<FieldV>>>) -> Parse<FieldV> {
    match p {
        Parse::Value(v, n) => Parse::Value(FieldV::Array(v), n),
        Parse::Fail(m, n) => Parse::Fail(m, n),
        Parse::Malformed => Parse::Malformed,
    }
}

/// The items read, as an iterable.
pub open spec fn as_iterable(p: Parse<Seq<Option<FieldV>>>) -> Parse<FieldV> {
    match p {
        Parse::Value(v, n) => Parse::Value(FieldV::Iterable(v), n),
        Parse::Fail(m, n) => Parse::Fail(m, n),
        Parse::Malformed => Parse::Malformed,
    }
}

/// The entries read, as a map.
pub open spec fn as_map(p: Parse<Seq<EntryV>>) -> Parse<FieldV> {
    match p {
        Parse::Value(v, n) => Parse::Value(FieldV::BeamMap(v), n),
        Parse::Fail(m, n) => Parse::Fail(m, n),
        Parse::Malformed => Parse::Malformed,
    }
}

/// The fields read, as a row.
pub open spec fn as_row(p: Parse<Seq<Option<FieldV>>>) -> Parse<FieldV> {
    match p {
        Parse::Value(v, n) => Parse::Value(FieldV::Row(v), n),
        Parse::Fail(m, n) => Parse::Fail(m, n),
        Parse::Malformed => Parse::Malformed,
    }
}

/// The value read, as one of a logical type.
pub open spec fn as_logical(p: Parse<FieldV>) -> Parse<FieldV> {
    match p {
        Parse::Value(v, n) => Parse::Value(FieldV::Logical(Box::new(v)), n),
        Parse::Fail(m, n) => Parse::Fail(m, n),
        Parse::Malformed => Parse::Malformed,
    }
}

/// The value read, as one that is there.
pub open spec fn as_present(p: Parse<FieldV>) -> Parse<Option<FieldV>> {
    match p {
        Parse::Value(v, n) => Parse::Value(Some(v), n),
        Parse::Fail(m, n) => Parse::Fail(m, n),
        Parse::Malformed => Parse::Malformed,
    }
}

/// What the bytes read as under the type.
pub open spec fn parse_value(t: BeamFieldType, b: Seq<u8>) -> Parse<FieldV>
    decreases t, 2nat, 0nat,
{
    match t.kind {
        BeamTypeKind::Array(e) => match parse_count(b, "insufficient bytes for Array length"@) {
            Parse::Value(count, n) => if count < 0 {
                Parse::Fail("negative Array length"@, n)
            } else {
                as_array(parse_items(*e, count as nat, b.skip(n as int)).after(n))
            },
            p => p.failed::<FieldV>(),
        },
        BeamTypeKind::Iterable(e) => match parse_count(
            b,
            "insufficient bytes for Iterable length"@,
        ) {
            Parse::Value(count, n) => if count < 0 {
                as_iterable(parse_item_chunks(*e, b.skip(n as int)).after(n))
            } else {
                as_iterable(parse_items(*e, count as nat, b.skip(n as int)).after(n))
            },
            p => p.failed::<FieldV>(),
        },
        BeamTypeKind::BeamMap(kt, vt) => match parse_count(b, "insufficient bytes for Map count"@) {
            Parse::Value(count, n) => if count < 0 {
                Parse::Fail("negative Map size"@, n)
            } else {
                as_map(parse_entries(t, count as nat, b.skip(n as int)).after(n))
            },
            p => p.failed::<FieldV>(),
        },
        BeamTypeKind::Row(schema) => as_row(parse_row(*schema, b)),
        BeamTypeKind::Logical { urn, repr } => as_logical(parse_value(*repr, b)),
        k => parse_atom(k, b),
    }
}

/// An item of a list; a nullable one comes behind a byte that says whether it is
/// there.
pub open spec fn parse_item(t: BeamFieldType, b: Seq<u8>) -> Parse<Option<FieldV>>
    decreases t, 3nat, 0nat,
{
    if t.nullable {
        if b.len() < 1 {
            Parse::Fail("insufficient bytes for nullable element flag"@, 0)
        } else if b[0] != 0 {
            as_present(parse_value(t, b.skip(1)).after(1))
        } else {
            Parse::Value(None, 1)
        }
    } else {
        as_present(parse_value(t, b))
    }
}

pub open spec fn parse_items(t: BeamFieldType, count: nat, b: Seq<u8>) -> Parse<
    Seq<Option<FieldV>>,
>
    decreases t, 4nat, count,
{
    if count == 0 {
        Parse::Value(seq![], 0)
    } else {
        match parse_item(t, b) {
            Parse::Value(v, n) => parse_items(t, (count - 1) as nat, b.skip(n as int)).behind(
                seq![v],
                n,
            ),
            p => p.failed::<Seq<Option<FieldV>>>(),
        }
    }
}

pub open spec fn parse_item_chunks(t: BeamFieldType, b: Seq<u8>) -> Parse<Seq<Option<FieldV>>>
    decreases t, 5nat, b.len(),
{
    match parse_varint(b) {
        Parse::Value(count, k) => if count == 0 {
            Parse::Value(seq![], k)
        } else {
            match parse_items(t, count as nat, b.skip(k as int)) {
                Parse::Value(s, n) => if 1 <= k && k + n <= b.len() {
                    parse_item_chunks(t, b.skip((k + n) as int)).behind(s, k + n)
                } else {
                    Parse::Malformed
                },
                p => p.after(k),
            }
        },
        p => p.failed::<Seq<Option<FieldV>>>(),
    }
}

/// An entry of a map: its key and its value.
pub open spec fn parse_entry(t: BeamFieldType, b: Seq<u8>) -> Parse<EntryV>
    decreases t, 0nat, 0nat,
{
    match t.kind {
        BeamTypeKind::BeamMap(kt, vt) => match parse_item(*kt, b) {
            Parse::Value(key, n) => match parse_item(*vt, b.skip(n as int)) {
                Parse::Value(value, m) => Parse::Value(EntryV { key, value }, n + m),
                Parse::Fail(msg, m) => Parse::Fail(msg, n + m),
                Parse::Malformed => Parse::Malformed,
            },
            Parse::Fail(msg, n) => Parse::Fail(msg, n),
            Parse::Malformed => Parse::Malformed,
        },
        _ => Parse::Malformed,
    }
}

/// The entries of a map one behind the other.
pub open spec fn parse_entries(t: BeamFieldType, count: nat, b: Seq<u8>) -> Parse<
    Seq<EntryV>,
>
    decreases t, 1nat, count,
{
    if count == 0 {
        Parse::Value(seq![], 0)
    } else {
        match parse_entry(t, b) {
            Parse::Value(e, n) => parse_entries(t, (count - 1) as nat, b.skip(n as int)).behind(
                seq![e],
                n,
            ),
            p => p.failed::<Seq<EntryV>>(),
        }
    }
}

/// Whether the bitmap marks the position.
pub open spec fn marked(bitmap: Seq<u8>, pos: int) -> bool {
    pos / 8 < bitmap.len() && (bitmap[pos / 8] as int / bit_value(pos % 8)) % 2 == 1
}

/// Reading the fields from the `pos`th on into `row`.
pub open spec fn parse_fields(
    schema: BeamSchema,
    bitmap: Seq<u8>,
    row: Seq<Option<FieldV>>,
    pos: nat,
    b: Seq<u8>,
) -> Parse<Seq<Option<FieldV>>>
    decreases schema, 1nat, schema.encode_order@.len() - pos,
{
    if pos < schema.encode_order@.len() && 0 <= schema.encode_order@[pos as int]
        < schema.fields@.len() {
        let i = schema.encode_order@[pos as int] as int;
        let field = schema.fields[i];
        if marked(bitmap, pos as int) {
            if field.field_type.nullable {
                parse_fields(schema, bitmap, row.update(i, None), pos + 1, b)
            } else {
                Parse::Fail(
                    "field '"@ + field.name@
                        + "' marked null in wire bitmap but schema states non-nullable"@,
                    0,
                )
            }
        } else {
            match parse_value(field.field_type, b) {
                Parse::Value(v, n) => parse_fields(
                    schema,
                    bitmap,
                    row.update(i, Some(v)),
                    pos + 1,
                    b.skip(n as int),
                ).after(n),
                p => p.failed::<Seq<Option<FieldV>>>(),
            }
        }
    } else {
        Parse::Value(row, 0)
    }
}

/// A row of null values.
pub open spec fn empty_row(n: nat) -> Seq<Option<FieldV>> {
    Seq::new(n, |i: int| None)
}

/// What the bytes read as under the schema.
pub open spec fn parse_row(schema: BeamSchema, b: Seq<u8>) -> Parse<Seq<Option<FieldV>>>
    decreases schema, 2nat, 0nat,
{
    match parse_varint(b) {
        Parse::Value(count, n) => if count != schema.fields@.len() {
            Parse::Fail(
                "row field count mismatch: schema expects "@ + decimal(schema.fields@.len())
                    + ", wire header had "@ + decimal(count as nat),
                n,
            )
        } else {
            let b1 = b.skip(n as int);
            match parse_sized(b1, "insufficient bytes for null bitmap"@) {
                Parse::Value(bitmap, m) => parse_fields(
                    schema,
                    bitmap,
                    empty_row(schema.fields@.len()),
                    0,
                    b1.skip(m as int),
                ).after(n + m),
                p => p.after(n).failed::<Seq<Option<FieldV>>>(),
            }
        },
        p => p.failed::<Seq<Option<FieldV>>>(),
    }
}

// ---------------------------------------------------------------------------
// Writing
// ---------------------------------------------------------------------------
/// Ties what a writing function returned and appended to what it should write.
pub open spec fn emitted(
    r: Result<(), CodersError>,
    e: Emit,
    before: Seq<u8>,
    after: Seq<u8>,
) -> bool {
    &&& after == before + e.bytes
    &&& r is Ok <==> e.ok
    &&& r matches Err(err) ==> err matches CodersError::WhileEncoding(text) && e.reason == Some(
        text@,
    )
}

proof fn and_assoc(a: Emit, b: Emit, c: Emit)
    ensures
        a.and(b.and(c)) == a.and(b).and(c),
{
    assert((a.bytes + b.bytes) + c.bytes =~= a.bytes + (b.bytes + c.bytes));
}

/// The `Debug` form of a kind of type.
pub uninterp spec fn kind_debug(kind: BeamTypeKind) -> Seq<char>;

/// `format!` with the `Debug` form of a kind of type: the same for the same kind. How it
/// looks is not told.
#[verifier::external_body]
fn shown_kind(kind: &BeamTypeKind) -> (r: String)
    ensures
        r@ == kind_debug(*kind),
{
    format!("{:?}", kind)
}

/// The `Debug` form of a value of a field.
pub uninterp spec fn field_debug(value: FieldV) -> Seq<char>;

/// `format!` with the `Debug` form of a value of a field: the same for the same value, a
/// floating-point number being held, and shown, as its bits. How it looks otherwise is
/// not told.
#[verifier::external_body]
fn shown_field(val: &FieldValue) -> (r: String)
    ensures
        r@ == field_debug(value_model(*val)),
{
    format!("{:?}", val)
}

/// What is said of a value that is not of its type.
pub open spec fn mismatch_form(kind: BeamTypeKind, value: FieldV) -> Seq<char> {
    "type mismatch: expected "@ + kind_debug(kind) + ", got "@ + field_debug(value)
}

fn mismatch_text(kind: &BeamTypeKind, val: &FieldValue) -> (r: String)
    ensures
        r@ == mismatch_form(*kind, value_model(*val)),
{
    let expected = shown_kind(kind);
    let got = shown_field(val);
    let start = join2("type mismatch: expected ", expected.as_str());
    join3(start.as_str(), ", got ", got.as_str())
}

fn encode_atom(kind: &BeamTypeKind, val: &FieldValue, buf: &mut Vec<u8>) -> (r: Result<
    (),
    CodersError,
>)
    ensures
        emitted(r, emit_atom(*kind, value_model(*val)), old(buf)@, final(buf)@),
{
    let ghost start = buf@;
    match (kind, val) {
        (BeamTypeKind::Byte, FieldValue::Byte(v)) => {
            let byte: u8 = if *v < 0 {
                (*v as i16 + 256) as u8
            } else {
                *v as u8
            };
            buf.push(byte);
        },
        (BeamTypeKind::Int16, FieldValue::Int16(v)) => {
            let word: u64 = if *v < 0 {
                (*v as i32 + 0x1_0000) as u64
            } else {
                *v as u64
            };
            put_word(word, 2, buf);
        },
        (BeamTypeKind::Int32, FieldValue::Int32(v)) => {
            encode_signed_varint(*v as i64, buf);
        },
        (BeamTypeKind::Int64, FieldValue::Int64(v)) => {
            encode_signed_varint(*v, buf);
        },
        (BeamTypeKind::Float, FieldValue::Float(v)) => {
            put_word(*v as u64, 4, buf);
        },
        (BeamTypeKind::Double, FieldValue::Double(v)) => {
            put_u64(*v, buf);
        },
        (BeamTypeKind::String, FieldValue::String(v)) => {
            put_prefixed(v.as_str().as_bytes(), buf);
        },
        (BeamTypeKind::Boolean, FieldValue::Boolean(v)) => {
            buf.push(if *v { 1 } else { 0 });
        },
        (BeamTypeKind::Bytes, FieldValue::Bytes(v)) => {
            put_prefixed(v.as_slice(), buf);
        },
        _ => {
            assert(buf@ =~= start + Seq::<u8>::empty());
            return Err(CodersError::WhileEncoding(mismatch_text(kind, val)));
        },
    }
    assert(buf@ =~= start + emit_atom(*kind, value_model(*val)).bytes);
    Ok(())
}

/// Appends a value of a type.
pub fn encode_field_value(ft: &BeamFieldType, val: &FieldValue, buf: &mut Vec<u8>) -> (r: Result<
    (),
    CodersError,
>)
    requires
        type_wf(*ft),
    ensures
        emitted(r, emit_value(*ft, value_model(*val)), old(buf)@, final(buf)@),
    decreases ft, 1nat,
{
    let ghost start = buf@;
    match &ft.kind {
        BeamTypeKind::Array(e) => match val {
            FieldValue::Array(items) => {
                put_word(items.len() as u64, 4, buf);
                let r = encode_items(e, items, buf);
                assert(buf@ =~= start + emit_value(*ft, value_model(*val)).bytes);
                return r;
            },
            _ => {},
        },
        BeamTypeKind::Iterable(e) => match val {
            FieldValue::Iterable(items) => {
                put_word(items.len() as u64, 4, buf);
                let r = encode_items(e, items, buf);
                assert(buf@ =~= start + emit_value(*ft, value_model(*val)).bytes);
                return r;
            },
            _ => {},
        },
        BeamTypeKind::BeamMap(_, _) => match val {
            FieldValue::BeamMap(entries) => {
                put_word(entries.len() as u64, 4, buf);
                let r = encode_entries(ft, entries, buf);
                assert(buf@ =~= start + emit_value(*ft, value_model(*val)).bytes);
                return r;
            },
            _ => {},
        },
        BeamTypeKind::Row(schema) => match val {
            FieldValue::Row(row) => {
                return encode_row(schema, row, buf);
            },
            _ => {},
        },
        BeamTypeKind::Logical { urn: _, repr } => match val {
            FieldValue::Logical(inner) => {
                return encode_field_value(repr, inner, buf);
            },
            _ => {
                return encode_field_value(repr, val, buf);
            },
        },
        _ => {
            return encode_atom(&ft.kind, val, buf);
        },
    }
    assert(buf@ =~= start + Seq::<u8>::empty());
    Err(CodersError::WhileEncoding(mismatch_text(&ft.kind, val)))
}

/// Appends an item of a list.
pub fn encode_element_value(
    elem_ft: &BeamFieldType,
    val: &Option<FieldValue>,
    buf: &mut Vec<u8>,
) -> (r: Result<(), CodersError>)
    requires
        type_wf(*elem_ft),
    ensures
        emitted(r, emit_item(*elem_ft, option_model(*val)), old(buf)@, final(buf)@),
    decreases elem_ft, 2nat,
{
    let ghost start = buf@;
    match val {
        Some(v) => if elem_ft.nullable {
            buf.push(1);
            let r = encode_field_value(elem_ft, v, buf);
            assert(buf@ =~= start + emit_item(*elem_ft, option_model(*val)).bytes);
            r
        } else {
            encode_field_value(elem_ft, v, buf)
        },
        None => if elem_ft.nullable {
            buf.push(0);
            Ok(())
        } else {
            assert(buf@ =~= start + Seq::<u8>::empty());
            Err(
                CodersError::WhileEncoding(
                    "null element for non-nullable element type".to_owned(),
                ),
            )
        },
    }
}

fn encode_items(t: &BeamFieldType, items: &Vec<Option<FieldValue>>, buf: &mut Vec<u8>) -> (r:
    Result<(), CodersError>)
    requires
        type_wf(*t),
    ensures
        emitted(r, emit_items(*t, items_model(items@)), old(buf)@, final(buf)@),
    decreases t, 3nat,
{
    let ghost all = items_model(items@);
    let ghost start = buf@;
    let ghost whole = emit_items(*t, all);
    let ghost mut written: Seq<u8> = seq![];
    let n: usize = items.len();
    let mut i: usize = 0;
    proof {
        assert(all.skip(0) =~= all);
        assert(seq![] + whole.bytes =~= whole.bytes);
        assert(buf@ =~= start + written);
    }
    while i < n
        invariant
            n == items@.len(),
            i <= n,
            type_wf(*t),
            all == items_model(items@),
            whole == emit_items(*t, all),
            whole == wrote(written).and(emit_items(*t, all.skip(i as int))),
            start == old(buf)@,
            buf@ == start + written,
        decreases n - i,
    {
        let ghost here = emit_item(*t, all[i as int]);
        proof {
            assert(all.skip(i as int)[0] == all[i as int]);
            assert(all.skip(i as int).skip(1) =~= all.skip(i + 1));
            and_assoc(wrote(written), here, emit_items(*t, all.skip(i + 1)));
        }
        let r = encode_element_value(t, &items[i], buf);
        assert(buf@ =~= start + (written + here.bytes));
        match r {
            Ok(_) => {},
            Err(e) => {
                return Err(e);
            },
        }
        proof {
            written = written + here.bytes;
        }
        i = i + 1;
    }
    assert(written + seq![] =~= written);
    Ok(())
}

fn encode_entries(
    t: &BeamFieldType,
    entries: &Vec<(Option<FieldValue>, Option<FieldValue>)>,
    buf: &mut Vec<u8>,
) -> (r: Result<(), CodersError>)
    requires
        type_wf(*t),
        t.kind is BeamMap,
    ensures
        emitted(r, emit_entries(*t, entries_model(entries@)), old(buf)@, final(buf)@),
    decreases t, 0nat,
{
    let ghost all = entries_model(entries@);
    let ghost start = buf@;
    let ghost whole = emit_entries(*t, all);
    let ghost mut written: Seq<u8> = seq![];
    let n: usize = entries.len();
    let mut i: usize = 0;
    match &t.kind {
        BeamTypeKind::BeamMap(kt, vt) => {
            proof {
                assert(all.skip(0) =~= all);
                assert(seq![] + whole.bytes =~= whole.bytes);
                assert(buf@ =~= start + written);
            }
            while i < n
                invariant
                    n == entries@.len(),
                    i <= n,
                    t.kind == BeamTypeKind::BeamMap(*kt, *vt),
                    type_wf(**kt),
                    type_wf(**vt),
                    all == entries_model(entries@),
                    whole == emit_entries(*t, all),
                    whole == wrote(written).and(emit_entries(*t, all.skip(i as int))),
                    start == old(buf)@,
            buf@ == start + written,
                decreases n - i,
            {
                let ghost key = emit_item(**kt, all[i as int].key);
                let ghost value = emit_item(**vt, all[i as int].value);
                let ghost tail = emit_entries(*t, all.skip(i + 1));
                proof {
                    assert(all.skip(i as int)[0] == all[i as int]);
                    assert(all.skip(i as int).skip(1) =~= all.skip(i + 1));
                    and_assoc(wrote(written), key.and(value), tail);
                    and_assoc(wrote(written), key, value);
                }
                let r1 = encode_element_value(kt, &entries[i].0, buf);
                assert(buf@ =~= start + (written + key.bytes));
                match r1 {
                    Ok(_) => {},
                    Err(e) => {
                        return Err(e);
                    },
                }
                let r2 = encode_element_value(vt, &entries[i].1, buf);
                assert(buf@ =~= start + ((written + key.bytes) + value.bytes));
                match r2 {
                    Ok(_) => {},
                    Err(e) => {
                        return Err(e);
                    },
                }
                proof {
                    written = (written + key.bytes) + value.bytes;
                }
                i = i + 1;
            }
            assert(written + seq![] =~= written);
            Ok(())
        },
        _ => Ok(()),
    }
}

fn bit_of(k: usize) -> (r: u8)
    requires
        k < 8,
    ensures
        r == bit_value(k as int),
{
    if k == 0 {
        1
    } else if k == 1 {
        2
    } else if k == 2 {
        4
    } else if k == 3 {
        8
    } else if k == 4 {
        16
    } else if k == 5 {
        32
    } else if k == 6 {
        64
    } else {
        128
    }
}

/// The bits below the `k`th are less than the `k`th.
proof fn null_bits_bound(order: Seq<usize>, row: Seq<Option<FieldV>>, base: int, k: nat)
    requires
        k <= 8,
    ensures
        0 <= null_bits(order, row, base, k) < 256,
        k < 8 ==> null_bits(order, row, base, k) < bit_value(k as int),
    decreases k,
{
    if k > 0 {
        null_bits_bound(order, row, base, (k - 1) as nat);
    }
}

fn null_byte(order: &Vec<usize>, row: &BeamRow, base: usize) -> (r: u8)
    requires
        is_order(order@, row.fields@.len()),
        base <= order@.len(),
    ensures
        r == null_bits(order@, row.model(), base as int, 8),
{
    let mut bits: u8 = 0;
    let mut k: usize = 0;
    let n: usize = order.len();
    while k < 8
        invariant
            k <= 8,
            n == order@.len(),
            base <= n,
            is_order(order@, row.fields@.len()),
            bits == null_bits(order@, row.model(), base as int, k as nat),
        decreases 8 - k,
    {
        proof {
            null_bits_bound(order@, row.model(), base as int, k as nat);
            null_bits_bound(order@, row.model(), base as int, (k + 1) as nat);
        }
        if k < n - base {
            let at: usize = order[base + k];
            match &row.fields[at] {
                None => {
                    assert(null_at(order@, row.model(), base + k));
                    bits = bits + bit_of(k);
                },
                Some(_) => {
                    assert(!null_at(order@, row.model(), base + k));
                },
            }
        }
        k = k + 1;
    }
    bits
}

fn any_null(order: &Vec<usize>, row: &BeamRow) -> (r: bool)
    requires
        is_order(order@, row.fields@.len()),
    ensures
        r == has_nulls(order@, row.model()),
{
    let n: usize = order.len();
    let mut i: usize = 0;
    while i < n
        invariant
            n == order@.len(),
            i <= n,
            is_order(order@, row.fields@.len()),
            forall|pos: int| 0 <= pos < i ==> !#[trigger] null_at(order@, row.model(), pos),
        decreases n - i,
    {
        match &row.fields[order[i]] {
            None => {
                assert(null_at(order@, row.model(), i as int));
                return true;
            },
            Some(_) => {},
        }
        i = i + 1;
    }
    false
}

/// Appends the field count and the bitmap.
fn encode_header(order: &Vec<usize>, row: &BeamRow, buf: &mut Vec<u8>)
    requires
        is_order(order@, row.fields@.len()),
    ensures
        final(buf)@ == old(buf)@ + row_header(order@, row.model()),
{
    let ghost start = buf@;
    let n: usize = row.fields.len();
    encode_varint(n as u64, buf);
    let ghost headed = buf@;
    if any_null(order, row) {
        let count: usize = n / 8 + (if n % 8 == 0 {
            0usize
        } else {
            1usize
        });
        let mut bitmap: Vec<u8> = Vec::new();
        let mut j: usize = 0;
        while j < count
            invariant
                n == order@.len(),
                n == row.fields@.len(),
                count == (n + 7) / 8,
                is_order(order@, row.fields@.len()),
                j <= count,
                bitmap@ == null_bitmap(order@, row.model()).take(j as int),
            decreases count - j,
        {
            let byte: u8 = null_byte(order, row, 8 * j);
            bitmap.push(byte);
            j = j + 1;
            assert(bitmap@ =~= null_bitmap(order@, row.model()).take(j as int));
        }
        assert(bitmap@ =~= null_bitmap(order@, row.model()));
        put_prefixed(bitmap.as_slice(), buf);
        assert(buf@ =~= start + row_header(order@, row.model()));
    } else {
        encode_varint(0, buf);
        assert(buf@ =~= start + row_header(order@, row.model()));
    }
}

/// Appends a row.
fn encode_row(schema: &BeamSchema, row: &BeamRow, buf: &mut Vec<u8>) -> (r: Result<
    (),
    CodersError,
>)
    requires
        schema_wf(*schema),
    ensures
        emitted(r, emit_row(*schema, row.model()), old(buf)@, final(buf)@),
    decreases schema, 2nat,
{
    let ghost start = buf@;
    let ghost m = row.model();
    let n: usize = schema.fields.len();
    if row.fields.len() != n {
        let mut text = around_decimal(
            "row field count mismatch: schema expects ",
            n as u64,
            ", row has ",
        );
        crate::text::push_decimal(&mut text, row.fields.len() as u64);
        assert(buf@ =~= start + Seq::<u8>::empty());
        return Err(CodersError::WhileEncoding(text));
    }
    encode_header(&schema.encode_order, row, buf);
    let ghost head = row_header(schema.encode_order@, m);
    let ghost whole = emit_row(*schema, m);
    let ghost mut written: Seq<u8> = head;
    let mut pos: usize = 0;
    while pos < n
        invariant
            n == schema.fields@.len(),
            n == row.fields@.len(),
            m == row.model(),
            pos <= n,
            schema_wf(*schema),
            whole == emit_row(*schema, m),
            whole == wrote(written).and(emit_fields(*schema, m, pos as nat)),
            start == old(buf)@,
            buf@ == start + written,
        decreases n - pos,
    {
        let at: usize = schema.encode_order[pos];
        let field = &schema.fields[at];
        let ghost tail = emit_fields(*schema, m, (pos + 1) as nat);
        proof {
            field_wf(schema.fields, 0, at as nat);
        }
        match &row.fields[at] {
            Some(v) => {
                let ghost here = emit_value(field.field_type, value_model(*v));
                proof {
                    assert(m[at as int] == Some(value_model(*v)));
                    and_assoc(wrote(written), here, tail);
                }
                let r = encode_field_value(&field.field_type, v, buf);
                assert(buf@ =~= start + (written + here.bytes));
                match r {
                    Ok(_) => {},
                    Err(e) => {
                        return Err(e);
                    },
                }
                proof {
                    written = written + here.bytes;
                }
            },
            None => {
                assert(m[at as int] is None);
                if !field.field_type.nullable {
                    proof {
                        and_assoc(
                            wrote(written),
                            refused_as(unexpected_null(field.name@)),
                            tail,
                        );
                        assert(written + seq![] =~= written);
                    }
                    return Err(
                        CodersError::WhileEncoding(
                            join3(
                                "field '",
                                field.name.as_str(),
                                "' is not nullable but row value is null",
                            ),
                        ),
                    );
                }
                proof {
                    and_assoc(wrote(written), wrote(seq![]), tail);
                    assert(written + seq![] =~= written);
                }
            },
        }
        pos = pos + 1;
    }
    assert(written + seq![] =~= written);
    Ok(())
}

// ---------------------------------------------------------------------------
// Reading
// ---------------------------------------------------------------------------
fn read_fixed(bytes: &Vec<u8>, at: usize, w: usize, short: &str) -> (r: Step<u64>)
    requires
        at <= bytes@.len(),
        w <= 8,
    ensures
        step_is(
            r,
            parse_fixed(bytes@.skip(at as int), w as nat, short@),
            |v: u64| v as nat,
            bytes@,
            at,
        ),
        r matches Step::Value(v, _) ==> v < pow256(w as nat),
{
    if bytes.len() - at < w {
        Step::Fail(short.to_owned(), at)
    } else {
        Step::Value(read_word(bytes, at, w), at + w)
    }
}

fn read_sized(bytes: &Vec<u8>, at: usize, short: &str) -> (r: Step<Vec<u8>>)
    requires
        at <= bytes@.len(),
    ensures
        step_is(
            r,
            parse_sized(bytes@.skip(at as int), short@),
            |v: Vec<u8>| v@,
            bytes@,
            at,
        ),
{
    match read_varint(bytes, at) {
        Step::Value(len, next) => {
            if len <= (bytes.len() - next) as u64 {
                let end: usize = next + len as usize;
                let value = copy_range(bytes, next, end);
                assert(value@ =~= bytes@.skip(at as int).subrange(next - at, end - at));
                Step::Value(value, end)
            } else {
                Step::Fail(short.to_owned(), next)
            }
        },
        Step::Fail(m, next) => Step::Fail(m, next),
        Step::Malformed => Step::Malformed,
    }
}

fn read_count(bytes: &Vec<u8>, at: usize, short: &str) -> (r: Step<i32>)
    requires
        at <= bytes@.len(),
    ensures
        step_is(r, parse_count(bytes@.skip(at as int), short@), |v: i32| v, bytes@, at),
{
    if bytes.len() - at < 4 {
        Step::Fail(short.to_owned(), at)
    } else {
        read_i32(bytes, at)
    }
}

/// The kinds that are not made of others.
pub open spec fn is_atom(k: BeamTypeKind) -> bool {
    match k {
        BeamTypeKind::Array(_) => false,
        BeamTypeKind::Iterable(_) => false,
        BeamTypeKind::BeamMap(_, _) => false,
        BeamTypeKind::Row(_) => false,
        BeamTypeKind::Logical { .. } => false,
        _ => true,
    }
}

fn read_atom(kind: &BeamTypeKind, bytes: &Vec<u8>, at: usize) -> (r: Step<FieldValue>)
    requires
        at <= bytes@.len(),
        is_atom(*kind),
    ensures
        step_is(
            r,
            parse_atom(*kind, bytes@.skip(at as int)),
            |v: FieldValue| value_model(v),
            bytes@,
            at,
        ),
{
    proof {
        reveal_with_fuel(pow256, 5);
    }
    match kind {
        BeamTypeKind::Byte => match read_fixed(bytes, at, 1, "insufficient bytes for Byte") {
            Step::Value(v, next) => {
                let signed: i8 = if v >= 128 {
                    (v as i16 - 256) as i8
                } else {
                    v as i8
                };
                Step::Value(FieldValue::Byte(signed), next)
            },
            Step::Fail(m, next) => Step::Fail(m, next),
            Step::Malformed => Step::Malformed,
        },
        BeamTypeKind::Int16 => match read_fixed(bytes, at, 2, "insufficient bytes for Int16") {
            Step::Value(v, next) => {
                let signed: i16 = if v >= 0x8000 {
                    (v as i32 - 0x1_0000) as i16
                } else {
                    v as i16
                };
                Step::Value(FieldValue::Int16(signed), next)
            },
            Step::Fail(m, next) => Step::Fail(m, next),
            Step::Malformed => Step::Malformed,
        },
        BeamTypeKind::Int32 => match read_varint(bytes, at) {
            Step::Value(v, next) => Step::Value(
                FieldValue::Int32(to_signed32((v % 0x1_0000_0000) as u32)),
                next,
            ),
            Step::Fail(m, next) => Step::Fail(m, next),
            Step::Malformed => Step::Malformed,
        },
        BeamTypeKind::Int64 => match read_signed_varint(bytes, at) {
            Step::Value(v, next) => Step::Value(FieldValue::Int64(v), next),
            Step::Fail(m, next) => Step::Fail(m, next),
            Step::Malformed => Step::Malformed,
        },
        BeamTypeKind::Float => match read_fixed(bytes, at, 4, "insufficient bytes for Float") {
            Step::Value(v, next) => Step::Value(FieldValue::Float(v as u32), next),
            Step::Fail(m, next) => Step::Fail(m, next),
            Step::Malformed => Step::Malformed,
        },
        BeamTypeKind::Double => match read_fixed(bytes, at, 8, "insufficient bytes for Double") {
            Step::Value(v, next) => Step::Value(FieldValue::Double(v), next),
            Step::Fail(m, next) => Step::Fail(m, next),
            Step::Malformed => Step::Malformed,
        },
        BeamTypeKind::String => match read_sized(bytes, at, "insufficient bytes for String") {
            Step::Value(raw, next) => match text_from_utf8(raw) {
                Ok(s) => Step::Value(FieldValue::String(s), next),
                Err(e) => Step::Fail(join2("invalid UTF-8 string in Row: ", e.as_str()), next),
            },
            Step::Fail(m, next) => Step::Fail(m, next),
            Step::Malformed => Step::Malformed,
        },
        BeamTypeKind::Boolean => match read_fixed(bytes, at, 1, "insufficient bytes for Boolean") {
            Step::Value(v, next) => Step::Value(FieldValue::Boolean(v != 0), next),
            Step::Fail(m, next) => Step::Fail(m, next),
            Step::Malformed => Step::Malformed,
        },
        BeamTypeKind::Bytes => match read_sized(bytes, at, "insufficient bytes for Bytes") {
            Step::Value(raw, next) => Step::Value(FieldValue::Bytes(raw), next),
            Step::Fail(m, next) => Step::Fail(m, next),
            Step::Malformed => Step::Malformed,
        },
        _ => Step::Malformed,
    }
}

/// Reads a value of a type.
#[verifier::rlimit(40)]
pub fn decode_field_value(ft: &BeamFieldType, bytes: &Vec<u8>, at: usize) -> (r: Step<FieldValue>)
    requires
        at <= bytes@.len(),
        type_wf(*ft),
    ensures
        step_is(
            r,
            parse_value(*ft, bytes@.skip(at as int)),
            |v: FieldValue| value_model(v),
            bytes@,
            at,
        ),
    decreases ft, 2nat,
{
    match &ft.kind {
        BeamTypeKind::Array(e) => match read_count(
            bytes,
            at,
            "insufficient bytes for Array length",
        ) {
            Step::Value(count, next) => {
                assert(bytes@.skip(at as int).skip(next - at) =~= bytes@.skip(next as int));
                if count < 0 {
                    Step::Fail("negative Array length".to_owned(), next)
                } else {
                    match decode_items(e, count as u64, bytes, next) {
                        Step::Value(items, end) => Step::Value(FieldValue::Array(items), end),
                        Step::Fail(m, end) => Step::Fail(m, end),
                        Step::Malformed => Step::Malformed,
                    }
                }
            },
            Step::Fail(m, next) => Step::Fail(m, next),
            Step::Malformed => Step::Malformed,
        },
        BeamTypeKind::Iterable(e) => match read_count(
            bytes,
            at,
            "insufficient bytes for Iterable length",
        ) {
            Step::Value(count, next) => {
                assert(bytes@.skip(at as int).skip(next - at) =~= bytes@.skip(next as int));
                let read = if count < 0 {
                    decode_item_chunks(e, bytes, next)
                } else {
                    decode_items(e, count as u64, bytes, next)
                };
                match read {
                    Step::Value(items, end) => Step::Value(FieldValue::Iterable(items), end),
                    Step::Fail(m, end) => Step::Fail(m, end),
                    Step::Malformed => Step::Malformed,
                }
            },
            Step::Fail(m, next) => Step::Fail(m, next),
            Step::Malformed => Step::Malformed,
        },
        BeamTypeKind::BeamMap(_, _) => match read_count(
            bytes,
            at,
            "insufficient bytes for Map count",
        ) {
            Step::Value(count, next) => {
                assert(bytes@.skip(at as int).skip(next - at) =~= bytes@.skip(next as int));
                if count < 0 {
                    Step::Fail("negative Map size".to_owned(), next)
                } else {
                    match decode_entries(ft, count as u64, bytes, next) {
                        Step::Value(entries, end) => Step::Value(
                            FieldValue::BeamMap(entries),
                            end,
                        ),
                        Step::Fail(m, end) => Step::Fail(m, end),
                        Step::Malformed => Step::Malformed,
                    }
                }
            },
            Step::Fail(m, next) => Step::Fail(m, next),
            Step::Malformed => Step::Malformed,
        },
        BeamTypeKind::Row(schema) => match decode_row(schema, bytes, at) {
            Step::Value(row, next) => Step::Value(FieldValue::Row(row), next),
            Step::Fail(m, next) => Step::Fail(m, next),
            Step::Malformed => Step::Malformed,
        },
        BeamTypeKind::Logical { urn: _, repr } => match decode_field_value(repr, bytes, at) {
            Step::Value(v, next) => Step::Value(FieldValue::Logical(Box::new(v)), next),
            Step::Fail(m, next) => Step::Fail(m, next),
            Step::Malformed => Step::Malformed,
        },
        _ => read_atom(&ft.kind, bytes, at),
    }
}

/// Reads an item of a list.
pub fn decode_element_value(elem_ft: &BeamFieldType, bytes: &Vec<u8>, at: usize) -> (r: Step<
    Option<FieldValue>,
>)
    requires
        at <= bytes@.len(),
        type_wf(*elem_ft),
    ensures
        step_is(
            r,
            parse_item(*elem_ft, bytes@.skip(at as int)),
            |v: Option<FieldValue>| option_model(v),
            bytes@,
            at,
        ),
    decreases elem_ft, 3nat,
{
    let mut pos: usize = at;
    if elem_ft.nullable {
        if at == bytes.len() {
            return Step::Fail("insufficient bytes for nullable element flag".to_owned(), at);
        }
        assert(bytes@.skip(at as int)[0] == bytes@[at as int]);
        pos = at + 1;
        if bytes[at] == 0 {
            return Step::Value(None, pos);
        }
        assert(bytes@.skip(at as int).skip(1) =~= bytes@.skip(at + 1));
    }
    match decode_field_value(elem_ft, bytes, pos) {
        Step::Value(v, next) => Step::Value(Some(v), next),
        Step::Fail(m, next) => Step::Fail(m, next),
        Step::Malformed => Step::Malformed,
    }
}

proof fn items_step(
    t: BeamFieldType,
    left: nat,
    b: Seq<u8>,
    item: Option<FieldV>,
    n: nat,
    before: Seq<Option<FieldV>>,
    k: nat,
)
    requires
        left > 0,
        parse_item(t, b) == Parse::Value(item, n),
    ensures
        parse_items(t, left, b).behind(before, k) == parse_items(
            t,
            (left - 1) as nat,
            b.skip(n as int),
        ).behind(before.push(item), k + n),
{
    match parse_items(t, (left - 1) as nat, b.skip(n as int)) {
        Parse::Value(s, m) => {
            assert(before + (seq![item] + s) =~= before.push(item) + s);
        },
        _ => {},
    }
}

proof fn entries_step(
    t: BeamFieldType,
    left: nat,
    b: Seq<u8>,
    item: EntryV,
    n: nat,
    before: Seq<EntryV>,
    k: nat,
)
    requires
        left > 0,
        parse_entry(t, b) == Parse::Value(item, n),
    ensures
        parse_entries(t, left, b).behind(before, k) == parse_entries(
            t,
            (left - 1) as nat,
            b.skip(n as int),
        ).behind(before.push(item), k + n),
{
    match parse_entries(t, (left - 1) as nat, b.skip(n as int)) {
        Parse::Value(s, m) => {
            assert(before + (seq![item] + s) =~= before.push(item) + s);
        },
        _ => {},
    }
}

#[verifier::spinoff_prover]
#[verifier::rlimit(60)]
fn decode_items(t: &BeamFieldType, count: u64, bytes: &Vec<u8>, at: usize) -> (r: Step<
    Vec<Option<FieldValue>>,
>)
    requires
        at <= bytes@.len(),
        type_wf(*t),
    ensures
        step_is(
            r,
            parse_items(*t, count as nat, bytes@.skip(at as int)),
            |v: Vec<Option<FieldValue>>| items_model(v@),
            bytes@,
            at,
        ),
    decreases t, 4nat,
{
    let mut values: Vec<Option<FieldValue>> = Vec::new();
    let mut left: u64 = count;
    let mut pos: usize = at;
    let ghost whole = parse_items(*t, count as nat, bytes@.skip(at as int));
    assert(items_model(values@) =~= seq![]);
    assert(whole == whole.behind(seq![], 0)) by {
        match whole {
            Parse::Value(s, n) => {
                assert(seq![] + s =~= s);
            },
            _ => {},
        }
    }
    while left > 0
        invariant
            at <= pos <= bytes@.len(),
            type_wf(*t),
            whole == parse_items(*t, count as nat, bytes@.skip(at as int)),
            whole == parse_items(*t, left as nat, bytes@.skip(pos as int)).behind(
                items_model(values@),
                (pos - at) as nat,
            ),
        decreases left,
    {
        match decode_element_value(t, bytes, pos) {
            Step::Value(v, next) => {
                let ghost before = items_model(values@);
                let ghost item = option_model(v);
                proof {
                    assert(bytes@.skip(pos as int).skip(next - pos) =~= bytes@.skip(next as int));
                    items_step(
                        *t,
                        left as nat,
                        bytes@.skip(pos as int),
                        item,
                        (next - pos) as nat,
                        before,
                        (pos - at) as nat,
                    );
                }
                values.push(v);
                assert(items_model(values@) =~= before.push(item));
                pos = next;
                left = left - 1;
            },
            Step::Fail(m, next) => {
                return Step::Fail(m, next);
            },
            Step::Malformed => {
                return Step::Malformed;
            },
        }
    }
    assert(items_model(values@) + seq![] =~= items_model(values@));
    Step::Value(values, pos)
}

fn decode_item_chunks(t: &BeamFieldType, bytes: &Vec<u8>, at: usize) -> (r: Step<
    Vec<Option<FieldValue>>,
>)
    requires
        at <= bytes@.len(),
        type_wf(*t),
    ensures
        step_is(
            r,
            parse_item_chunks(*t, bytes@.skip(at as int)),
            |v: Vec<Option<FieldValue>>| items_model(v@),
            bytes@,
            at,
        ),
    decreases t, 5nat,
{
    let mut values: Vec<Option<FieldValue>> = Vec::new();
    let mut pos: usize = at;
    let ghost whole = parse_item_chunks(*t, bytes@.skip(at as int));
    assert(items_model(values@) =~= seq![]);
    assert(whole == whole.behind(seq![], 0)) by {
        match whole {
            Parse::Value(s, n) => {
                assert(seq![] + s =~= s);
            },
            _ => {},
        }
    }
    loop
        invariant
            at <= pos <= bytes@.len(),
            type_wf(*t),
            whole == parse_item_chunks(*t, bytes@.skip(pos as int)).behind(
                items_model(values@),
                (pos - at) as nat,
            ),
            whole == parse_item_chunks(*t, bytes@.skip(at as int)),
        decreases bytes@.len() - pos,
    {
        let ghost here = bytes@.skip(pos as int);
        let ghost before = items_model(values@);
        proof {
            crate::coders::wire::varint_takes(here);
        }
        match read_varint(bytes, pos) {
            Step::Value(count, next) => {
                if count == 0 {
                    assert(before + seq![] =~= before);
                    return Step::Value(values, next);
                }
                assert(here.skip(next - pos) =~= bytes@.skip(next as int));
                match decode_items(t, count, bytes, next) {
                    Step::Value(chunk, end) => {
                        let ghost added = items_model(chunk@);
                        proof {
                            assert(here.skip(end - pos) =~= bytes@.skip(end as int));
                            match parse_item_chunks(*t, bytes@.skip(end as int)) {
                                Parse::Value(s, n) => {
                                    assert(before + (added + s) =~= (before + added) + s);
                                },
                                _ => {},
                            }
                        }
                        let ghost old_values = values@;
                        let mut chunk = chunk;
                        let ghost chunk_seq = chunk@;
                        values.append(&mut chunk);
                        assert(items_model(values@) =~= before + added) by {
                            assert(values@ == old_values + chunk_seq);
                        }
                        pos = end;
                    },
                    Step::Fail(m, end) => {
                        return Step::Fail(m, end);
                    },
                    Step::Malformed => {
                        return Step::Malformed;
                    },
                }
            },
            Step::Fail(m, next) => {
                return Step::Fail(m, next);
            },
            Step::Malformed => {
                return Step::Malformed;
            },
        }
    }
}

#[verifier::spinoff_prover]
#[verifier::rlimit(80)]
fn decode_entry(t: &BeamFieldType, bytes: &Vec<u8>, at: usize) -> (r: Step<
    (Option<FieldValue>, Option<FieldValue>),
>)
    requires
        at <= bytes@.len(),
        type_wf(*t),
        t.kind is BeamMap,
    ensures
        step_is(
            r,
            parse_entry(*t, bytes@.skip(at as int)),
            |v: (Option<FieldValue>, Option<FieldValue>)| entry_model(v),
            bytes@,
            at,
        ),
    decreases t, 0nat,
{
    match &t.kind {
        BeamTypeKind::BeamMap(kt, vt) => match decode_element_value(kt, bytes, at) {
            Step::Value(key, mid) => {
                assert(bytes@.skip(at as int).skip(mid - at) =~= bytes@.skip(mid as int));
                match decode_element_value(vt, bytes, mid) {
                    Step::Value(value, next) => Step::Value((key, value), next),
                    Step::Fail(m, next) => Step::Fail(m, next),
                    Step::Malformed => Step::Malformed,
                }
            },
            Step::Fail(m, next) => Step::Fail(m, next),
            Step::Malformed => Step::Malformed,
        },
        _ => Step::Malformed,
    }
}

#[verifier::spinoff_prover]
#[verifier::rlimit(60)]
fn decode_entries(t: &BeamFieldType, count: u64, bytes: &Vec<u8>, at: usize) -> (r: Step<
    Vec<(Option<FieldValue>, Option<FieldValue>)>,
>)
    requires
        at <= bytes@.len(),
        type_wf(*t),
        t.kind is BeamMap,
    ensures
        step_is(
            r,
            parse_entries(*t, count as nat, bytes@.skip(at as int)),
            |v: Vec<(Option<FieldValue>, Option<FieldValue>)>| entries_model(v@),
            bytes@,
            at,
        ),
    decreases t, 1nat,
{
    let mut values: Vec<(Option<FieldValue>, Option<FieldValue>)> = Vec::new();
    let mut left: u64 = count;
    let mut pos: usize = at;
    let ghost whole = parse_entries(*t, count as nat, bytes@.skip(at as int));
    assert(entries_model(values@) =~= seq![]);
    assert(whole == whole.behind(seq![], 0)) by {
        match whole {
            Parse::Value(s, n) => {
                assert(seq![] + s =~= s);
            },
            _ => {},
        }
    }
    while left > 0
        invariant
            at <= pos <= bytes@.len(),
            type_wf(*t),
            t.kind is BeamMap,
            whole == parse_entries(*t, count as nat, bytes@.skip(at as int)),
            whole == parse_entries(*t, left as nat, bytes@.skip(pos as int)).behind(
                entries_model(values@),
                (pos - at) as nat,
            ),
        decreases left,
    {
        match decode_entry(t, bytes, pos) {
            Step::Value(v, next) => {
                let ghost before = entries_model(values@);
                let ghost item = entry_model(v);
                proof {
                    assert(bytes@.skip(pos as int).skip(next - pos) =~= bytes@.skip(next as int));
                    entries_step(
                        *t,
                        left as nat,
                        bytes@.skip(pos as int),
                        item,
                        (next - pos) as nat,
                        before,
                        (pos - at) as nat,
                    );
                }
                values.push(v);
                assert(entries_model(values@) =~= before.push(item));
                pos = next;
                left = left - 1;
            },
            Step::Fail(m, next) => {
                return Step::Fail(m, next);
            },
            Step::Malformed => {
                return Step::Malformed;
            },
        }
    }
    assert(entries_model(values@) + seq![] =~= entries_model(values@));
    Step::Value(values, pos)
}

fn is_marked(bitmap: &Vec<u8>, pos: usize) -> (r: bool)
    ensures
        r == marked(bitmap@, pos as int),
{
    let byte: usize = pos / 8;
    byte < bitmap.len() && (bitmap[byte] / bit_of(pos % 8)) % 2 == 1
}

fn null_fields(n: usize) -> (r: Vec<Option<FieldValue>>)
    ensures
        r@.len() == n,
        items_model(r@) == empty_row(n as nat),
{
    let mut fields: Vec<Option<FieldValue>> = Vec::new();
    let mut i: usize = 0;
    while i < n
        invariant
            i <= n,
            fields@.len() == i,
            forall|j: int| 0 <= j < i ==> #[trigger] fields@[j] is None,
        decreases n - i,
    {
        fields.push(None);
        i = i + 1;
    }
    assert(items_model(fields@) =~= empty_row(n as nat));
    fields
}

fn decode_row(schema: &BeamSchema, bytes: &Vec<u8>, at: usize) -> (r: Step<BeamRow>)
    requires
        at <= bytes@.len(),
        schema_wf(*schema),
    ensures
        step_is(
            r,
            parse_row(*schema, bytes@.skip(at as int)),
            |v: BeamRow| v.model(),
            bytes@,
            at,
        ),
    decreases schema, 2nat,
{
    let n: usize = schema.fields.len();
    let (count, p1): (u64, usize) = match read_varint(bytes, at) {
        Step::Value(v, next) => (v, next),
        Step::Fail(m, next) => {
            return Step::Fail(m, next);
        },
        Step::Malformed => {
            return Step::Malformed;
        },
    };
    if count != n as u64 {
        let mut text = around_decimal(
            "row field count mismatch: schema expects ",
            n as u64,
            ", wire header had ",
        );
        crate::text::push_decimal(&mut text, count);
        return Step::Fail(text, p1);
    }
    assert(bytes@.skip(at as int).skip(p1 - at) =~= bytes@.skip(p1 as int));
    let (bitmap, p2): (Vec<u8>, usize) = match read_sized(
        bytes,
        p1,
        "insufficient bytes for null bitmap",
    ) {
        Step::Value(v, next) => (v, next),
        Step::Fail(m, next) => {
            return Step::Fail(m, next);
        },
        Step::Malformed => {
            return Step::Malformed;
        },
    };
    assert(bytes@.skip(p1 as int).skip(p2 - p1) =~= bytes@.skip(p2 as int));
    match decode_fields(schema, &bitmap, bytes, p2) {
        Step::Value(fields, next) => Step::Value(BeamRow { fields }, next),
        Step::Fail(m, next) => Step::Fail(m, next),
        Step::Malformed => Step::Malformed,
    }
}

fn decode_fields(schema: &BeamSchema, bitmap: &Vec<u8>, bytes: &Vec<u8>, at: usize) -> (r: Step<
    Vec<Option<FieldValue>>,
>)
    requires
        at <= bytes@.len(),
        schema_wf(*schema),
    ensures
        step_is(
            r,
            parse_fields(
                *schema,
                bitmap@,
                empty_row(schema.fields@.len()),
                0,
                bytes@.skip(at as int),
            ),
            |v: Vec<Option<FieldValue>>| items_model(v@),
            bytes@,
            at,
        ),
    decreases schema, 1nat,
{
    let n: usize = schema.fields.len();
    let mut fields = null_fields(n);
    let mut at_byte: usize = at;
    let mut pos: usize = 0;
    let ghost whole = parse_fields(
        *schema,
        bitmap@,
        empty_row(n as nat),
        0,
        bytes@.skip(at as int),
    );
    assert(whole == whole.after(0));
    while pos < n
        invariant
            n == schema.fields@.len(),
            fields@.len() == n,
            schema_wf(*schema),
            pos <= n,
            at <= at_byte <= bytes@.len(),
            whole == parse_fields(
                *schema,
                bitmap@,
                empty_row(n as nat),
                0,
                bytes@.skip(at as int),
            ),
            whole == parse_fields(
                *schema,
                bitmap@,
                items_model(fields@),
                pos as nat,
                bytes@.skip(at_byte as int),
            ).after((at_byte - at) as nat),
        decreases n - pos,
    {
        let i: usize = schema.encode_order[pos];
        let field = &schema.fields[i];
        let ghost before = fields@;
        proof {
            field_wf(schema.fields, 0, i as nat);
        }
        if is_marked(bitmap, pos) {
            if !field.field_type.nullable {
                return Step::Fail(
                    join3(
                        "field '",
                        field.name.as_str(),
                        "' marked null in wire bitmap but schema states non-nullable",
                    ),
                    at_byte,
                );
            }
            fields[i] = None;
            assert(items_model(fields@) =~= items_model(before).update(i as int, None));
        } else {
            match decode_field_value(&field.field_type, bytes, at_byte) {
                Step::Value(v, next) => {
                    let ghost value = value_model(v);
                    assert(bytes@.skip(at_byte as int).skip(next - at_byte) =~= bytes@.skip(
                        next as int,
                    ));
                    fields[i] = Some(v);
                    assert(items_model(fields@) =~= items_model(before).update(
                        i as int,
                        Some(value),
                    ));
                    at_byte = next;
                },
                Step::Fail(m, next) => {
                    return Step::Fail(m, next);
                },
                Step::Malformed => {
                    return Step::Malformed;
                },
            }
        }
        pos = pos + 1;
    }
    Step::Value(fields, at_byte)
}

/// The coder of the rows of a schema.
#[derive(Debug, Clone)]
pub struct RowCoder {
    pub schema: Arc<BeamSchema>,
}

impl RowCoder {
    pub fn new(schema: Arc<BeamSchema>) -> (r: RowCoder)
        ensures
            r.schema == schema,
    {
        RowCoder { schema }
    }

    pub open spec fn wf(&self) -> bool {
        schema_wf(*self.schema)
    }

    /// The coder for the schema in a coder's payload.
    pub fn from_payload(payload: &[u8]) -> (r: Result<RowCoder, CodersError>)
        ensures
            match crate::coders::schema::schema_message(payload@) {
                Ok(m) => match crate::coders::schema::schema_fault(m) {
                    Some(fault) => r matches Err(CodersError::WhileDecoding(t)) && t@ == fault,
                    None => r matches Ok(c) && c.wf() && crate::coders::schema::schema_of(
                        m,
                        *c.schema,
                    ),
                },
                Err(reason) => r matches Err(CodersError::WhileDecoding(t)) && t@
                    == "failed to decode Schema proto: "@ + reason,
            },
    {
        match BeamSchema::from_payload(payload) {
            Ok(schema) => {
                let ghost m = crate::coders::schema::schema_message(payload@)->Ok_0;
                proof {
                    vec_len_bound(schema.fields);
                    resolved_schema_wf(m, schema);
                }
                Ok(RowCoder::new(Arc::new(schema)))
            },
            Err(e) => Err(e),
        }
    }

    /// Appends a row. What was appended before a refusal stays.
    pub fn encode(&self, row: &BeamRow, buf: &mut Vec<u8>) -> (r: Result<(), CodersError>)
        requires
            self.wf(),
        ensures
            emitted(r, emit_row(*self.schema, row.model()), old(buf)@, final(buf)@),
    {
        encode_row(&self.schema, row, buf)
    }

    /// Takes a row off the front of bytes that are not malformed.
    pub fn decode(&self, buf: &mut ByteReader) -> (r: Result<BeamRow, CodersError>)
        requires
            self.wf(),
            old(buf).wf(),
            !(parse_row(*self.schema, old(buf)@) is Malformed),
        ensures
            final(buf).wf(),
            final(buf).bytes@ == old(buf).bytes@,
            final(buf).pos >= old(buf).pos,
            match r {
                Ok(v) => parse_row(*self.schema, old(buf)@) == Parse::Value(
                    v.model(),
                    (final(buf).pos - old(buf).pos) as nat,
                ),
                Err(e) => e matches CodersError::WhileDecoding(m) && parse_row(
                    *self.schema,
                    old(buf)@,
                ) == Parse::<Seq<Option<FieldV>>>::Fail(
                    m@,
                    (final(buf).pos - old(buf).pos) as nat,
                ),
            },
    {
        match decode_row(&self.schema, &buf.bytes, buf.pos) {
            Step::Value(v, next) => {
                buf.pos = next;
                Ok(v)
            },
            Step::Fail(m, next) => {
                buf.pos = next;
                Err(CodersError::WhileDecoding(m))
            },
            Step::Malformed => Err(CodersError::WhileDecoding("malformed".to_owned())),
        }
    }
}

// ---------------------------------------------------------------------------
// What was written is read back
// ---------------------------------------------------------------------------
/// The value as it is read back: a bare value under a logical type comes back
/// wrapped.
pub open spec fn canonical(t: BeamFieldType, v: FieldV) -> FieldV
    decreases t, 0nat,
{
    match t.kind {
        BeamTypeKind::Array(e) => match v {
            FieldV::Array(s) => FieldV::Array(canonical_items(*e, s)),
            _ => v,
        },
        BeamTypeKind::Iterable(e) => match v {
            FieldV::Iterable(s) => FieldV::Iterable(canonical_items(*e, s)),
            _ => v,
        },
        BeamTypeKind::BeamMap(kt, vt) => match v {
            FieldV::BeamMap(s) => FieldV::BeamMap(
                Seq::new(
                    s.len(),
                    |i: int|
                        EntryV {
                            key: canonical_item(*kt, s[i].key),
                            value: canonical_item(*vt, s[i].value),
                        },
                ),
            ),
            _ => v,
        },
        BeamTypeKind::Row(schema) => match v {
            FieldV::Row(s) => FieldV::Row(canonical_row(*schema, s)),
            _ => v,
        },
        BeamTypeKind::Logical { urn, repr } => FieldV::Logical(
            Box::new(canonical(*repr, unwrapped(v))),
        ),
        _ => v,
    }
}

pub open spec fn canonical_item(t: BeamFieldType, v: Option<FieldV>) -> Option<FieldV>
    decreases t, 1nat,
{
    match v {
        Some(x) => Some(canonical(t, x)),
        None => None,
    }
}

pub open spec fn canonical_items(t: BeamFieldType, s: Seq<Option<FieldV>>) -> Seq<Option<FieldV>>
    decreases t, 2nat,
{
    Seq::new(s.len(), |i: int| canonical_item(t, s[i]))
}

/// The row as it is read back.
pub open spec fn canonical_row(schema: BeamSchema, row: Seq<Option<FieldV>>) -> Seq<Option<FieldV>>
    decreases schema, 2nat,
{
    Seq::new(
        row.len(),
        |i: int|
            if 0 <= i < schema.fields@.len() {
                canonical_item(schema.fields[i].field_type, row[i])
            } else {
                None
            },
    )
}

/// Whether the lengths in a value fit the fields in which they are written.
pub open spec fn value_fits(v: FieldV) -> bool
    decreases v,
{
    match v {
        FieldV::String(s) => encode_utf8(s).len() <= u64::MAX,
        FieldV::Bytes(b) => b.len() <= u64::MAX,
        FieldV::Array(s) => s.len() <= i32::MAX && items_fit(s),
        FieldV::Iterable(s) => s.len() <= i32::MAX && items_fit(s),
        FieldV::BeamMap(s) => s.len() <= i32::MAX && forall|i: int|
            0 <= i < s.len() ==> item_fits((#[trigger] s[i]).key) && item_fits(s[i].value),
        FieldV::Row(s) => items_fit(s),
        FieldV::Logical(inner) => value_fits(*inner),
        _ => true,
    }
}

pub open spec fn item_fits(v: Option<FieldV>) -> bool
    decreases v,
{
    match v {
        Some(x) => value_fits(x),
        None => true,
    }
}

pub open spec fn items_fit(s: Seq<Option<FieldV>>) -> bool
    decreases s,
{
    forall|i: int| 0 <= i < s.len() ==> item_fits(#[trigger] s[i])
}

proof fn word_round_trip(n: nat, w: nat, rest: Seq<u8>)
    requires
        n < pow256(w),
    ensures
        big_endian(n, w).len() == w,
        parse_word(big_endian(n, w) + rest, w) == Parse::Value(n, w),
{
    crate::coders::wire::big_endian_round_trip(n, w);
    assert((big_endian(n, w) + rest).take(w as int) =~= big_endian(n, w));
}

proof fn sized_round_trip(b: Seq<u8>, rest: Seq<u8>, short: Seq<char>)
    requires
        b.len() <= u64::MAX,
    ensures
        parse_sized(prefixed(b) + rest, short) == Parse::Value(b, prefixed(b).len()),
{
    crate::coders::wire::prefixed_round_trip(b, rest);
    crate::coders::wire::varint_takes(prefixed(b) + rest);
}

proof fn count_round_trip(n: nat, rest: Seq<u8>, short: Seq<char>)
    requires
        n <= i32::MAX,
    ensures
        big_endian(n, 4).len() == 4,
        parse_count(big_endian(n, 4) + rest, short) == Parse::Value(n as i32, 4nat),
{
    crate::coders::wire::i32_round_trip(n as i32, rest);
}

proof fn atom_round_trip(k: BeamTypeKind, v: FieldV, rest: Seq<u8>)
    requires
        emit_atom(k, v).ok,
        value_fits(v),
    ensures
        parse_atom(k, emit_atom(k, v).bytes + rest) == Parse::Value(v, emit_atom(k, v).bytes.len()),
{
    let w = emit_atom(k, v).bytes;
    assert(pow256(1) == 256 && pow256(2) == 0x1_0000 && pow256(4) == 0x1_0000_0000 && pow256(8)
        == two64()) by {
        reveal_with_fuel(pow256, 9);
    }
    match v {
        FieldV::Byte(x) => {
            assert((w + rest).take(1) =~= seq![unsigned8(x)]);
            reveal_with_fuel(crate::coders::wire::big_endian_value, 2);
            assert(seq![unsigned8(x)].drop_last() =~= Seq::<u8>::empty());
        },
        FieldV::Int16(x) => {
            word_round_trip(unsigned16(x) as nat, 2, rest);
        },
        FieldV::Int32(x) => {
            crate::coders::wire::varint_round_trip(unsigned64(x as i64), rest);
            let u = unsigned64(x as i64);
            assert(u % 0x1_0000_0000 == unsigned32(x));
            assert(signed32(unsigned32(x)) == x);
        },
        FieldV::Int64(x) => {
            crate::coders::wire::signed_varint_round_trip(x, rest);
        },
        FieldV::Float(x) => {
            word_round_trip(x as nat, 4, rest);
        },
        FieldV::Double(x) => {
            word_round_trip(x as nat, 8, rest);
        },
        FieldV::String(x) => {
            sized_round_trip(encode_utf8(x), rest, "insufficient bytes for String"@);
            encode_utf8_valid_utf8(x);
            encode_utf8_decode_utf8(x);
        },
        FieldV::Boolean(x) => {
            let byte = if x { 1u8 } else { 0u8 };
            assert((w + rest).take(1) =~= seq![byte]);
            reveal_with_fuel(crate::coders::wire::big_endian_value, 2);
            assert(seq![byte].drop_last() =~= Seq::<u8>::empty());
        },
        FieldV::Bytes(x) => {
            sized_round_trip(x, rest, "insufficient bytes for Bytes"@);
        },
        _ => {},
    }
}

/// A written value is read back, whatever follows it; bare values under logical
/// types come back wrapped.
#[verifier::rlimit(40)]
pub proof fn value_round_trip(t: BeamFieldType, v: FieldV, rest: Seq<u8>)
    requires
        type_wf(t),
        emit_value(t, v).ok,
        value_fits(v),
    ensures
        parse_value(t, emit_value(t, v).bytes + rest) == Parse::Value(
            canonical(t, v),
            emit_value(t, v).bytes.len(),
        ),
    decreases t, 1nat, 0nat,
{
    let b = emit_value(t, v).bytes + rest;
    match t.kind {
        BeamTypeKind::Array(e) => {
            let s = v->Array_0;
            let tail = emit_items(*e, s).bytes + rest;
            count_round_trip(s.len(), tail, "insufficient bytes for Array length"@);
            items_round_trip(*e, s, rest);
            assert(b =~= big_endian(s.len(), 4) + tail);
            assert(b.skip(4) =~= tail);
        },
        BeamTypeKind::Iterable(e) => {
            let s = v->Iterable_0;
            let tail = emit_items(*e, s).bytes + rest;
            count_round_trip(s.len(), tail, "insufficient bytes for Iterable length"@);
            items_round_trip(*e, s, rest);
            assert(b =~= big_endian(s.len(), 4) + tail);
            assert(b.skip(4) =~= tail);
        },
        BeamTypeKind::BeamMap(kt, vt) => {
            let s = v->BeamMap_0;
            let tail = emit_entries(t, s).bytes + rest;
            count_round_trip(s.len(), tail, "insufficient bytes for Map count"@);
            entries_round_trip(t, s, rest);
            assert(b =~= big_endian(s.len(), 4) + tail);
            assert(b.skip(4) =~= tail);
            assert(canonical_entries(t, s) =~= canonical(t, v)->BeamMap_0);
        },
        BeamTypeKind::Row(_) => {
            row_round_trip(row_schema(t), v->Row_0, rest);
        },
        BeamTypeKind::Logical { urn, repr } => {
            value_round_trip(*repr, unwrapped(v), rest);
        },
        _ => {
            atom_round_trip(t.kind, v, rest);
        },
    }
}

proof fn item_round_trip(t: BeamFieldType, v: Option<FieldV>, rest: Seq<u8>)
    requires
        type_wf(t),
        emit_item(t, v).ok,
        item_fits(v),
    ensures
        parse_item(t, emit_item(t, v).bytes + rest) == Parse::Value(
            canonical_item(t, v),
            emit_item(t, v).bytes.len(),
        ),
    decreases t, 2nat, 0nat,
{
    let b = emit_item(t, v).bytes + rest;
    match v {
        Some(x) => {
            value_round_trip(t, x, rest);
            if t.nullable {
                assert(b[0] == 1);
                assert(b.skip(1) =~= emit_value(t, x).bytes + rest);
            }
        },
        None => {
            assert(b[0] == 0);
        },
    }
}

proof fn items_round_trip(t: BeamFieldType, s: Seq<Option<FieldV>>, rest: Seq<u8>)
    requires
        type_wf(t),
        emit_items(t, s).ok,
        items_fit(s),
    ensures
        parse_items(t, s.len(), emit_items(t, s).bytes + rest) == Parse::Value(
            canonical_items(t, s),
            emit_items(t, s).bytes.len(),
        ),
    decreases t, 3nat, s.len(),
{
    if s.len() > 0 {
        let tail = emit_items(t, s.skip(1)).bytes + rest;
        assert forall|i: int| 0 <= i < s.skip(1).len() implies item_fits(
            #[trigger] s.skip(1)[i],
        ) by {
            assert(s.skip(1)[i] == s[i + 1]);
        }
        item_round_trip(t, s[0], tail);
        items_round_trip(t, s.skip(1), rest);
        let w = emit_item(t, s[0]).bytes;
        let b = emit_items(t, s).bytes + rest;
        assert(b =~= w + tail);
        assert(b.skip(w.len() as int) =~= tail);
        assert(seq![canonical_item(t, s[0])] + canonical_items(t, s.skip(1)) =~= canonical_items(
            t,
            s,
        ));
    } else {
        assert(canonical_items(t, s) =~= seq![]);
    }
}

/// The entries as they are read back.
pub open spec fn canonical_entries(
    t: BeamFieldType,
    s: Seq<EntryV>,
) -> Seq<EntryV> {
    Seq::new(
        s.len(),
        |i: int|
            EntryV {
                key: canonical_item(*(t.kind->BeamMap_0), s[i].key),
                value: canonical_item(*(t.kind->BeamMap_1), s[i].value),
            },
    )
}

pub open spec fn emit_entry(t: BeamFieldType, e: EntryV) -> Emit {
    emit_item(*(t.kind->BeamMap_0), e.key).and(emit_item(*(t.kind->BeamMap_1), e.value))
}

pub open spec fn canonical_entry(t: BeamFieldType, e: EntryV) -> EntryV {
    EntryV {
        key: canonical_item(*(t.kind->BeamMap_0), e.key),
        value: canonical_item(*(t.kind->BeamMap_1), e.value),
    }
}

#[verifier::spinoff_prover]
#[verifier::rlimit(60)]
proof fn entry_round_trip(t: BeamFieldType, e: EntryV, rest: Seq<u8>)
    requires
        type_wf(t),
        t.kind is BeamMap,
        emit_entry(t, e).ok,
        item_fits(e.key),
        item_fits(e.value),
    ensures
        parse_entry(t, emit_entry(t, e).bytes + rest) == Parse::Value(
            canonical_entry(t, e),
            emit_entry(t, e).bytes.len(),
        ),
    decreases t, 0nat, 0nat,
{
    let kt = *(t.kind->BeamMap_0);
    let vt = *(t.kind->BeamMap_1);
    let wk = emit_item(kt, e.key).bytes;
    let wv = emit_item(vt, e.value).bytes;
    item_round_trip(kt, e.key, wv + rest);
    item_round_trip(vt, e.value, rest);
    let b = emit_entry(t, e).bytes + rest;
    assert(b =~= wk + (wv + rest));
    assert(b.skip(wk.len() as int) =~= wv + rest);
}

#[verifier::spinoff_prover]
#[verifier::rlimit(60)]
proof fn entries_round_trip(t: BeamFieldType, s: Seq<EntryV>, rest: Seq<u8>)
    requires
        type_wf(t),
        t.kind is BeamMap,
        emit_entries(t, s).ok,
        forall|i: int|
            0 <= i < s.len() ==> item_fits((#[trigger] s[i]).key) && item_fits(s[i].value),
    ensures
        parse_entries(t, s.len(), emit_entries(t, s).bytes + rest) == Parse::Value(
            canonical_entries(t, s),
            emit_entries(t, s).bytes.len(),
        ),
    decreases t, 0nat, s.len() + 1,
{
    if s.len() > 0 {
        let tail = emit_entries(t, s.skip(1)).bytes + rest;
        let w = emit_entry(t, s[0]).bytes;
        assert forall|i: int| 0 <= i < s.skip(1).len() implies item_fits(
            (#[trigger] s.skip(1)[i]).key,
        ) && item_fits(s.skip(1)[i].value) by {
            assert(s.skip(1)[i] == s[i + 1]);
        }
        assert(emit_entries(t, s) == emit_entry(t, s[0]).and(emit_entries(t, s.skip(1))));
        entry_round_trip(t, s[0], tail);
        entries_round_trip(t, s.skip(1), rest);
        let b = emit_entries(t, s).bytes + rest;
        let first = canonical_entry(t, s[0]);
        assert(b =~= w + tail);
        assert(b.skip(w.len() as int) =~= tail);
        assert(seq![first] + canonical_entries(t, s.skip(1)) =~= canonical_entries(t, s));
    } else {
        assert(canonical_entries(t, s) =~= seq![]);
    }
}

/// The bits of a byte come out one by one.
proof fn bits_come_out(f0: int, f1: int, f2: int, f3: int, f4: int, f5: int, f6: int, f7: int)
    requires
        0 <= f0 <= 1 && 0 <= f1 <= 1 && 0 <= f2 <= 1 && 0 <= f3 <= 1,
        0 <= f4 <= 1 && 0 <= f5 <= 1 && 0 <= f6 <= 1 && 0 <= f7 <= 1,
    ensures
        ({
            let b = f0 + 2 * f1 + 4 * f2 + 8 * f3 + 16 * f4 + 32 * f5 + 64 * f6 + 128 * f7;
            &&& b % 2 == f0
            &&& b / 2 % 2 == f1
            &&& b / 4 % 2 == f2
            &&& b / 8 % 2 == f3
            &&& b / 16 % 2 == f4
            &&& b / 32 % 2 == f5
            &&& b / 64 % 2 == f6
            &&& b / 128 % 2 == f7
        }),
{
}

/// The bitmap marks the null fields and no others.
pub proof fn bitmap_marks(order: Seq<usize>, row: Seq<Option<FieldV>>, pos: int)
    requires
        0 <= pos < order.len(),
    ensures
        marked(null_bitmap(order, row), pos) == null_at(order, row, pos),
{
    let j = pos / 8;
    let base = 8 * j;
    let f = |k: int| if null_at(order, row, base + k) { 1int } else { 0int };
    null_bits_bound(order, row, base, 8);
    reveal_with_fuel(null_bits, 9);
    bits_come_out(f(0), f(1), f(2), f(3), f(4), f(5), f(6), f(7));
    assert(null_bitmap(order, row)[j] == null_bits(order, row, base, 8));
    assert(pos == base + pos % 8);
}

/// An order of some fields has a place for each of them.
pub proof fn order_covers(order: Seq<usize>, n: nat, i: int)
    requires
        is_order(order, n),
        0 <= i < n,
    ensures
        exists|q: int| 0 <= q < n && order[q] == i,
{
    let s = Seq::new(n, |q: int| order[q] as int);
    assert(s.no_duplicates());
    s.unique_seq_to_set();
    let range = vstd::set_lib::set_int_range(0, n as int);
    vstd::set_lib::lemma_int_range(0, n as int);
    assert forall|x: int| s.to_set().contains(x) implies range.contains(x) by {
        let q = choose|q: int| 0 <= q < s.len() && s[q] == x;
        assert(order[q] < n);
    }
    vstd::set_lib::lemma_subset_equality(s.to_set(), range);
    assert(range.contains(i));
    assert(s.to_set().contains(i));
    let q = choose|q: int| 0 <= q < s.len() && s[q] == i;
    assert(order[q] == i);
}

proof fn fields_round_trip(
    schema: BeamSchema,
    bitmap: Seq<u8>,
    row: Seq<Option<FieldV>>,
    acc: Seq<Option<FieldV>>,
    pos: nat,
    rest: Seq<u8>,
)
    requires
        schema_wf(schema),
        row.len() == schema.fields@.len(),
        acc.len() == row.len(),
        pos <= row.len(),
        emit_fields(schema, row, pos).ok,
        items_fit(row),
        forall|p: int|
            0 <= p < row.len() ==> #[trigger] marked(bitmap, p) == null_at(
                schema.encode_order@,
                row,
                p,
            ),
        forall|q: int|
            0 <= q < pos ==> acc[(#[trigger] schema.encode_order@[q]) as int] == canonical_row(
                schema,
                row,
            )[schema.encode_order@[q] as int],
    ensures
        parse_fields(schema, bitmap, acc, pos, emit_fields(schema, row, pos).bytes + rest)
            == Parse::Value(canonical_row(schema, row), emit_fields(schema, row, pos).bytes.len()),
    decreases schema, 1nat, schema.encode_order@.len() - pos,
{
    let order = schema.encode_order@;
    let canon = canonical_row(schema, row);
    if pos < row.len() {
        let i = order[pos as int] as int;
        let t = schema.fields[i].field_type;
        field_wf(schema.fields, 0, i as nat);
        assert(marked(bitmap, pos as int) == null_at(order, row, pos as int));
        assert(item_fits(row[i]));
        let tail = emit_fields(schema, row, pos + 1).bytes + rest;
        let next = acc.update(i, canon[i]);
        assert forall|q: int| 0 <= q < pos + 1 implies next[(#[trigger] order[q]) as int]
            == canon[order[q] as int] by {
            if q < pos {
                assert(order[q] != order[pos as int]);
            }
        }
        fields_round_trip(schema, bitmap, row, next, pos + 1, rest);
        let b = emit_fields(schema, row, pos).bytes + rest;
        match row[i] {
            Some(v) => {
                value_round_trip(t, v, tail);
                let w = emit_value(t, v).bytes;
                assert(b =~= w + tail);
                assert(b.skip(w.len() as int) =~= tail);
            },
            None => {
                assert(b =~= tail);
            },
        }
    } else {
        assert forall|i: int| 0 <= i < row.len() implies acc[i] == canon[i] by {
            order_covers(order, row.len(), i);
            let q = choose|q: int| 0 <= q < row.len() && order[q] == i;
            assert(acc[order[q] as int] == canon[order[q] as int]);
        }
        assert(acc =~= canon);
    }
}

/// A written row is read back, whatever follows it; bare values under logical
/// types come back wrapped.
#[verifier::spinoff_prover]
#[verifier::rlimit(60)]
pub proof fn row_round_trip(schema: BeamSchema, row: Seq<Option<FieldV>>, rest: Seq<u8>)
    requires
        schema_wf(schema),
        emit_row(schema, row).ok,
        items_fit(row),
    ensures
        parse_row(schema, emit_row(schema, row).bytes + rest) == Parse::Value(
            canonical_row(schema, row),
            emit_row(schema, row).bytes.len(),
        ),
    decreases schema, 2nat, 0nat,
{
    let order = schema.encode_order@;
    let n = row.len();
    vec_len_bound(schema.fields);
    let fields = emit_fields(schema, row, 0).bytes + rest;
    let bitmap = if has_nulls(order, row) {
        null_bitmap(order, row)
    } else {
        Seq::<u8>::empty()
    };
    let b = emit_row(schema, row).bytes + rest;
    assert(prefixed(Seq::<u8>::empty()) =~= varint(0));
    assert(row_header(order, row) == varint(n) + prefixed(bitmap));
    assert(b =~= varint(n) + (prefixed(bitmap) + fields));
    crate::coders::wire::varint_round_trip(n as u64, prefixed(bitmap) + fields);
    let b1 = b.skip(varint(n).len() as int);
    assert(b1 =~= prefixed(bitmap) + fields);
    sized_round_trip(bitmap, fields, "insufficient bytes for null bitmap"@);
    assert(b1.skip(prefixed(bitmap).len() as int) =~= fields);
    assert forall|p: int| 0 <= p < n implies #[trigger] marked(bitmap, p) == null_at(
        order,
        row,
        p,
    ) by {
        if has_nulls(order, row) {
            bitmap_marks(order, row, p);
        }
    }
    fields_round_trip(schema, bitmap, row, empty_row(n), 0, rest);
}

} // verus!
