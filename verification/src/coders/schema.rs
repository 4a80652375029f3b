//! Row schemas.
//!
//! A [`SchemaMessage`] is a schema as a pipeline states it, in which anything may
//! be missing. A [`BeamSchema`] is its resolved form.
use crate::text::{join2, join3};
use crate::utils::errors::CodersError;
use beam_model_rs::v1::field_type;
use prost::Message;
use std::sync::Arc;
use vstd::prelude::*;
use vstd::string::*;

verus! {

/// The type of a field.
#[derive(Debug)]
pub struct BeamFieldType {
    /// Whether the field may be null.
    pub nullable: bool,
    pub kind: BeamTypeKind,
}

/// The kinds of types.
#[derive(Debug, Clone)]
pub enum BeamTypeKind {
    /// One byte, signed.
    Byte,
    /// Two bytes, signed.
    Int16,
    /// A variable-length signed number.
    Int32,
    /// A variable-length signed number.
    Int64,
    /// The four bytes of a floating-point number.
    Float,
    /// The eight bytes of a floating-point number.
    Double,
    /// Text behind the number of its bytes.
    String,
    /// One byte.
    Boolean,
    /// Bytes behind their number.
    Bytes,
    /// A list of known length.
    Array(Box<BeamFieldType>),
    /// A list that may come in chunks.
    Iterable(Box<BeamFieldType>),
    /// Keys and values.
    BeamMap(Box<BeamFieldType>, Box<BeamFieldType>),
    /// A row within the row.
    Row(Arc<BeamSchema>),
    /// A named type that is written as another.
    Logical { urn: String, repr: Box<BeamFieldType> },
}

/// A field of a schema.
#[derive(Debug, Clone)]
pub struct BeamField {
    pub name: String,
    pub field_type: BeamFieldType,
    /// Where the field is written, if the schema sets positions.
    pub encoding_position: i32,
}

/// A resolved schema.
#[derive(Debug, Clone)]
pub struct BeamSchema {
    pub id: String,
    /// The fields as the schema defines them.
    pub fields: Vec<BeamField>,
    /// The indices of the fields in the order in which they are written.
    pub encode_order: Vec<usize>,
}

/// A schema as a pipeline states it.
pub struct SchemaMessage {
    pub fields: Vec<FieldMessage>,
    pub id: String,
    pub encoding_positions_set: bool,
}

/// A field as a pipeline states it.
pub struct FieldMessage {
    pub name: String,
    pub field_type: Option<TypeMessage>,
    pub encoding_position: i32,
}

/// A type as a pipeline states it.
pub struct TypeMessage {
    pub nullable: bool,
    pub type_info: Option<TypeInfo>,
}

/// What a pipeline says of a type.
pub enum TypeInfo {
    Atomic(i32),
    Array(Option<Box<TypeMessage>>),
    Iterable(Option<Box<TypeMessage>>),
    BeamMap(Option<Box<TypeMessage>>, Option<Box<TypeMessage>>),
    Row(Option<SchemaMessage>),
    Logical(String, Option<Box<TypeMessage>>),
}

/// A stated schema as mathematics sees it.
#[verifier::ext_equal]
pub struct SchemaV {
    pub fields: Seq<FieldMsgV>,
    pub id: Seq<char>,
    pub encoding_positions_set: bool,
}

#[verifier::ext_equal]
pub struct FieldMsgV {
    pub name: Seq<char>,
    pub field_type: Option<TypeV>,
    pub encoding_position: i32,
}

#[verifier::ext_equal]
pub struct TypeV {
    pub nullable: bool,
    pub type_info: Option<InfoV>,
}

#[verifier::ext_equal]
pub enum InfoV {
    Atomic(i32),
    Array(Option<Box<TypeV>>),
    Iterable(Option<Box<TypeV>>),
    BeamMap(Option<Box<TypeV>>, Option<Box<TypeV>>),
    Row(Option<Box<SchemaV>>),
    Logical(Seq<char>, Option<Box<TypeV>>),
}

pub open spec fn schema_model(m: SchemaMessage) -> SchemaV
    decreases m,
{
    SchemaV {
        fields: fields_model(m.fields@),
        id: m.id@,
        encoding_positions_set: m.encoding_positions_set,
    }
}

pub open spec fn fields_model(s: Seq<FieldMessage>) -> Seq<FieldMsgV>
    decreases s,
{
    Seq::new(
        s.len(),
        |i: int|
            if 0 <= i < s.len() {
                field_model(s[i])
            } else {
                FieldMsgV { name: seq![], field_type: None, encoding_position: 0 }
            },
    )
}

pub open spec fn field_model(m: FieldMessage) -> FieldMsgV
    decreases m,
{
    FieldMsgV {
        name: m.name@,
        field_type: match m.field_type {
            Some(t) => Some(type_model(t)),
            None => None,
        },
        encoding_position: m.encoding_position,
    }
}

pub open spec fn type_model(m: TypeMessage) -> TypeV
    decreases m,
{
    TypeV {
        nullable: m.nullable,
        type_info: match m.type_info {
            Some(i) => Some(info_model(i)),
            None => None,
        },
    }
}

pub open spec fn info_model(m: TypeInfo) -> InfoV
    decreases m,
{
    match m {
        TypeInfo::Atomic(a) => InfoV::Atomic(a),
        TypeInfo::Array(t) => InfoV::Array(boxed_model(t)),
        TypeInfo::Iterable(t) => InfoV::Iterable(boxed_model(t)),
        TypeInfo::BeamMap(k, v) => InfoV::BeamMap(boxed_model(k), boxed_model(v)),
        TypeInfo::Row(s) => InfoV::Row(
            match s {
                Some(s) => Some(Box::new(schema_model(s))),
                None => None,
            },
        ),
        TypeInfo::Logical(urn, t) => InfoV::Logical(urn@, boxed_model(t)),
    }
}

pub open spec fn boxed_model(m: Option<Box<TypeMessage>>) -> Option<Box<TypeV>>
    decreases m,
{
    match m {
        Some(t) => Some(Box::new(type_model(*t))),
        None => None,
    }
}

// ---------------------------------------------------------------------------
// What is wrong with a stated schema
// ---------------------------------------------------------------------------
/// Why a stated schema cannot be resolved: the first fault of its first faulty
/// field.
pub open spec fn schema_fault(m: SchemaV) -> Option<Seq<char>>
    decreases m, 0nat,
{
    fields_fault(m.fields)
}

/// The first fault of the first faulty field.
pub open spec fn fields_fault(s: Seq<FieldMsgV>) -> Option<Seq<char>>
    decreases s, s.len(),
{
    if s.len() == 0 {
        None
    } else {
        let before = fields_fault(s.drop_last());
        if before is Some {
            before
        } else {
            field_fault(s.last())
        }
    }
}

pub open spec fn field_fault(f: FieldMsgV) -> Option<Seq<char>>
    decreases f, 0nat,
{
    match f.field_type {
        None => Some("schema field '"@ + f.name + "' is missing its type"@),
        Some(t) => type_fault(t),
    }
}

pub open spec fn type_fault(t: TypeV) -> Option<Seq<char>>
    decreases t, 0nat,
{
    match t.type_info {
        None => Some("FieldType is missing type_info oneof"@),
        Some(InfoV::Atomic(a)) => if 1 <= a <= 9 {
            None
        } else {
            Some("AtomicType is Unspecified"@)
        },
        Some(InfoV::Array(None)) => Some("ArrayType is missing element_type"@),
        Some(InfoV::Array(Some(e))) => type_fault(*e),
        Some(InfoV::Iterable(None)) => Some("IterableType is missing element_type"@),
        Some(InfoV::Iterable(Some(e))) => type_fault(*e),
        Some(InfoV::BeamMap(None, _)) => Some("MapType is missing key_type"@),
        Some(InfoV::BeamMap(Some(_), None)) => Some("MapType is missing value_type"@),
        Some(InfoV::BeamMap(Some(k), Some(v))) => if type_fault(*k) is Some {
            type_fault(*k)
        } else {
            type_fault(*v)
        },
        Some(InfoV::Row(None)) => Some("RowType is missing schema"@),
        Some(InfoV::Row(Some(s))) => schema_fault(*s),
        Some(InfoV::Logical(urn, None)) => Some(
            "LogicalType '"@ + urn + "' is missing its representation type"@,
        ),
        Some(InfoV::Logical(_, Some(r))) => type_fault(*r),
    }
}

// ---------------------------------------------------------------------------
// What a stated schema resolves to
// ---------------------------------------------------------------------------
/// Whether `order` lists each of `0..n` once.
pub open spec fn is_order(order: Seq<usize>, n: nat) -> bool {
    &&& order.len() == n
    &&& forall|a: int| 0 <= a < n ==> #[trigger] order[a] < n
    &&& forall|a: int, b: int| 0 <= a < b < n ==> #[trigger] order[a] != #[trigger] order[b]
}

/// Whether the field at `i` is written before the one at `j`, by position and, at
/// the same position, by index.
pub open spec fn written_before(fields: Seq<FieldMsgV>, i: int, j: int) -> bool {
    fields[i].encoding_position < fields[j].encoding_position || (fields[i].encoding_position
        == fields[j].encoding_position && i < j)
}

/// The order in which the fields are written: that of the definition, or that of
/// the positions where they are set.
pub open spec fn order_of(m: SchemaV, order: Seq<usize>) -> bool {
    if m.encoding_positions_set {
        is_order(order, m.fields.len()) && forall|a: int, b: int|
            0 <= a < b < order.len() ==> written_before(
                m.fields,
                #[trigger] order[a] as int,
                #[trigger] order[b] as int,
            )
    } else {
        order =~= Seq::new(m.fields.len(), |i: int| i as usize)
    }
}

/// Whether `s` is the resolved form of the stated schema.
pub open spec fn schema_of(m: SchemaV, s: BeamSchema) -> bool
    decreases s, 0nat,
{
    &&& s.id@ == m.id
    &&& s.fields@.len() == m.fields.len()
    &&& fields_of(m.fields, s.fields, 0)
    &&& order_of(m, s.encode_order@)
}

/// Whether the fields from the `i`th on are the resolved forms of the stated ones.
pub open spec fn fields_of(m: Seq<FieldMsgV>, fields: Vec<BeamField>, i: nat) -> bool
    decreases fields, fields@.len() - i,
{
    i < fields@.len() ==> {
        let f = fields[i as int];
        &&& f.name@ == m[i as int].name
        &&& f.encoding_position == m[i as int].encoding_position
        &&& m[i as int].field_type is Some
        &&& type_of(m[i as int].field_type->0, f.field_type)
        &&& fields_of(m, fields, i + 1)
    }
}

/// Whether `t` is the resolved form of the stated type.
pub open spec fn type_of(m: TypeV, t: BeamFieldType) -> bool
    decreases t, 0nat,
{
    m.nullable == t.nullable && m.type_info is Some && match (m.type_info->0, t.kind) {
        (InfoV::Atomic(a), BeamTypeKind::Byte) => a == 1,
        (InfoV::Atomic(a), BeamTypeKind::Int16) => a == 2,
        (InfoV::Atomic(a), BeamTypeKind::Int32) => a == 3,
        (InfoV::Atomic(a), BeamTypeKind::Int64) => a == 4,
        (InfoV::Atomic(a), BeamTypeKind::Float) => a == 5,
        (InfoV::Atomic(a), BeamTypeKind::Double) => a == 6,
        (InfoV::Atomic(a), BeamTypeKind::String) => a == 7,
        (InfoV::Atomic(a), BeamTypeKind::Boolean) => a == 8,
        (InfoV::Atomic(a), BeamTypeKind::Bytes) => a == 9,
        (InfoV::Array(Some(e)), BeamTypeKind::Array(r)) => type_of(*e, *r),
        (InfoV::Iterable(Some(e)), BeamTypeKind::Iterable(r)) => type_of(*e, *r),
        (InfoV::BeamMap(Some(k), Some(v)), BeamTypeKind::BeamMap(rk, rv)) => type_of(*k, *rk) && type_of(
            *v,
            *rv,
        ),
        (InfoV::Row(Some(s)), BeamTypeKind::Row(r)) => schema_of(*s, *r),
        (InfoV::Logical(urn, Some(e)), BeamTypeKind::Logical { urn: u, repr }) => u@ == urn
            && type_of(*e, *repr),
        _ => false,
    }
}

// ---------------------------------------------------------------------------
// Resolving
// ---------------------------------------------------------------------------
/// The bytes of a protobuf `Schema` message: what they state, or the reason why
/// they are none.
pub uninterp spec fn schema_message(payload: Seq<u8>) -> Result<SchemaV, Seq<char>>;

/// `prost::Message::decode` for the `Schema` message: the message in the bytes,
/// with its fields moved over one by one, or the text of the decoder's error. It
/// is claimed to depend on the bytes alone.
#[verifier::external_body]
fn decode_schema(payload: &[u8]) -> (r: Result<SchemaMessage, String>)
    ensures
        match r {
            Ok(m) => schema_message(payload@) == Ok::<SchemaV, Seq<char>>(schema_model(m)),
            Err(e) => schema_message(payload@) == Err::<SchemaV, Seq<char>>(e@),
        },
{
    beam_model_rs::v1::Schema::decode(payload).map(plain_schema).map_err(|e| e.to_string())
}

/// `beam_model_rs::v1::Schema`: the decoded message.
#[verifier::external_type_specification]
#[verifier::external_body]
pub struct ExSchema(beam_model_rs::v1::Schema);

/// `beam_model_rs::v1::Field`: the decoded message.
#[verifier::external_type_specification]
#[verifier::external_body]
pub struct ExField(beam_model_rs::v1::Field);

/// `beam_model_rs::v1::FieldType`: the decoded message.
#[verifier::external_type_specification]
#[verifier::external_body]
pub struct ExFieldType(beam_model_rs::v1::FieldType);

/// Moves the fields of a decoded `beam_model_rs` `Schema` over into a
/// [`SchemaMessage`]; nothing is claimed of it by itself.
#[verifier::external_body]
fn plain_schema(s: beam_model_rs::v1::Schema) -> SchemaMessage {
    SchemaMessage {
        fields: s.fields.into_iter().map(plain_field).collect(),
        id: s.id,
        encoding_positions_set: s.encoding_positions_set,
    }
}

/// Moves the fields of a decoded `beam_model_rs` `Field` over into a
/// [`FieldMessage`]. Its type is carried over in its wire form, which is that of
/// the representation of a logical type. Nothing is claimed of it by itself.
#[verifier::external_body]
fn plain_field(mut f: beam_model_rs::v1::Field) -> FieldMessage {
    let name = std::mem::take(&mut f.name);
    let encoding_position = std::mem::take(&mut f.encoding_position);
    f.description.clear();
    f.options.clear();
    f.id = 0;
    let carrier = beam_model_rs::v1::LogicalType::decode(f.encode_to_vec().as_slice());
    let field_type = carrier.unwrap_or_default().representation.map(|t| plain_type(*t));
    FieldMessage { name, field_type, encoding_position }
}

/// Moves the fields of a decoded `beam_model_rs` `FieldType` over into a
/// [`TypeMessage`]; nothing is claimed of it by itself.
#[verifier::external_body]
fn plain_type(t: beam_model_rs::v1::FieldType) -> TypeMessage {
    let boxed = |e: Option<Box<beam_model_rs::v1::FieldType>>| e.map(|e| Box::new(plain_type(*e)));
    TypeMessage {
        nullable: t.nullable,
        type_info: t.type_info.map(|i| match i {
            field_type::TypeInfo::AtomicType(a) => TypeInfo::Atomic(a),
            field_type::TypeInfo::ArrayType(a) => TypeInfo::Array(boxed(a.element_type)),
            field_type::TypeInfo::IterableType(a) => TypeInfo::Iterable(boxed(a.element_type)),
            field_type::TypeInfo::MapType(m) => TypeInfo::BeamMap(boxed(m.key_type), boxed(m.value_type)),
            field_type::TypeInfo::RowType(r) => TypeInfo::Row(r.schema.map(plain_schema)),
            field_type::TypeInfo::LogicalType(l) => TypeInfo::Logical(l.urn, boxed(l.representation)),
        }),
    }
}

/// The indices of the fields by position and, at the same position, by index.
fn order_by_position(fields: &Vec<FieldMessage>) -> (r: Vec<usize>)
    ensures
        is_order(r@, fields@.len()),
        forall|a: int, b: int|
            0 <= a < b < r@.len() ==> written_before(
                fields_model(fields@),
                #[trigger] r@[a] as int,
                #[trigger] r@[b] as int,
            ),
{
    let n: usize = fields.len();
    let ghost m = fields_model(fields@);
    let mut order: Vec<usize> = Vec::new();
    let mut i: usize = 0;
    while i < n
        invariant
            n == fields@.len(),
            m == fields_model(fields@),
            i <= n,
            is_order(order@, i as nat),
            forall|a: int, b: int|
                0 <= a < b < order@.len() ==> written_before(
                    m,
                    #[trigger] order@[a] as int,
                    #[trigger] order@[b] as int,
                ),
        decreases n - i,
    {
        let ghost before = order@;
        let mut k: usize = i;
        while k > 0 && fields[order[k - 1]].encoding_position > fields[i].encoding_position
            invariant
                n == fields@.len(),
                m == fields_model(fields@),
                i < n,
                k <= i,
                order@ == before,
                is_order(order@, i as nat),
                forall|a: int|
                    k <= a < i ==> fields@[#[trigger] order@[a] as int].encoding_position
                        > fields@[i as int].encoding_position,
            decreases k,
        {
            k = k - 1;
        }
        order.insert(k, i);
        proof {
            let after = order@;
            assert(after =~= before.insert(k as int, i));
            assert forall|a: int| 0 <= a < i + 1 implies #[trigger] after[a] < i + 1 by {
                if a < k {
                    assert(after[a] == before[a]);
                } else if a > k {
                    assert(after[a] == before[a - 1]);
                }
            }
            assert forall|a: int, b: int| 0 <= a < b < i + 1 implies #[trigger] after[a]
                != #[trigger] after[b] && written_before(m, after[a] as int, after[b] as int) by {
                let pa = if a < k { a } else { a - 1 };
                let pb = if b < k { b } else { b - 1 };
                if a == k {
                    assert(after[b] == before[pb]);
                    assert(m[before[pb] as int].encoding_position
                        == fields@[before[pb] as int].encoding_position);
                } else if b == k {
                    assert(after[a] == before[pa]);
                    assert(before[pa] < i);
                    if k > 0 && pa < k - 1 {
                        assert(written_before(m, before[pa] as int, before[k - 1] as int));
                    }
                } else {
                    assert(after[a] == before[pa]);
                    assert(after[b] == before[pb]);
                    assert(written_before(m, before[pa] as int, before[pb] as int));
                }
            }
        }
        i = i + 1;
    }
    order
}

/// The indices `0..n`.
fn identity_order(n: usize) -> (r: Vec<usize>)
    ensures
        r@ == Seq::new(n as nat, |i: int| i as usize),
{
    let mut order: Vec<usize> = Vec::new();
    let mut i: usize = 0;
    while i < n
        invariant
            i <= n,
            order@ == Seq::new(i as nat, |j: int| j as usize),
        decreases n - i,
    {
        order.push(i);
        i = i + 1;
        assert(order@ =~= Seq::new(i as nat, |j: int| j as usize));
    }
    order
}

/// Fields that were added one by one are resolved from the first on.
proof fn fields_of_extended(m: Seq<FieldMsgV>, before: Vec<BeamField>, after: Vec<BeamField>, i: nat)
    requires
        before@.len() < m.len(),
        after@.len() == before@.len() + 1,
        after@.drop_last() =~= before@,
        i <= before@.len(),
        fields_of(m, before, i),
        fields_of(m, after, before@.len()),
    ensures
        fields_of(m, after, i),
    decreases before@.len() - i,
{
    if i < before@.len() {
        assert(after@[i as int] == before@[i as int]);
        fields_of_extended(m, before, after, i + 1);
    }
}

proof fn fields_fault_prefix(s: Seq<FieldMsgV>, i: int)
    requires
        0 <= i <= s.len(),
        fields_fault(s.take(i)) is Some,
    ensures
        fields_fault(s) == fields_fault(s.take(i)),
    decreases s.len() - i,
{
    if i < s.len() {
        assert(s.take(i + 1).drop_last() =~= s.take(i));
        fields_fault_prefix(s, i + 1);
    } else {
        assert(s.take(i) =~= s);
    }
}

impl BeamSchema {
    /// The schema in the bytes of a coder's payload, a protobuf `Schema` message.
    pub fn from_payload(payload: &[u8]) -> (r: Result<BeamSchema, CodersError>)
        ensures
            match schema_message(payload@) {
                Ok(m) => match schema_fault(m) {
                    Some(fault) => r matches Err(CodersError::WhileDecoding(t)) && t@ == fault,
                    None => r matches Ok(s) && schema_of(m, s),
                },
                Err(reason) => r matches Err(CodersError::WhileDecoding(t)) && t@
                    == "failed to decode Schema proto: "@ + reason,
            },
    {
        match decode_schema(payload) {
            Ok(m) => BeamSchema::from_proto(&m),
            Err(e) => Err(
                CodersError::WhileDecoding(join2("failed to decode Schema proto: ", e.as_str())),
            ),
        }
    }

    /// Resolves a stated schema.
    pub fn from_proto(schema: &SchemaMessage) -> (r: Result<BeamSchema, CodersError>)
        ensures
            match schema_fault(schema_model(*schema)) {
                Some(fault) => r matches Err(CodersError::WhileDecoding(t)) && t@ == fault,
                None => r matches Ok(s) && schema_of(schema_model(*schema), s),
            },
        decreases schema, 0nat,
    {
        let ghost m = schema_model(*schema);
        let n: usize = schema.fields.len();
        let mut fields: Vec<BeamField> = Vec::new();
        let mut i: usize = 0;
        assert(m.fields.take(0) =~= seq![]);
        while i < n
            invariant
                n == schema.fields@.len(),
                m == schema_model(*schema),
                i <= n,
                fields@.len() == i,
                fields_of(m.fields, fields, 0),
                fields_fault(m.fields.take(i as int)) is None,
            decreases n - i,
        {
            let stated = &schema.fields[i];
            let ghost fm = m.fields[i as int];
            proof {
                assert(fm == field_model(schema.fields@[i as int]));
                assert(m.fields.take(i + 1).drop_last() =~= m.fields.take(i as int));
                assert(m.fields.take(i + 1).last() == fm);
                if field_fault(fm) is Some {
                    fields_fault_prefix(m.fields, i + 1);
                }
            }
            match &stated.field_type {
                None => {
                    return Err(
                        CodersError::WhileDecoding(
                            join3(
                                "schema field '",
                                stated.name.as_str(),
                                "' is missing its type",
                            ),
                        ),
                    );
                },
                Some(t) => match resolve_field_type(t) {
                    Err(e) => {
                        return Err(e);
                    },
                    Ok(field_type) => {
                        let ghost before = fields;
                        fields.push(
                            BeamField {
                                name: stated.name.clone(),
                                field_type,
                                encoding_position: stated.encoding_position,
                            },
                        );
                        proof {
                            assert(fields@.drop_last() =~= before@);
                            assert(fields_of(m.fields, fields, i as nat)) by {
                                assert(fields_of(m.fields, fields, (i + 1) as nat));
                            }
                            fields_of_extended(m.fields, before, fields, 0);
                        }
                    },
                },
            }
            i = i + 1;
        }
        assert(m.fields.take(n as int) =~= m.fields);
        let encode_order: Vec<usize> = if schema.encoding_positions_set {
            order_by_position(&schema.fields)
        } else {
            identity_order(n)
        };
        Ok(BeamSchema { id: schema.id.clone(), fields, encode_order })
    }
}

/// Resolves a stated type.
pub fn resolve_field_type(ft: &TypeMessage) -> (r: Result<BeamFieldType, CodersError>)
    ensures
        match type_fault(type_model(*ft)) {
            Some(fault) => r matches Err(CodersError::WhileDecoding(t)) && t@ == fault,
            None => r matches Ok(t) && type_of(type_model(*ft), t),
        },
    decreases ft, 0nat,
{
    let nullable: bool = ft.nullable;
    let info = match &ft.type_info {
        None => {
            return Err(
                CodersError::WhileDecoding("FieldType is missing type_info oneof".to_owned()),
            );
        },
        Some(info) => info,
    };
    match info {
        TypeInfo::Atomic(a) => {
            let kind = if *a == 1 {
                BeamTypeKind::Byte
            } else if *a == 2 {
                BeamTypeKind::Int16
            } else if *a == 3 {
                BeamTypeKind::Int32
            } else if *a == 4 {
                BeamTypeKind::Int64
            } else if *a == 5 {
                BeamTypeKind::Float
            } else if *a == 6 {
                BeamTypeKind::Double
            } else if *a == 7 {
                BeamTypeKind::String
            } else if *a == 8 {
                BeamTypeKind::Boolean
            } else if *a == 9 {
                BeamTypeKind::Bytes
            } else {
                return Err(CodersError::WhileDecoding("AtomicType is Unspecified".to_owned()));
            };
            Ok(BeamFieldType { nullable, kind })
        },
        TypeInfo::Array(e) => match e {
            None => Err(
                CodersError::WhileDecoding("ArrayType is missing element_type".to_owned()),
            ),
            Some(e) => match resolve_field_type(e) {
                Ok(t) => Ok(BeamFieldType { nullable, kind: BeamTypeKind::Array(Box::new(t)) }),
                Err(err) => Err(err),
            },
        },
        TypeInfo::Iterable(e) => match e {
            None => Err(
                CodersError::WhileDecoding("IterableType is missing element_type".to_owned()),
            ),
            Some(e) => match resolve_field_type(e) {
                Ok(t) => Ok(BeamFieldType { nullable, kind: BeamTypeKind::Iterable(Box::new(t)) }),
                Err(err) => Err(err),
            },
        },
        TypeInfo::BeamMap(k, v) => {
            let k = match k {
                None => {
                    return Err(
                        CodersError::WhileDecoding("MapType is missing key_type".to_owned()),
                    );
                },
                Some(k) => k,
            };
            let v = match v {
                None => {
                    return Err(
                        CodersError::WhileDecoding("MapType is missing value_type".to_owned()),
                    );
                },
                Some(v) => v,
            };
            let key = match resolve_field_type(k) {
                Ok(t) => t,
                Err(err) => {
                    return Err(err);
                },
            };
            let value = match resolve_field_type(v) {
                Ok(t) => t,
                Err(err) => {
                    return Err(err);
                },
            };
            Ok(
                BeamFieldType {
                    nullable,
                    kind: BeamTypeKind::BeamMap(Box::new(key), Box::new(value)),
                },
            )
        },
        TypeInfo::Row(s) => match s {
            None => Err(CodersError::WhileDecoding("RowType is missing schema".to_owned())),
            Some(s) => match BeamSchema::from_proto(s) {
                Ok(schema) => Ok(
                    BeamFieldType { nullable, kind: BeamTypeKind::Row(Arc::new(schema)) },
                ),
                Err(err) => Err(err),
            },
        },
        TypeInfo::Logical(urn, e) => match e {
            None => Err(
                CodersError::WhileDecoding(
                    join3("LogicalType '", urn.as_str(), "' is missing its representation type"),
                ),
            ),
            Some(e) => match resolve_field_type(e) {
                Ok(t) => Ok(
                    BeamFieldType {
                        nullable,
                        kind: BeamTypeKind::Logical { urn: urn.clone(), repr: Box::new(t) },
                    },
                ),
                Err(err) => Err(err),
            },
        },
    }
}

} // verus!
