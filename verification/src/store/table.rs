//! Records as the rows of a table, and back.
use crate::store::columns::{type_model, DataType, FieldV, TableField, TableSchema, TypeV};
use crate::store::record::{
    record_model, records_model, BeamRecord, IterableValue, PrimitiveV, PrimitiveValue, RecordV,
};
use crate::store::{KEY_COLUMN, VALUE_COLUMN};
use crate::text::{join2, join3, same_text};
use crate::utils::errors::ElementStoreError;
use vstd::prelude::*;
use vstd::string::*;

verus! {

/// What kind of record a table stores.
#[derive(Debug, Clone, Copy, PartialEq, Eq, Structural)]
pub enum TableType {
    /// A `value` column of a primitive type.
    Primitive,
    /// A `value` column of lists.
    Iterable,
    /// A `key` and a `value` column, both of a primitive type.
    Kv,
    /// A `key` column of a primitive type and a `value` column of lists.
    Gbk,
}

/// The name of a kind of table.
pub open spec fn table_name(t: TableType) -> Seq<char> {
    match t {
        TableType::Primitive => "primitive"@,
        TableType::Iterable => "iterable"@,
        TableType::Kv => "kv"@,
        TableType::Gbk => "gbk"@,
    }
}

/// Two kinds of table have two names.
pub proof fn table_names_differ(a: TableType, b: TableType)
    ensures
        table_name(a) == table_name(b) ==> a == b,
{
    reveal_strlit("primitive");
    reveal_strlit("iterable");
    reveal_strlit("kv");
    reveal_strlit("gbk");
    assert("primitive"@[0] == 'p');
    assert("iterable"@[0] == 'i');
    assert("kv"@[0] == 'k');
    assert("gbk"@[0] == 'g');
}

/// The kind of table of that name.
pub open spec fn table_named(name: Seq<char>) -> Option<TableType> {
    if name == table_name(TableType::Primitive) {
        Some(TableType::Primitive)
    } else if name == table_name(TableType::Iterable) {
        Some(TableType::Iterable)
    } else if name == table_name(TableType::Kv) {
        Some(TableType::Kv)
    } else if name == table_name(TableType::Gbk) {
        Some(TableType::Gbk)
    } else {
        None
    }
}

impl TableType {
    /// The name of the kind.
    pub fn as_str(self) -> (r: &'static str)
        ensures
            r@ == table_name(self),
    {
        match self {
            TableType::Primitive => "primitive",
            TableType::Iterable => "iterable",
            TableType::Kv => "kv",
            TableType::Gbk => "gbk",
        }
    }

    /// The kind of that name.
    pub fn from_str(value: &str) -> (r: Result<TableType, ElementStoreError>)
        ensures
            match r {
                Ok(t) => table_named(value@) == Some(t),
                Err(e) => {
                    &&& table_named(value@) is None
                    &&& e matches ElementStoreError::InvalidData(m)
                    &&& m@ == "unknown table type: "@ + value@
                },
            },
    {
        if same_text(value, "primitive") {
            Ok(TableType::Primitive)
        } else if same_text(value, "iterable") {
            Ok(TableType::Iterable)
        } else if same_text(value, "kv") {
            Ok(TableType::Kv)
        } else if same_text(value, "gbk") {
            Ok(TableType::Gbk)
        } else {
            Err(ElementStoreError::InvalidData(join2("unknown table type: ", value)))
        }
    }
}

/// The name of a kind is read back as that kind, and no other text is.
pub proof fn table_type_round_trip(t: TableType, name: Seq<char>)
    ensures
        table_named(table_name(t)) == Some(t),
        table_named(name) == Some(t) ==> name == table_name(t),
{
    table_names_differ(t, TableType::Primitive);
    table_names_differ(t, TableType::Iterable);
    table_names_differ(t, TableType::Kv);
    table_names_differ(t, TableType::Gbk);
}

/// How the records of a collection are laid out in a table.
#[derive(Debug, Clone, PartialEq, Eq)]
pub struct RecordTableSchema {
    pub table_type: TableType,
    pub arrow_schema: TableSchema,
}

/// A layout as mathematics sees it.
#[verifier::ext_equal]
pub struct LayoutV {
    pub table_type: TableType,
    pub fields: Seq<FieldV>,
}

impl RecordTableSchema {
    pub open spec fn model(self) -> LayoutV {
        LayoutV { table_type: self.table_type, fields: self.arrow_schema.model() }
    }
}

// The types of values.

/// The type of column that a value belongs in.
pub open spec fn primitive_type(p: PrimitiveV) -> TypeV {
    match p {
        PrimitiveV::String(_) => TypeV::Utf8,
        PrimitiveV::Bytes(_) => TypeV::Binary,
        PrimitiveV::Int64(_) => TypeV::Int64,
        PrimitiveV::Float64(_) => TypeV::Float64,
        PrimitiveV::Bool(_) => TypeV::Boolean,
        PrimitiveV::Void => TypeV::Null,
    }
}

/// Whether a record is a primitive value of that type.
pub open spec fn is_primitive_of(r: RecordV, t: TypeV) -> bool {
    r matches RecordV::Primitive(p) && primitive_type(p) == t
}

/// Whether all values belong in a column of that type.
pub open spec fn all_of(values: Seq<PrimitiveV>, t: TypeV) -> bool {
    forall|i: int| 0 <= i < values.len() ==> primitive_type(#[trigger] values[i]) == t
}

/// Whether all items are primitive values of that type.
pub open spec fn items_of(list: Seq<RecordV>, t: TypeV) -> bool {
    forall|i: int| 0 <= i < list.len() ==> is_primitive_of(#[trigger] list[i], t)
}

/// The type of column that a value belongs in.
pub fn primitive_data_type(value: &PrimitiveValue) -> (r: DataType)
    ensures
        type_model(r) == primitive_type(value.model()),
{
    match value {
        PrimitiveValue::String(_) => DataType::Utf8,
        PrimitiveValue::Bytes(_) => DataType::Binary,
        PrimitiveValue::Int64(_) => DataType::Int64,
        PrimitiveValue::Float64(_) => DataType::Float64,
        PrimitiveValue::Bool(_) => DataType::Boolean,
        PrimitiveValue::Void => DataType::Null,
    }
}

/// Whether a value belongs in a column of that type.
pub fn primitive_type_matches(value: &PrimitiveValue, data_type: &DataType) -> (r: bool)
    ensures
        r == (primitive_type(value.model()) == type_model(*data_type)),
{
    primitive_data_type(value).same(data_type)
}

/// Whether a record is a primitive value of that type.
pub fn record_type_matches(record: &BeamRecord, data_type: &DataType) -> (r: bool)
    ensures
        r == is_primitive_of(record_model(*record), type_model(*data_type)),
{
    match record {
        BeamRecord::PRIMITIVE(p) => primitive_type_matches(p, data_type),
        _ => false,
    }
}

/// The items of a record that holds a list.
pub open spec fn items_in(r: RecordV) -> Seq<RecordV> {
    match r {
        RecordV::Iterable(list) => list,
        RecordV::Gbk(_, list) => list,
        _ => Seq::empty(),
    }
}

/// The key of a record that has one.
pub open spec fn key_in(r: RecordV) -> PrimitiveV {
    match r {
        RecordV::Kv(key, _) => key,
        RecordV::Gbk(key, _) => key,
        _ => PrimitiveV::Void,
    }
}

/// The value of a record that holds a single one.
pub open spec fn value_in(r: RecordV) -> RecordV {
    match r {
        RecordV::Kv(_, value) => *value,
        _ => r,
    }
}

/// The type of the first item that some record holds; without any it is that of
/// nothing.
pub open spec fn item_type_from(records: Seq<RecordV>, i: int) -> TypeV
    decreases records.len() - i,
{
    if i < 0 || i >= records.len() {
        TypeV::Null
    } else if items_in(records[i]).len() > 0 {
        match items_in(records[i])[0] {
            RecordV::Primitive(p) => primitive_type(p),
            _ => TypeV::Null,
        }
    } else {
        item_type_from(records, i + 1)
    }
}

/// The type of the items that some records hold.
pub open spec fn item_type(records: Seq<RecordV>) -> TypeV {
    item_type_from(records, 0)
}

/// A column of lists of such items.
pub open spec fn lists_of(t: TypeV) -> TypeV {
    TypeV::List(Box::new(t), t == TypeV::Null)
}

/// The items of a record that holds a list.
fn list_of(record: &BeamRecord) -> (r: Option<&IterableValue>)
    ensures
        match r {
            Some(list) => records_model(list.list@) == items_in(record_model(*record)) && (
            record_model(*record) is Iterable || record_model(*record) is Gbk),
            None => items_in(record_model(*record)) == Seq::<RecordV>::empty() && !(record_model(
                *record,
            ) is Iterable) && !(record_model(*record) is Gbk),
        },
{
    match record {
        BeamRecord::ITERABLE(list) => Some(list),
        BeamRecord::GBK(gbk) => Some(&gbk.value),
        _ => None,
    }
}

/// The type of the items that some records hold.
pub fn infer_iterable_item_data_type(records: &Vec<BeamRecord>) -> (r: DataType)
    ensures
        type_model(r) == item_type(records_model(records@)),
{
    let n: usize = records.len();
    let ghost model = records_model(records@);
    let mut i: usize = 0;
    while i < n
        invariant
            n == records@.len(),
            model == records_model(records@),
            i <= n,
            item_type(model) == item_type_from(model, i as int),
        decreases n - i,
    {
        assert(model[i as int] == record_model(records@[i as int]));
        match list_of(&records[i]) {
            Some(list) => {
                if list.list.len() > 0 {
                    assert(records_model(list.list@)[0] == record_model(list.list@[0]));
                    return match &list.list[0] {
                        BeamRecord::PRIMITIVE(p) => primitive_data_type(p),
                        _ => DataType::Null,
                    };
                }
            },
            None => {},
        }
        i = i + 1;
    }
    DataType::Null
}

// Deriving a layout.

/// Whether a record is a key and a primitive value of these types.
pub open spec fn is_kv_of(r: RecordV, key: TypeV, value: TypeV) -> bool {
    r is Kv && primitive_type(key_in(r)) == key && is_primitive_of(value_in(r), value)
}

/// Whether a record is a key of that type and a list.
pub open spec fn is_gbk_of(r: RecordV, key: TypeV) -> bool {
    r is Gbk && primitive_type(key_in(r)) == key
}

/// Whether the items of all records are primitive values of that type.
pub open spec fn all_items_of(records: Seq<RecordV>, t: TypeV) -> bool {
    forall|i: int| 0 <= i < records.len() ==> items_of(items_in(#[trigger] records[i]), t)
}

/// Whether all records are primitive values of that type.
pub open spec fn all_primitives(records: Seq<RecordV>, t: TypeV) -> bool {
    forall|i: int| 0 <= i < records.len() ==> is_primitive_of(#[trigger] records[i], t)
}

/// Whether all records are lists.
pub open spec fn all_iterables(records: Seq<RecordV>) -> bool {
    forall|i: int| 0 <= i < records.len() ==> (#[trigger] records[i]) is Iterable
}

/// Whether all records are a key and a primitive value of these types.
pub open spec fn all_kvs(records: Seq<RecordV>, key: TypeV, value: TypeV) -> bool {
    forall|i: int| 0 <= i < records.len() ==> is_kv_of(#[trigger] records[i], key, value)
}

/// Whether all records are a key of that type and a list.
pub open spec fn all_gbks(records: Seq<RecordV>, key: TypeV) -> bool {
    forall|i: int| 0 <= i < records.len() ==> is_gbk_of(#[trigger] records[i], key)
}

/// The type of a primitive record; that of nothing for another.
pub open spec fn type_of_record(r: RecordV) -> TypeV {
    match r {
        RecordV::Primitive(p) => primitive_type(p),
        _ => TypeV::Null,
    }
}

/// The `key` column of a layout.
pub open spec fn key_field(t: TypeV) -> FieldV {
    FieldV { name: KEY_COLUMN@, data_type: t, nullable: false }
}

/// The `value` column of a layout.
pub open spec fn value_field(t: TypeV) -> FieldV {
    FieldV { name: VALUE_COLUMN@, data_type: t, nullable: t is List }
}

/// The layout of some records: all of them are of the kind of the first, and
/// each of their parts is of one type.
pub open spec fn layout_of(records: Seq<RecordV>) -> Option<LayoutV> {
    if records.len() == 0 {
        None
    } else {
        match records[0] {
            RecordV::Primitive(p) => if all_primitives(records, primitive_type(p)) {
                Some(
                    LayoutV {
                        table_type: TableType::Primitive,
                        fields: seq![value_field(primitive_type(p))],
                    },
                )
            } else {
                None
            },
            RecordV::Iterable(_) => if all_iterables(records) && all_items_of(
                records,
                item_type(records),
            ) {
                Some(
                    LayoutV {
                        table_type: TableType::Iterable,
                        fields: seq![value_field(lists_of(item_type(records)))],
                    },
                )
            } else {
                None
            },
            RecordV::Kv(key, value) => if all_kvs(
                records,
                primitive_type(key),
                type_of_record(*value),
            ) {
                Some(
                    LayoutV {
                        table_type: TableType::Kv,
                        fields: seq![
                            key_field(primitive_type(key)),
                            value_field(type_of_record(*value)),
                        ],
                    },
                )
            } else {
                None
            },
            RecordV::Gbk(key, _) => if all_gbks(records, primitive_type(key)) && all_items_of(
                records,
                item_type(records),
            ) {
                Some(
                    LayoutV {
                        table_type: TableType::Gbk,
                        fields: seq![
                            key_field(primitive_type(key)),
                            value_field(lists_of(item_type(records))),
                        ],
                    },
                )
            } else {
                None
            },
            RecordV::Tuple(_) => None,
        }
    }
}

// Why records have no layout.

/// What a type is shown as: that of lists, as Arrow shows a list whose items are the field
/// `item`.
pub open spec fn name_of_type(t: TypeV) -> Seq<char>
    decreases t,
{
    match t {
        TypeV::Utf8 => "Utf8"@,
        TypeV::Binary => "Binary"@,
        TypeV::Int64 => "Int64"@,
        TypeV::Float64 => "Float64"@,
        TypeV::Boolean => "Boolean"@,
        TypeV::Null => "Null"@,
        TypeV::List(item, nullable) => "List(Field { data_type: "@ + name_of_type(*item) + (
        if nullable {
            ", nullable: true })"@
        } else {
            " })"@
        }),
        TypeV::Other(name) => name,
    }
}

/// The name of the type of a record.
pub open spec fn record_name(r: RecordV) -> Seq<char> {
    match r {
        RecordV::Primitive(p) => name_of_type(primitive_type(p)),
        _ => "a record with parts"@,
    }
}

/// What is said of a collection that holds more than one kind of record.
pub open spec fn variants_text(pcol: Seq<char>, expected: Seq<char>) -> Seq<char> {
    "mixed BeamRecord variants in pcollection "@ + pcol + ": expected "@ + expected
}

/// What is said of a collection whose values are of more than one type.
pub open spec fn types_text(
    what: Seq<char>,
    pcol: Seq<char>,
    expected: TypeV,
    found: Seq<char>,
) -> Seq<char> {
    what + " in pcollection "@ + pcol + ": expected "@ + name_of_type(expected) + ", found "@ + found
}

/// What is said of a record that is not of the kind of the first, or whose key or
/// primitive value is not of the type of the first.
pub open spec fn kind_complaint(first: RecordV, pcol: Seq<char>, r: RecordV) -> Option<Seq<char>> {
    match first {
        RecordV::Primitive(p) => match r {
            RecordV::Primitive(v) => if primitive_type(v) == primitive_type(p) {
                None
            } else {
                Some(
                    types_text("mixed primitive types"@, pcol, primitive_type(p), record_name(r)),
                )
            },
            _ => Some(variants_text(pcol, "primitive"@)),
        },
        RecordV::Iterable(_) => match r {
            RecordV::Iterable(_) => None,
            _ => Some(variants_text(pcol, "iterable"@)),
        },
        RecordV::Kv(key, value) => match r {
            RecordV::Kv(k, v) => if primitive_type(k) != primitive_type(key) {
                Some(
                    types_text(
                        "mixed KV key types"@,
                        pcol,
                        primitive_type(key),
                        name_of_type(primitive_type(k)),
                    ),
                )
            } else if !is_primitive_of(*v, type_of_record(*value)) {
                Some(
                    types_text(
                        "mixed KV value types"@,
                        pcol,
                        type_of_record(*value),
                        record_name(*v),
                    ),
                )
            } else {
                None
            },
            _ => Some(variants_text(pcol, "kv"@)),
        },
        RecordV::Gbk(key, _) => match r {
            RecordV::Gbk(k, _) => if primitive_type(k) == primitive_type(key) {
                None
            } else {
                Some(
                    types_text(
                        "mixed GBK key types"@,
                        pcol,
                        primitive_type(key),
                        name_of_type(primitive_type(k)),
                    ),
                )
            },
            _ => Some(variants_text(pcol, "gbk"@)),
        },
        RecordV::Tuple(_) => Some(variants_text(pcol, "no tuple"@)),
    }
}

/// What is said of an item of a list that is no primitive value of the type.
pub open spec fn item_complaint(t: TypeV, pcol: Seq<char>, item: RecordV) -> Option<Seq<char>> {
    if is_primitive_of(item, t) {
        None
    } else {
        Some(types_text("mixed iterable item types"@, pcol, t, record_name(item)))
    }
}

/// What is said of the first record of which something is.
pub open spec fn first_complaint(
    records: Seq<RecordV>,
    of: spec_fn(RecordV) -> Option<Seq<char>>,
) -> Option<Seq<char>>
    decreases records.len(),
{
    if records.len() == 0 {
        None
    } else {
        match of(records[0]) {
            Some(m) => Some(m),
            None => first_complaint(records.skip(1), of),
        }
    }
}

/// What is said of the first item in the list of a record.
pub open spec fn items_complaint(t: TypeV, pcol: Seq<char>, r: RecordV) -> Option<Seq<char>> {
    first_complaint(items_in(r), |item: RecordV| item_complaint(t, pcol, item))
}

/// Why some records have no layout: first each is held to the kind of the first, then
/// the items of lists to one type.
pub open spec fn layout_refusal(pcol: Seq<char>, records: Seq<RecordV>) -> Option<Seq<char>> {
    if records.len() == 0 {
        Some("cannot derive schema for empty pcollection "@ + pcol)
    } else {
        match first_complaint(records, |r: RecordV| kind_complaint(records[0], pcol, r)) {
            Some(m) => Some(m),
            None => if records[0] is Iterable || records[0] is Gbk {
                first_complaint(
                    records,
                    |r: RecordV| items_complaint(item_type(records), pcol, r),
                )
            } else {
                None
            },
        }
    }
}

/// The first complaint is that of the record before which there is none.
proof fn complaint_at(
    records: Seq<RecordV>,
    of: spec_fn(RecordV) -> Option<Seq<char>>,
    i: int,
)
    requires
        0 <= i < records.len(),
        forall|j: int| 0 <= j < i ==> of(#[trigger] records[j]) is None,
        of(records[i]) is Some,
    ensures
        first_complaint(records, of) == of(records[i]),
    decreases i,
{
    if i > 0 {
        assert(of(records[0]) is None);
        assert forall|j: int| 0 <= j < i - 1 implies of(#[trigger] records.skip(1)[j]) is None by {
            assert(records.skip(1)[j] == records[j + 1]);
        }
        complaint_at(records.skip(1), of, i - 1);
    }
}

/// Where nothing is said of any record, there is no complaint.
proof fn no_complaint(records: Seq<RecordV>, of: spec_fn(RecordV) -> Option<Seq<char>>)
    requires
        forall|j: int| 0 <= j < records.len() ==> of(#[trigger] records[j]) is None,
    ensures
        first_complaint(records, of) is None,
    decreases records.len(),
{
    if records.len() > 0 {
        assert forall|j: int| 0 <= j < records.len() - 1 implies of(
            #[trigger] records.skip(1)[j],
        ) is None by {
            assert(records.skip(1)[j] == records[j + 1]);
        }
        no_complaint(records.skip(1), of);
    }
}

/// What a type is shown as.
pub fn shown_type(t: &DataType) -> (r: String)
    ensures
        r@ == name_of_type(type_model(*t)),
    decreases t,
{
    match t {
        DataType::Utf8 => "Utf8".to_owned(),
        DataType::Binary => "Binary".to_owned(),
        DataType::Int64 => "Int64".to_owned(),
        DataType::Float64 => "Float64".to_owned(),
        DataType::Boolean => "Boolean".to_owned(),
        DataType::Null => "Null".to_owned(),
        DataType::List(item, nullable) => {
            let item = shown_type(item);
            let end = if *nullable {
                ", nullable: true })"
            } else {
                " })"
            };
            join3("List(Field { data_type: ", item.as_str(), end)
        },
        DataType::Other(name) => name.clone(),
    }
}

/// The name of the type of a record.
pub fn shown_record(record: &BeamRecord) -> (r: String)
    ensures
        r@ == record_name(record_model(*record)),
{
    match record {
        BeamRecord::PRIMITIVE(p) => shown_type(&primitive_data_type(p)),
        _ => "a record with parts".to_owned(),
    }
}

/// What is said of a collection that holds more than one kind of record.
fn mixed_variants(pcollection_id: &str, expected: &str) -> (r: ElementStoreError)
    ensures
        r matches ElementStoreError::Schema(m) && m@ == variants_text(pcollection_id@, expected@),
{
    let start = join3("mixed BeamRecord variants in pcollection ", pcollection_id, ": expected ");
    ElementStoreError::Schema(join2(start.as_str(), expected))
}

/// What is said of a collection whose values are of more than one type.
fn mixed_types(what: &str, pcollection_id: &str, expected: &DataType, found: &str) -> (r:
    ElementStoreError)
    ensures
        r matches ElementStoreError::Schema(m) && m@ == types_text(
            what@,
            pcollection_id@,
            type_model(*expected),
            found@,
        ),
{
    let start = join3(what, " in pcollection ", pcollection_id);
    let expected = shown_type(expected);
    let middle = join3(start.as_str(), ": expected ", expected.as_str());
    ElementStoreError::Schema(join3(middle.as_str(), ", found ", found))
}

/// Whether the outcome is an error with that text, or none where there is no text.
pub open spec fn says(r: Result<(), ElementStoreError>, text: Option<Seq<char>>) -> bool {
    match r {
        Ok(_) => text is None,
        Err(e) => e matches ElementStoreError::Schema(m) && text == Some(m@),
    }
}

/// Holds every record to a primitive value of the type.
fn validate_primitives(
    pcollection_id: &str,
    records: &Vec<BeamRecord>,
    data_type: &DataType,
) -> (r: Result<(), ElementStoreError>)
    requires
        records@.len() > 0,
        is_primitive_of(record_model(records@[0]), type_model(*data_type)),
    ensures
        r is Ok == all_primitives(records_model(records@), type_model(*data_type)),
        says(
            r,
            first_complaint(
                records_model(records@),
                |x: RecordV| kind_complaint(record_model(records@[0]), pcollection_id@, x),
            ),
        ),
{
    let n: usize = records.len();
    let ghost model = records_model(records@);
    let ghost of = |x: RecordV| kind_complaint(record_model(records@[0]), pcollection_id@, x);
    let mut i: usize = 0;
    while i < n
        invariant
            n == records@.len(),
            model == records_model(records@),
            i <= n,
            of == |x: RecordV| kind_complaint(record_model(records@[0]), pcollection_id@, x),
            n > 0,
            is_primitive_of(record_model(records@[0]), type_model(*data_type)),
            forall|j: int| 0 <= j < i ==> of(#[trigger] model[j]) is None,
            forall|j: int|
                0 <= j < i ==> is_primitive_of(#[trigger] model[j], type_model(*data_type)),
        decreases n - i,
    {
        assert(model[i as int] == record_model(records@[i as int]));
        match &records[i] {
            BeamRecord::PRIMITIVE(value) => {
                if !primitive_type_matches(value, data_type) {
                    let e = mixed_types(
                        "mixed primitive types",
                        pcollection_id,
                        data_type,
                        shown_type(&primitive_data_type(value)).as_str(),
                    );
                    proof {
                        complaint_at(model, of, i as int);
                    }
                    return Err(e);
                }
            },
            _ => {
                let e = mixed_variants(pcollection_id, "primitive");
                proof {
                    complaint_at(model, of, i as int);
                }
                return Err(e);
            },
        }
        i = i + 1;
    }
    proof {
        no_complaint(model, of);
    }
    Ok(())
}

/// Holds every record to a list.
fn validate_iterables(pcollection_id: &str, records: &Vec<BeamRecord>) -> (r: Result<
    (),
    ElementStoreError,
>)
    requires
        records@.len() > 0,
        record_model(records@[0]) is Iterable,
    ensures
        r is Ok == all_iterables(records_model(records@)),
        says(
            r,
            first_complaint(
                records_model(records@),
                |x: RecordV| kind_complaint(record_model(records@[0]), pcollection_id@, x),
            ),
        ),
{
    let n: usize = records.len();
    let ghost model = records_model(records@);
    let ghost of = |x: RecordV| kind_complaint(record_model(records@[0]), pcollection_id@, x);
    let mut i: usize = 0;
    while i < n
        invariant
            n == records@.len(),
            model == records_model(records@),
            i <= n,
            of == |x: RecordV| kind_complaint(record_model(records@[0]), pcollection_id@, x),
            n > 0,
            record_model(records@[0]) is Iterable,
            forall|j: int| 0 <= j < i ==> of(#[trigger] model[j]) is None,
            forall|j: int| 0 <= j < i ==> (#[trigger] model[j]) is Iterable,
        decreases n - i,
    {
        assert(model[i as int] == record_model(records@[i as int]));
        match &records[i] {
            BeamRecord::ITERABLE(_) => {},
            _ => {
                let e = mixed_variants(pcollection_id, "iterable");
                proof {
                    complaint_at(model, of, i as int);
                }
                return Err(e);
            },
        }
        i = i + 1;
    }
    proof {
        no_complaint(model, of);
    }
    Ok(())
}

/// Holds every record to a key and a primitive value of the types.
fn validate_kvs(
    pcollection_id: &str,
    records: &Vec<BeamRecord>,
    key_type: &DataType,
    value_type: &DataType,
) -> (r: Result<(), ElementStoreError>)
    requires
        records@.len() > 0,
        record_model(records@[0]) is Kv,
        primitive_type(key_in(record_model(records@[0]))) == type_model(*key_type),
        type_of_record(value_in(record_model(records@[0]))) == type_model(*value_type),
    ensures
        r is Ok == all_kvs(
            records_model(records@),
            type_model(*key_type),
            type_model(*value_type),
        ),
        says(
            r,
            first_complaint(
                records_model(records@),
                |x: RecordV| kind_complaint(record_model(records@[0]), pcollection_id@, x),
            ),
        ),
{
    let n: usize = records.len();
    let ghost model = records_model(records@);
    let ghost of = |x: RecordV| kind_complaint(record_model(records@[0]), pcollection_id@, x);
    let mut i: usize = 0;
    while i < n
        invariant
            n == records@.len(),
            model == records_model(records@),
            i <= n,
            of == |x: RecordV| kind_complaint(record_model(records@[0]), pcollection_id@, x),
            n > 0,
            record_model(records@[0]) is Kv,
            primitive_type(key_in(record_model(records@[0]))) == type_model(*key_type),
            type_of_record(value_in(record_model(records@[0]))) == type_model(*value_type),
            forall|j: int| 0 <= j < i ==> of(#[trigger] model[j]) is None,
            forall|j: int|
                0 <= j < i ==> is_kv_of(
                    #[trigger] model[j],
                    type_model(*key_type),
                    type_model(*value_type),
                ),
        decreases n - i,
    {
        assert(model[i as int] == record_model(records@[i as int]));
        match &records[i] {
            BeamRecord::KV(kv) => {
                if !primitive_type_matches(&kv.key, key_type) {
                    let e = mixed_types(
                        "mixed KV key types",
                        pcollection_id,
                        key_type,
                        shown_type(&primitive_data_type(&kv.key)).as_str(),
                    );
                    proof {
                        complaint_at(model, of, i as int);
                    }
                    return Err(e);
                }
                if !record_type_matches(&kv.value, value_type) {
                    let e = mixed_types(
                        "mixed KV value types",
                        pcollection_id,
                        value_type,
                        shown_record(&kv.value).as_str(),
                    );
                    proof {
                        complaint_at(model, of, i as int);
                    }
                    return Err(e);
                }
            },
            _ => {
                let e = mixed_variants(pcollection_id, "kv");
                proof {
                    complaint_at(model, of, i as int);
                }
                return Err(e);
            },
        }
        i = i + 1;
    }
    proof {
        no_complaint(model, of);
    }
    Ok(())
}

/// Holds every record to a key of the type and a list.
fn validate_gbks(pcollection_id: &str, records: &Vec<BeamRecord>, key_type: &DataType) -> (r:
    Result<(), ElementStoreError>)
    requires
        records@.len() > 0,
        is_gbk_of(record_model(records@[0]), type_model(*key_type)),
    ensures
        r is Ok == all_gbks(records_model(records@), type_model(*key_type)),
        says(
            r,
            first_complaint(
                records_model(records@),
                |x: RecordV| kind_complaint(record_model(records@[0]), pcollection_id@, x),
            ),
        ),
{
    let n: usize = records.len();
    let ghost model = records_model(records@);
    let ghost of = |x: RecordV| kind_complaint(record_model(records@[0]), pcollection_id@, x);
    let mut i: usize = 0;
    while i < n
        invariant
            n == records@.len(),
            model == records_model(records@),
            i <= n,
            of == |x: RecordV| kind_complaint(record_model(records@[0]), pcollection_id@, x),
            n > 0,
            is_gbk_of(record_model(records@[0]), type_model(*key_type)),
            forall|j: int| 0 <= j < i ==> of(#[trigger] model[j]) is None,
            forall|j: int|
                0 <= j < i ==> is_gbk_of(#[trigger] model[j], type_model(*key_type)),
        decreases n - i,
    {
        assert(model[i as int] == record_model(records@[i as int]));
        match &records[i] {
            BeamRecord::GBK(gbk) => {
                if !primitive_type_matches(&gbk.key, key_type) {
                    let e = mixed_types(
                        "mixed GBK key types",
                        pcollection_id,
                        key_type,
                        shown_type(&primitive_data_type(&gbk.key)).as_str(),
                    );
                    proof {
                        complaint_at(model, of, i as int);
                    }
                    return Err(e);
                }
            },
            _ => {
                let e = mixed_variants(pcollection_id, "gbk");
                proof {
                    complaint_at(model, of, i as int);
                }
                return Err(e);
            },
        }
        i = i + 1;
    }
    proof {
        no_complaint(model, of);
    }
    Ok(())
}

/// What is said of the first item of a list that is no primitive value of the type.
fn other_item(pcollection_id: &str, list: &IterableValue, data_type: &DataType) -> (r: Option<
    ElementStoreError,
>)
    ensures
        r is None == items_of(records_model(list.list@), type_model(*data_type)),
        first_complaint(
            records_model(list.list@),
            |x: RecordV| item_complaint(type_model(*data_type), pcollection_id@, x),
        ) == match r {
            Some(e) => Some(e->Schema_0@),
            None => None,
        },
        r matches Some(e) ==> e is Schema,
{
    let n: usize = list.list.len();
    let ghost model = records_model(list.list@);
    let ghost of = |x: RecordV| item_complaint(type_model(*data_type), pcollection_id@, x);
    let mut i: usize = 0;
    while i < n
        invariant
            n == list.list@.len(),
            model == records_model(list.list@),
            i <= n,
            of == |x: RecordV| item_complaint(type_model(*data_type), pcollection_id@, x),
            forall|j: int|
                0 <= j < i ==> is_primitive_of(#[trigger] model[j], type_model(*data_type)),
        decreases n - i,
    {
        assert(model[i as int] == record_model(list.list@[i as int]));
        if !record_type_matches(&list.list[i], data_type) {
            let found = shown_record(&list.list[i]);
            proof {
                complaint_at(model, of, i as int);
            }
            return Some(
                mixed_types("mixed iterable item types", pcollection_id, data_type, found.as_str()),
            );
        }
        i = i + 1;
    }
    proof {
        no_complaint(model, of);
    }
    None
}

/// Holds the items of every record to primitive values of the type.
pub fn validate_iterable_item_types(
    pcollection_id: &str,
    records: &Vec<BeamRecord>,
    item_data_type: &DataType,
) -> (r: Result<(), ElementStoreError>)
    ensures
        r is Ok == all_items_of(records_model(records@), type_model(*item_data_type)),
        says(
            r,
            first_complaint(
                records_model(records@),
                |x: RecordV| items_complaint(type_model(*item_data_type), pcollection_id@, x),
            ),
        ),
{
    let n: usize = records.len();
    let ghost model = records_model(records@);
    let ghost of = |x: RecordV| items_complaint(type_model(*item_data_type), pcollection_id@, x);
    let mut i: usize = 0;
    while i < n
        invariant
            n == records@.len(),
            model == records_model(records@),
            i <= n,
            of == |x: RecordV| items_complaint(type_model(*item_data_type), pcollection_id@, x),
            forall|j: int| 0 <= j < i ==> of(#[trigger] model[j]) is None,
            forall|j: int|
                0 <= j < i ==> items_of(
                    items_in(#[trigger] model[j]),
                    type_model(*item_data_type),
                ),
        decreases n - i,
    {
        assert(model[i as int] == record_model(records@[i as int]));
        match list_of(&records[i]) {
            Some(list) => {
                match other_item(pcollection_id, list, item_data_type) {
                    Some(e) => {
                        proof {
                            complaint_at(model, of, i as int);
                        }
                        return Err(e);
                    },
                    None => {},
                }
            },
            None => {},
        }
        i = i + 1;
    }
    proof {
        no_complaint(model, of);
    }
    Ok(())
}

/// A column of lists of such items.
fn list_type(item: DataType) -> (r: DataType)
    ensures
        type_model(r) == lists_of(type_model(item)),
{
    let nullable = item.is_null();
    DataType::List(Box::new(item), nullable)
}

/// A layout of a `value` column only.
fn value_layout(table_type: TableType, value: DataType) -> (r: RecordTableSchema)
    ensures
        r.model() == (LayoutV { table_type, fields: seq![value_field(type_model(value))] }),
{
    let nullable = match &value {
        DataType::List(_, _) => true,
        _ => false,
    };
    let mut fields: Vec<TableField> = Vec::new();
    fields.push(TableField::new(VALUE_COLUMN, value, nullable));
    let r = RecordTableSchema { table_type, arrow_schema: TableSchema { fields } };
    assert(r.model().fields =~= seq![value_field(type_model(value))]);
    r
}

/// A layout of a `key` and a `value` column.
fn keyed_layout(table_type: TableType, key: DataType, value: DataType) -> (r: RecordTableSchema)
    ensures
        r.model() == (LayoutV {
            table_type,
            fields: seq![key_field(type_model(key)), value_field(type_model(value))],
        }),
{
    let nullable = match &value {
        DataType::List(_, _) => true,
        _ => false,
    };
    let mut fields: Vec<TableField> = Vec::new();
    fields.push(TableField::new(KEY_COLUMN, key, false));
    fields.push(TableField::new(VALUE_COLUMN, value, nullable));
    let r = RecordTableSchema { table_type, arrow_schema: TableSchema { fields } };
    assert(r.model().fields =~= seq![key_field(type_model(key)), value_field(type_model(value))]);
    r
}

/// Derives the layout of a collection from its records.
pub fn derive_table_schema(pcollection_id: &str, records: &Vec<BeamRecord>) -> (r: Result<
    RecordTableSchema,
    ElementStoreError,
>)
    ensures
        match r {
            Ok(schema) => layout_of(records_model(records@)) == Some(schema.model())
                && layout_refusal(pcollection_id@, records_model(records@)) is None,
            Err(e) => {
                &&& layout_of(records_model(records@)) is None
                &&& e matches ElementStoreError::Schema(m)
                &&& layout_refusal(pcollection_id@, records_model(records@)) == Some(m@)
            },
        },
{
    if records.len() == 0 {
        return Err(
            ElementStoreError::Schema(
                join2("cannot derive schema for empty pcollection ", pcollection_id),
            ),
        );
    }
    let ghost model = records_model(records@);
    assert(model[0] == record_model(records@[0]));
    match &records[0] {
        BeamRecord::PRIMITIVE(first) => {
            let data_type = primitive_data_type(first);
            match validate_primitives(pcollection_id, records, &data_type) {
                Ok(()) => {
                    let r = value_layout(TableType::Primitive, data_type);
                    assert(layout_of(model) == Some(r.model()));
                    Ok(r)
                },
                Err(e) => Err(e),
            }
        },
        BeamRecord::ITERABLE(_) => {
            match validate_iterables(pcollection_id, records) {
                Ok(()) => {},
                Err(e) => {
                    return Err(e);
                },
            }
            let item = infer_iterable_item_data_type(records);
            match validate_iterable_item_types(pcollection_id, records, &item) {
                Ok(()) => {
                    let r = value_layout(TableType::Iterable, list_type(item));
                    assert(layout_of(model) == Some(r.model()));
                    Ok(r)
                },
                Err(e) => Err(e),
            }
        },
        BeamRecord::KV(first) => {
            let key_type = primitive_data_type(&first.key);
            let value_type = match &*first.value {
                BeamRecord::PRIMITIVE(value) => primitive_data_type(value),
                _ => DataType::Null,
            };
            assert(type_model(value_type) == type_of_record(record_model(*first.value)));
            match validate_kvs(pcollection_id, records, &key_type, &value_type) {
                Ok(()) => {
                    let r = keyed_layout(TableType::Kv, key_type, value_type);
                    assert(layout_of(model) == Some(r.model()));
                    Ok(r)
                },
                Err(e) => Err(e),
            }
        },
        BeamRecord::GBK(first) => {
            let key_type = primitive_data_type(&first.key);
            match validate_gbks(pcollection_id, records, &key_type) {
                Ok(()) => {},
                Err(e) => {
                    return Err(e);
                },
            }
            let item = infer_iterable_item_data_type(records);
            match validate_iterable_item_types(pcollection_id, records, &item) {
                Ok(()) => {
                    let r = keyed_layout(TableType::Gbk, key_type, list_type(item));
                    assert(layout_of(model) == Some(r.model()));
                    Ok(r)
                },
                Err(e) => Err(e),
            }
        },
        BeamRecord::TUPLE(_) => Err(mixed_variants(pcollection_id, "no tuple")),
    }
}

} // verus!
