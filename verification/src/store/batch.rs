//! Batches of rows: records written as columns, and read back.
use crate::store::columns::{
    columns_fit, field_named, holds_primitives, type_model, Cells, Column, DataType, FieldV,
    ListColumn, RecordBatch, TypeV,
};
use crate::store::record::{
    primitives_model, record_model, records_model, BeamGbk, BeamKV, BeamRecord, IterableValue,
    PrimitiveV, PrimitiveValue, RecordV,
};
use crate::store::table::{
    all_kvs, all_of, all_primitives, is_gbk_of, is_kv_of, is_primitive_of, item_type, items_in, items_of,
    key_field, key_in, layout_of, lists_of, name_of_type, primitive_type, record_name,
    record_type_matches, shown_record, shown_type, type_of_record, value_field, value_in, LayoutV, RecordTableSchema, TableType,
};
use crate::store::{KEY_COLUMN, VALUE_COLUMN};
use crate::text::{join2, join3};
use crate::utils::errors::ElementStoreError;
use vstd::prelude::*;
use vstd::string::*;

verus! {

/// Why records do not make a batch.
pub enum BatchFault {
    Empty,
    /// There is no column of that name.
    MissingColumn(Seq<char>),
    NotAList(TableType),
    WrongRecord(TableType),
    Unsupported(TypeV),
    /// The first that is not of the type, and the type.
    Mixed(TypeV, RecordV),
    /// Lists of these lengths come to more items than an offset can say.
    Overflow(Seq<nat>),
    Layout,
}

/// The `Debug` form of a primitive value.
pub uninterp spec fn primitive_debug(v: PrimitiveV) -> Seq<char>;

/// The `Debug` form of a value, from `format!`. It is the same for the same value; how
/// it looks is not told.
#[verifier::external_body]
fn shown_value(value: &PrimitiveValue) -> (r: String)
    ensures
        r@ == primitive_debug(value.model()),
{
    format!("{:?}", value)
}

/// What a record is shown as that is not of the type it should be of.
pub open spec fn found_text(r: RecordV) -> Seq<char> {
    match r {
        RecordV::Primitive(p) => primitive_debug(p),
        _ => record_name(r),
    }
}

/// What is said of a value of another type.
pub open spec fn mixed_text(t: TypeV, found: RecordV) -> Seq<char> {
    match t {
        TypeV::Null => "mixed primitive variants in batch: expected Void values"@,
        _ => "mixed primitive variants in batch: expected "@ + variant_name(t) + ", found "@
            + found_text(found),
    }
}

/// The name of the values that a column of the type holds.
pub open spec fn variant_name(t: TypeV) -> Seq<char> {
    match t {
        TypeV::Utf8 => "String"@,
        TypeV::Binary => "Bytes"@,
        TypeV::Boolean => "Bool"@,
        _ => name_of_type(t),
    }
}

/// What is said of a type that holds no primitive values.
fn unsupported(t: &DataType) -> (r: ElementStoreError)
    ensures
        reports(r, BatchFault::Unsupported(type_model(*t))),
{
    ElementStoreError::UnsupportedType(
        join2("unsupported primitive storage type: ", shown_type(t).as_str()),
    )
}

/// The error that reports a fault.
pub open spec fn reports(e: ElementStoreError, f: BatchFault) -> bool {
    match f {
        BatchFault::Empty => e matches ElementStoreError::InvalidData(m) && m@
            == "cannot build record batch from empty records"@,
        BatchFault::MissingColumn(name) => e matches ElementStoreError::MissingField(m) && m@
            == "missing "@ + name + " column"@,
        BatchFault::NotAList(t) => e matches ElementStoreError::Schema(m) && m@
            == crate::store::table::table_name(t) + " value field must be a List"@,
        BatchFault::WrongRecord(t) => e matches ElementStoreError::InvalidData(m) && m@
            == "expected "@ + crate::store::table::table_name(t) + " record"@,
        BatchFault::Unsupported(t) => e matches ElementStoreError::UnsupportedType(m) && m@
            == "unsupported primitive storage type: "@ + name_of_type(t),
        BatchFault::Mixed(t, found) => e matches ElementStoreError::InvalidData(m) && m@
            == mixed_text(t, found),
        BatchFault::Overflow(lengths) => e matches ElementStoreError::OffsetOverflow(m) && m@
            == overflow_text(lengths, 0),
        BatchFault::Layout => e matches ElementStoreError::Write(m) && m@
            == "failed to build record batch"@,
    }
}

/// The first value that is not of the type, if one is not.
pub open spec fn first_other(values: Seq<PrimitiveV>, t: TypeV) -> RecordV
    decreases values.len(),
{
    if values.len() <= 1 || primitive_type(values[0]) != t {
        RecordV::Primitive(values[0])
    } else {
        first_other(values.skip(1), t)
    }
}

/// The first item that is no primitive value of the type, if one is not.
pub open spec fn first_other_item(list: Seq<RecordV>, t: TypeV) -> RecordV
    decreases list.len(),
{
    if list.len() <= 1 || !is_primitive_of(list[0], t) {
        list[0]
    } else {
        first_other_item(list.skip(1), t)
    }
}

/// The same of the items of lists, one list behind the other.
pub open spec fn first_other_of_lists(lists: Seq<Seq<RecordV>>, t: TypeV) -> RecordV
    decreases lists.len(),
{
    if lists.len() <= 1 || !items_of(lists[0], t) {
        first_other_item(lists[0], t)
    } else {
        first_other_of_lists(lists.skip(1), t)
    }
}

proof fn other_at(values: Seq<PrimitiveV>, t: TypeV, i: int)
    requires
        0 <= i < values.len(),
        forall|j: int| 0 <= j < i ==> primitive_type(#[trigger] values[j]) == t,
        primitive_type(values[i]) != t,
    ensures
        first_other(values, t) == RecordV::Primitive(values[i]),
        !all_of(values, t),
    decreases i,
{
    if i > 0 {
        assert(primitive_type(values[0]) == t);
        assert forall|j: int| 0 <= j < i - 1 implies primitive_type(#[trigger] values.skip(1)[j])
            == t by {
            assert(values.skip(1)[j] == values[j + 1]);
        }
        other_at(values.skip(1), t, i - 1);
    }
}

proof fn other_item_at(list: Seq<RecordV>, t: TypeV, i: int)
    requires
        0 <= i < list.len(),
        forall|j: int| 0 <= j < i ==> is_primitive_of(#[trigger] list[j], t),
        !is_primitive_of(list[i], t),
    ensures
        first_other_item(list, t) == list[i],
    decreases i,
{
    if i > 0 {
        assert(is_primitive_of(list[0], t));
        assert forall|j: int| 0 <= j < i - 1 implies is_primitive_of(
            #[trigger] list.skip(1)[j],
            t,
        ) by {
            assert(list.skip(1)[j] == list[j + 1]);
        }
        other_item_at(list.skip(1), t, i - 1);
    }
}

proof fn other_list_at(lists: Seq<Seq<RecordV>>, t: TypeV, i: int)
    requires
        0 <= i < lists.len(),
        forall|j: int| 0 <= j < i ==> items_of(#[trigger] lists[j], t),
        !items_of(lists[i], t),
    ensures
        first_other_of_lists(lists, t) == first_other_item(lists[i], t),
    decreases i,
{
    if i > 0 {
        assert(items_of(lists[0], t));
        assert forall|j: int| 0 <= j < i - 1 implies items_of(#[trigger] lists.skip(1)[j], t) by {
            assert(lists.skip(1)[j] == lists[j + 1]);
        }
        other_list_at(lists.skip(1), t, i - 1);
    }
}

/// Why some values do not make a column of that type.
pub open spec fn values_fault(values: Seq<PrimitiveV>, t: TypeV) -> Option<BatchFault> {
    if !holds_primitives(t) {
        Some(BatchFault::Unsupported(t))
    } else if !all_of(values, t) {
        Some(BatchFault::Mixed(t, first_other(values, t)))
    } else {
        None
    }
}

/// Whether a column of the type holds just these values.
pub open spec fn cells_are(cells: Cells, t: TypeV, values: Seq<PrimitiveV>) -> bool {
    &&& cells.type_of() == t
    &&& cells.count() == values.len()
    &&& forall|i: int|
        0 <= i < values.len() ==> #[trigger] cells.at(i) == Some(values[i])
    &&& forall|i: int| 0 <= i < values.len() ==> !(#[trigger] cells.missing(i))
}

/// What is said of a value of another type.
fn other_variant(expected: &str, found: &str) -> (r: ElementStoreError)
    ensures
        r matches ElementStoreError::InvalidData(m) && m@
            == "mixed primitive variants in batch: expected "@ + expected@ + ", found "@ + found@,
{
    let start = join3("mixed primitive variants in batch: expected ", expected, ", found ");
    ElementStoreError::InvalidData(join2(start.as_str(), found))
}

fn utf8_cells(values: &Vec<PrimitiveValue>) -> (r: Result<Cells, ElementStoreError>)
    ensures
        match r {
            Ok(cells) => cells_are(cells, TypeV::Utf8, primitives_model(values@)) && all_of(
                primitives_model(values@),
                TypeV::Utf8,
            ),
            Err(e) => !all_of(primitives_model(values@), TypeV::Utf8) && reports(
                e,
                BatchFault::Mixed(
                    TypeV::Utf8,
                    first_other(primitives_model(values@), TypeV::Utf8),
                ),
            ),
        },
{
    let n: usize = values.len();
    let ghost model = primitives_model(values@);
    let mut out: Vec<Option<String>> = Vec::new();
    let mut i: usize = 0;
    while i < n
        invariant
            n == values@.len(),
            model == primitives_model(values@),
            i <= n,
            out@.len() == i,
            forall|j: int|
                0 <= j < i ==> (#[trigger] out@[j]) is Some && model[j] == PrimitiveV::String(
                    out@[j]->Some_0@,
                ),
        decreases n - i,
    {
        assert(model[i as int] == values@[i as int].model());
        match &values[i] {
            PrimitiveValue::String(v) => {
                out.push(Some(v.clone()));
            },
            _ => {
                proof {
                    assert forall|j: int| 0 <= j < i implies primitive_type(#[trigger] model[j])
                        == TypeV::Utf8 by {
                        assert(out@[j] is Some);
                    }
                    other_at(model, TypeV::Utf8, i as int);
                }
                return Err(other_variant("String", shown_value(&values[i]).as_str()));
            },
        }
        i = i + 1;
    }
    assert forall|j: int| 0 <= j < model.len() implies primitive_type(#[trigger] model[j])
        == TypeV::Utf8 by {
        assert(out@[j] is Some);
    }
    Ok(Cells::Utf8(out))
}

fn binary_cells(values: &Vec<PrimitiveValue>) -> (r: Result<Cells, ElementStoreError>)
    ensures
        match r {
            Ok(cells) => cells_are(cells, TypeV::Binary, primitives_model(values@)) && all_of(
                primitives_model(values@),
                TypeV::Binary,
            ),
            Err(e) => !all_of(primitives_model(values@), TypeV::Binary) && reports(
                e,
                BatchFault::Mixed(
                    TypeV::Binary,
                    first_other(primitives_model(values@), TypeV::Binary),
                ),
            ),
        },
{
    let n: usize = values.len();
    let ghost model = primitives_model(values@);
    let mut out: Vec<Option<Vec<u8>>> = Vec::new();
    let mut i: usize = 0;
    while i < n
        invariant
            n == values@.len(),
            model == primitives_model(values@),
            i <= n,
            out@.len() == i,
            forall|j: int|
                0 <= j < i ==> (#[trigger] out@[j]) is Some && model[j] == PrimitiveV::Bytes(
                    out@[j]->Some_0@,
                ),
        decreases n - i,
    {
        assert(model[i as int] == values@[i as int].model());
        match &values[i] {
            PrimitiveValue::Bytes(v) => {
                out.push(Some(crate::coders::wire::copy_range(v, 0, v.len())));
            },
            _ => {
                proof {
                    assert forall|j: int| 0 <= j < i implies primitive_type(#[trigger] model[j])
                        == TypeV::Binary by {
                        assert(out@[j] is Some);
                    }
                    other_at(model, TypeV::Binary, i as int);
                }
                return Err(other_variant("Bytes", shown_value(&values[i]).as_str()));
            },
        }
        i = i + 1;
    }
    assert forall|j: int| 0 <= j < model.len() implies primitive_type(#[trigger] model[j])
        == TypeV::Binary by {
        assert(out@[j] is Some);
    }
    Ok(Cells::Binary(out))
}

fn int64_cells(values: &Vec<PrimitiveValue>) -> (r: Result<Cells, ElementStoreError>)
    ensures
        match r {
            Ok(cells) => cells_are(cells, TypeV::Int64, primitives_model(values@)) && all_of(
                primitives_model(values@),
                TypeV::Int64,
            ),
            Err(e) => !all_of(primitives_model(values@), TypeV::Int64) && reports(
                e,
                BatchFault::Mixed(
                    TypeV::Int64,
                    first_other(primitives_model(values@), TypeV::Int64),
                ),
            ),
        },
{
    let n: usize = values.len();
    let ghost model = primitives_model(values@);
    let mut out: Vec<Option<i64>> = Vec::new();
    let mut i: usize = 0;
    while i < n
        invariant
            n == values@.len(),
            model == primitives_model(values@),
            i <= n,
            out@.len() == i,
            forall|j: int|
                0 <= j < i ==> (#[trigger] out@[j]) is Some && model[j] == PrimitiveV::Int64(
                    out@[j]->Some_0,
                ),
        decreases n - i,
    {
        assert(model[i as int] == values@[i as int].model());
        match &values[i] {
            PrimitiveValue::Int64(v) => {
                out.push(Some(*v));
            },
            _ => {
                proof {
                    assert forall|j: int| 0 <= j < i implies primitive_type(#[trigger] model[j])
                        == TypeV::Int64 by {
                        assert(out@[j] is Some);
                    }
                    other_at(model, TypeV::Int64, i as int);
                }
                return Err(other_variant("Int64", shown_value(&values[i]).as_str()));
            },
        }
        i = i + 1;
    }
    assert forall|j: int| 0 <= j < model.len() implies primitive_type(#[trigger] model[j])
        == TypeV::Int64 by {
        assert(out@[j] is Some);
    }
    Ok(Cells::Int64(out))
}

fn float64_cells(values: &Vec<PrimitiveValue>) -> (r: Result<Cells, ElementStoreError>)
    ensures
        match r {
            Ok(cells) => cells_are(cells, TypeV::Float64, primitives_model(values@)) && all_of(
                primitives_model(values@),
                TypeV::Float64,
            ),
            Err(e) => !all_of(primitives_model(values@), TypeV::Float64) && reports(
                e,
                BatchFault::Mixed(
                    TypeV::Float64,
                    first_other(primitives_model(values@), TypeV::Float64),
                ),
            ),
        },
{
    let n: usize = values.len();
    let ghost model = primitives_model(values@);
    let mut out: Vec<Option<u64>> = Vec::new();
    let mut i: usize = 0;
    while i < n
        invariant
            n == values@.len(),
            model == primitives_model(values@),
            i <= n,
            out@.len() == i,
            forall|j: int|
                0 <= j < i ==> (#[trigger] out@[j]) is Some && model[j] == PrimitiveV::Float64(
                    out@[j]->Some_0,
                ),
        decreases n - i,
    {
        assert(model[i as int] == values@[i as int].model());
        match &values[i] {
            PrimitiveValue::Float64(v) => {
                out.push(Some(*v));
            },
            _ => {
                proof {
                    assert forall|j: int| 0 <= j < i implies primitive_type(#[trigger] model[j])
                        == TypeV::Float64 by {
                        assert(out@[j] is Some);
                    }
                    other_at(model, TypeV::Float64, i as int);
                }
                return Err(other_variant("Float64", shown_value(&values[i]).as_str()));
            },
        }
        i = i + 1;
    }
    assert forall|j: int| 0 <= j < model.len() implies primitive_type(#[trigger] model[j])
        == TypeV::Float64 by {
        assert(out@[j] is Some);
    }
    Ok(Cells::Float64(out))
}

fn boolean_cells(values: &Vec<PrimitiveValue>) -> (r: Result<Cells, ElementStoreError>)
    ensures
        match r {
            Ok(cells) => cells_are(cells, TypeV::Boolean, primitives_model(values@)) && all_of(
                primitives_model(values@),
                TypeV::Boolean,
            ),
            Err(e) => !all_of(primitives_model(values@), TypeV::Boolean) && reports(
                e,
                BatchFault::Mixed(
                    TypeV::Boolean,
                    first_other(primitives_model(values@), TypeV::Boolean),
                ),
            ),
        },
{
    let n: usize = values.len();
    let ghost model = primitives_model(values@);
    let mut out: Vec<Option<bool>> = Vec::new();
    let mut i: usize = 0;
    while i < n
        invariant
            n == values@.len(),
            model == primitives_model(values@),
            i <= n,
            out@.len() == i,
            forall|j: int|
                0 <= j < i ==> (#[trigger] out@[j]) is Some && model[j] == PrimitiveV::Bool(
                    out@[j]->Some_0,
                ),
        decreases n - i,
    {
        assert(model[i as int] == values@[i as int].model());
        match &values[i] {
            PrimitiveValue::Bool(v) => {
                out.push(Some(*v));
            },
            _ => {
                proof {
                    assert forall|j: int| 0 <= j < i implies primitive_type(#[trigger] model[j])
                        == TypeV::Boolean by {
                        assert(out@[j] is Some);
                    }
                    other_at(model, TypeV::Boolean, i as int);
                }
                return Err(other_variant("Bool", shown_value(&values[i]).as_str()));
            },
        }
        i = i + 1;
    }
    assert forall|j: int| 0 <= j < model.len() implies primitive_type(#[trigger] model[j])
        == TypeV::Boolean by {
        assert(out@[j] is Some);
    }
    Ok(Cells::Boolean(out))
}

fn null_cells(values: &Vec<PrimitiveValue>) -> (r: Result<Cells, ElementStoreError>)
    ensures
        match r {
            Ok(cells) => cells_are(cells, TypeV::Null, primitives_model(values@)) && all_of(
                primitives_model(values@),
                TypeV::Null,
            ),
            Err(e) => !all_of(primitives_model(values@), TypeV::Null) && reports(
                e,
                BatchFault::Mixed(TypeV::Null, first_other(primitives_model(values@), TypeV::Null)),
            ),
        },
{
    let n: usize = values.len();
    let ghost model = primitives_model(values@);
    let mut i: usize = 0;
    while i < n
        invariant
            n == values@.len(),
            model == primitives_model(values@),
            i <= n,
            forall|j: int| 0 <= j < i ==> #[trigger] model[j] == PrimitiveV::Void,
        decreases n - i,
    {
        assert(model[i as int] == values@[i as int].model());
        match &values[i] {
            PrimitiveValue::Void => {},
            _ => {
                return Err(
                    ElementStoreError::InvalidData(
                        "mixed primitive variants in batch: expected Void values".to_string(),
                    ),
                );
            },
        }
        i = i + 1;
    }
    Ok(Cells::Null(n))
}

/// Writes primitive values as a column of the type.
pub fn primitive_values_to_array(values: &Vec<PrimitiveValue>, data_type: &DataType) -> (r:
    Result<Cells, ElementStoreError>)
    ensures
        match r {
            Ok(cells) => {
                &&& values_fault(primitives_model(values@), type_model(*data_type)) is None
                &&& cells_are(cells, type_model(*data_type), primitives_model(values@))
            },
            Err(e) => values_fault(primitives_model(values@), type_model(*data_type)) matches Some(
                f,
            ) && reports(e, f),
        },
{
    match data_type {
        DataType::Utf8 => utf8_cells(values),
        DataType::Binary => binary_cells(values),
        DataType::Int64 => int64_cells(values),
        DataType::Boolean => boolean_cells(values),
        DataType::Float64 => float64_cells(values),
        DataType::Null => null_cells(values),
        _ => Err(unsupported(data_type)),
    }
}

// Lists.

/// How many items the first so many of some lengths come to.
pub open spec fn total(lengths: Seq<nat>, n: int) -> nat
    decreases n,
{
    if n <= 0 || n > lengths.len() {
        0
    } else {
        total(lengths, n - 1) + lengths[n - 1]
    }
}

/// What is said of the first list, from the `i`th on, that is itself too long or ends
/// too far behind.
pub open spec fn overflow_text(lengths: Seq<nat>, i: nat) -> Seq<char>
    decreases lengths.len() - i,
{
    if i >= lengths.len() || lengths[i as int] > i32::MAX {
        "list length exceeds i32::MAX"@
    } else if total(lengths, (i + 1) as int) > i32::MAX {
        "list offsets exceed i32::MAX"@
    } else {
        overflow_text(lengths, i + 1)
    }
}

/// A sum over more is no smaller.
pub proof fn total_grows(lengths: Seq<nat>, m: int, n: int)
    requires
        0 <= m <= n <= lengths.len(),
    ensures
        total(lengths, m) <= total(lengths, n),
    decreases n - m,
{
    if m < n {
        total_grows(lengths, m, n - 1);
    }
}

/// Some lengths as mathematics sees them.
pub open spec fn lengths_model(lengths: Seq<usize>) -> Seq<nat> {
    Seq::new(lengths.len(), |i: int| lengths[i] as nat)
}

/// Where each of some lists begins, and where the last ends; refused where they
/// come to more than an offset can say.
pub fn build_offsets(lengths: &Vec<usize>) -> (r: Result<Vec<i32>, ElementStoreError>)
    ensures
        match r {
            Ok(offsets) => {
                &&& total(lengths_model(lengths@), lengths@.len() as int) <= i32::MAX
                &&& offsets@.len() == lengths@.len() + 1
                &&& forall|i: int|
                    0 <= i <= lengths@.len() ==> #[trigger] offsets@[i] == total(
                        lengths_model(lengths@),
                        i,
                    )
            },
            Err(e) => {
                &&& total(lengths_model(lengths@), lengths@.len() as int) > i32::MAX
                &&& reports(e, BatchFault::Overflow(lengths_model(lengths@)))
            },
        },
{
    let n: usize = lengths.len();
    let ghost model = lengths_model(lengths@);
    let mut offsets: Vec<i32> = Vec::new();
    offsets.push(0i32);
    let mut running: i32 = 0;
    let mut i: usize = 0;
    while i < n
        invariant
            n == lengths@.len(),
            model == lengths_model(lengths@),
            i <= n,
            running == total(model, i as int),
            overflow_text(model, 0) == overflow_text(model, i as nat),
            offsets@.len() == i + 1,
            forall|j: int| 0 <= j <= i ==> #[trigger] offsets@[j] == total(model, j),
        decreases n - i,
    {
        proof {
            total_grows(model, i + 1, n as int);
            assert(model[i as int] == lengths@[i as int] as nat);
        }
        let len: usize = lengths[i];
        if len > 0x7fff_ffff {
            return Err(
                ElementStoreError::OffsetOverflow("list length exceeds i32::MAX".to_string()),
            );
        }
        match running.checked_add(len as i32) {
            Some(sum) => {
                running = sum;
            },
            None => {
                return Err(
                    ElementStoreError::OffsetOverflow("list offsets exceed i32::MAX".to_string()),
                );
            },
        }
        offsets.push(running);
        i = i + 1;
    }
    Ok(offsets)
}

/// How long the lists are.
pub open spec fn list_lengths(lists: Seq<Seq<RecordV>>) -> Seq<nat> {
    Seq::new(lists.len(), |i: int| lists[i].len())
}

/// Whether the items of all lists are primitive values of that type.
pub open spec fn all_lists_of(lists: Seq<Seq<RecordV>>, t: TypeV) -> bool {
    forall|i: int| 0 <= i < lists.len() ==> items_of(#[trigger] lists[i], t)
}

/// Why some lists do not make a column of lists of that type.
pub open spec fn lists_fault(lists: Seq<Seq<RecordV>>, t: TypeV) -> Option<BatchFault> {
    if total(list_lengths(lists), lists.len() as int) > i32::MAX {
        Some(BatchFault::Overflow(list_lengths(lists)))
    } else if !holds_primitives(t) {
        Some(BatchFault::Unsupported(t))
    } else if !all_lists_of(lists, t) {
        Some(BatchFault::Mixed(t, first_other_of_lists(lists, t)))
    } else {
        None
    }
}

/// The primitive values among some items, in order.
pub open spec fn primitives_in(list: Seq<RecordV>) -> Seq<PrimitiveV> {
    Seq::new(list.len(), |i: int| list[i]->Primitive_0)
}

/// Whether a column of lists of the type holds just these lists.
pub open spec fn lists_are(column: ListColumn, t: TypeV, lists: Seq<Seq<RecordV>>) -> bool {
    &&& column.wf()
    &&& column.items.type_of() == t
    &&& column.item_nullable == (t == TypeV::Null)
    &&& column.there@.len() == lists.len()
    &&& forall|i: int| 0 <= i < lists.len() ==> #[trigger] column.there@[i]
    &&& forall|i: int|
        0 <= i < lists.len() ==> column.list_at(i) == Some(primitives_in(#[trigger] lists[i]))
}

/// The models of some lists.
pub open spec fn lists_model(lists: Seq<IterableValue>) -> Seq<Seq<RecordV>> {
    Seq::new(lists.len(), |i: int| records_model(lists[i].list@))
}

/// Puts the values of a list behind others; refused where an item is no value of
/// the type.
fn flatten_into(flat: &mut Vec<PrimitiveValue>, list: &IterableValue, item_type: &DataType) -> (r:
    bool)
    ensures
        r == items_of(records_model(list.list@), type_model(*item_type)),
        r ==> primitives_model(final(flat)@) == primitives_model(old(flat)@) + primitives_in(
            records_model(list.list@),
        ),
{
    let ghost start = flat@;
    let ghost model = records_model(list.list@);
    let ghost t = type_model(*item_type);
    let n: usize = list.list.len();
    let mut i: usize = 0;
    while i < n
        invariant
            n == list.list@.len(),
            model == records_model(list.list@),
            t == type_model(*item_type),
            i <= n,
            flat@.len() == start.len() + i,
            forall|j: int| 0 <= j < start.len() ==> #[trigger] flat@[j] == start[j],
            forall|j: int|
                start.len() <= j < flat@.len() ==> model[j - start.len()] == RecordV::Primitive(
                    (#[trigger] flat@[j]).model(),
                ),
            forall|j: int| 0 <= j < i ==> is_primitive_of(#[trigger] model[j], t),
        decreases n - i,
    {
        assert(model[i as int] == record_model(list.list@[i as int]));
        match &list.list[i] {
            BeamRecord::PRIMITIVE(value) => {
                if !crate::store::table::primitive_type_matches(value, item_type) {
                    assert(!is_primitive_of(model[i as int], t));
                    return false;
                }
                flat.push(value.duplicate());
            },
            _ => {
                assert(!is_primitive_of(model[i as int], t));
                return false;
            },
        }
        i = i + 1;
    }
    assert(primitives_model(flat@) =~= primitives_model(start) + primitives_in(model));
    true
}

/// Whether the values of a list stand in their place among those of all lists.
pub open spec fn stands_at(flat: Seq<PrimitiveV>, lists: Seq<Seq<RecordV>>, j: int) -> bool {
    let start = total(list_lengths(lists), j) as int;
    let end = total(list_lengths(lists), j + 1) as int;
    start <= end <= flat.len() && flat.subrange(start, end) == primitives_in(lists[j])
}

/// Values behind the others move none of those.
proof fn still_stands(
    flat: Seq<PrimitiveV>,
    more: Seq<PrimitiveV>,
    lists: Seq<Seq<RecordV>>,
    j: int,
)
    requires
        stands_at(flat, lists, j),
    ensures
        stands_at(flat + more, lists, j),
{
    let start = total(list_lengths(lists), j) as int;
    let end = total(list_lengths(lists), j + 1) as int;
    assert((flat + more).subrange(start, end) =~= flat.subrange(start, end));
}

/// The values of the next list stand in their place.
proof fn next_stands(flat: Seq<PrimitiveV>, lists: Seq<Seq<RecordV>>, j: int)
    requires
        0 <= j < lists.len(),
        flat.len() == total(list_lengths(lists), j),
    ensures
        stands_at(flat + primitives_in(lists[j]), lists, j),
        (flat + primitives_in(lists[j])).len() == total(list_lengths(lists), j + 1),
{
    let sizes = list_lengths(lists);
    assert(total(sizes, j + 1) == total(sizes, j) + sizes[j]);
    let all = flat + primitives_in(lists[j]);
    assert(all.subrange(total(sizes, j) as int, total(sizes, j + 1) as int) =~= primitives_in(
        lists[j],
    ));
}

/// Typed lists, one behind the other, are all of the type.
proof fn flattened_is_typed(lists: Seq<Seq<RecordV>>, t: TypeV, flat: Seq<PrimitiveV>, n: int)
    requires
        0 <= n <= lists.len(),
        forall|j: int| 0 <= j < n ==> items_of(#[trigger] lists[j], t),
        flat.len() >= total(list_lengths(lists), n),
        forall|j: int| 0 <= j < n ==> #[trigger] stands_at(flat, lists, j),
    ensures
        all_of(flat.take(total(list_lengths(lists), n) as int), t),
        flat.len() == total(list_lengths(lists), n) ==> all_of(flat, t),
    decreases n,
{
    let sizes = list_lengths(lists);
    if n > 0 {
        assert(stands_at(flat, lists, n - 1));
        flattened_is_typed(lists, t, flat, n - 1);
        let start = total(sizes, n - 1) as int;
        let end = total(sizes, n) as int;
        let last = primitives_in(lists[n - 1]);
        assert forall|k: int| 0 <= k < end implies primitive_type(#[trigger] flat.take(end)[k])
            == t by {
            if k < start {
                assert(flat.take(start)[k] == flat[k]);
            } else {
                assert(flat.subrange(start, end)[k - start] == flat[k]);
                assert(is_primitive_of(lists[n - 1][k - start], t));
                assert(last[k - start] == lists[n - 1][k - start]->Primitive_0);
            }
        }
    }
    if flat.len() == total(sizes, n) {
        assert(flat.take(total(sizes, n) as int) =~= flat);
    }
}

/// What is said of the first item of a list that is no value of the type.
fn other_in_list(list: &IterableValue, item_type: &DataType) -> (r: Option<ElementStoreError>)
    requires
        holds_primitives(type_model(*item_type)),
    ensures
        r is None == items_of(records_model(list.list@), type_model(*item_type)),
        r matches Some(e) ==> reports(
            e,
            BatchFault::Mixed(
                type_model(*item_type),
                first_other_item(records_model(list.list@), type_model(*item_type)),
            ),
        ),
{
    let ghost model = records_model(list.list@);
    let ghost t = type_model(*item_type);
    let n: usize = list.list.len();
    let mut i: usize = 0;
    while i < n
        invariant
            n == list.list@.len(),
            model == records_model(list.list@),
            t == type_model(*item_type),
            holds_primitives(t),
            i <= n,
            forall|j: int| 0 <= j < i ==> is_primitive_of(#[trigger] model[j], t),
        decreases n - i,
    {
        assert(model[i as int] == record_model(list.list@[i as int]));
        if !record_type_matches(&list.list[i], item_type) {
            proof {
                other_item_at(model, t, i as int);
            }
            let found: String = match &list.list[i] {
                BeamRecord::PRIMITIVE(value) => shown_value(value),
                other => shown_record(other),
            };
            return Some(
                match item_type {
                    DataType::Null => ElementStoreError::InvalidData(
                        "mixed primitive variants in batch: expected Void values".to_string(),
                    ),
                    DataType::Utf8 => other_variant("String", found.as_str()),
                    DataType::Binary => other_variant("Bytes", found.as_str()),
                    DataType::Boolean => other_variant("Bool", found.as_str()),
                    _ => other_variant(shown_type(item_type).as_str(), found.as_str()),
                },
            );
        }
        i = i + 1;
    }
    None
}

/// What is said of lists of which not all items are values of the type.
fn other_in_lists(iterables: &Vec<IterableValue>, item_type: &DataType) -> (r: ElementStoreError)
    requires
        holds_primitives(type_model(*item_type)),
        !all_lists_of(lists_model(iterables@), type_model(*item_type)),
    ensures
        reports(
            r,
            BatchFault::Mixed(
                type_model(*item_type),
                first_other_of_lists(lists_model(iterables@), type_model(*item_type)),
            ),
        ),
{
    let ghost lists = lists_model(iterables@);
    let ghost t = type_model(*item_type);
    let n: usize = iterables.len();
    let mut i: usize = 0;
    while i < n
        invariant
            n == iterables@.len(),
            lists == lists_model(iterables@),
            t == type_model(*item_type),
            holds_primitives(t),
            i <= n,
            forall|j: int| 0 <= j < i ==> items_of(#[trigger] lists[j], t),
        decreases n - i,
    {
        assert(lists[i as int] == records_model(iterables@[i as int].list@));
        match other_in_list(&iterables[i], item_type) {
            Some(e) => {
                proof {
                    other_list_at(lists, t, i as int);
                }
                return e;
            },
            None => {},
        }
        i = i + 1;
    }
    assert(all_lists_of(lists, t));
    unsupported(item_type)
}

/// The values of all lists, one behind the other; refused where an item is no
/// value of the type.
fn flatten_lists(iterables: &Vec<IterableValue>, item_data_type: &DataType) -> (r: Option<
    Vec<PrimitiveValue>,
>)
    ensures
        match r {
            Some(flat) => {
                let lists = lists_model(iterables@);
                &&& all_lists_of(lists, type_model(*item_data_type))
                &&& flat@.len() == total(list_lengths(lists), lists.len() as int)
                &&& forall|j: int|
                    0 <= j < lists.len() ==> #[trigger] stands_at(
                        primitives_model(flat@),
                        lists,
                        j,
                    )
            },
            None => !all_lists_of(lists_model(iterables@), type_model(*item_data_type)),
        },
{
    let n: usize = iterables.len();
    let ghost lists = lists_model(iterables@);
    let ghost t = type_model(*item_data_type);
    let mut flat: Vec<PrimitiveValue> = Vec::new();
    let mut i: usize = 0;
    while i < n
        invariant
            n == iterables@.len(),
            lists == lists_model(iterables@),
            t == type_model(*item_data_type),
            i <= n,
            flat@.len() == total(list_lengths(lists), i as int),
            forall|j: int| 0 <= j < i ==> items_of(#[trigger] lists[j], t),
            forall|j: int|
                0 <= j < i ==> #[trigger] stands_at(primitives_model(flat@), lists, j),
        decreases n - i,
    {
        let ghost before = primitives_model(flat@);
        assert(lists[i as int] == records_model(iterables@[i as int].list@));
        if !flatten_into(&mut flat, &iterables[i], item_data_type) {
            assert(!items_of(lists[i as int], t));
            return None;
        }
        proof {
            let more = primitives_in(lists[i as int]);
            assert(primitives_model(flat@) == before + more);
            next_stands(before, lists, i as int);
            assert forall|j: int| 0 <= j < i + 1 implies #[trigger] stands_at(
                primitives_model(flat@),
                lists,
                j,
            ) by {
                if j < i {
                    assert(stands_at(before, lists, j));
                    still_stands(before, more, lists, j);
                }
            }
        }
        i = i + 1;
    }
    Some(flat)
}

/// So many rows that are all there.
fn all_there(n: usize) -> (r: Vec<bool>)
    ensures
        r@.len() == n,
        forall|i: int| 0 <= i < n ==> #[trigger] r@[i],
{
    let mut there: Vec<bool> = Vec::new();
    let mut i: usize = 0;
    while i < n
        invariant
            i <= n,
            there@.len() == i,
            forall|j: int| 0 <= j < i ==> #[trigger] there@[j],
        decreases n - i,
    {
        there.push(true);
        i = i + 1;
    }
    there
}

/// The values between a row's offset and the next are the row's list.
proof fn column_holds(
    column: ListColumn,
    t: TypeV,
    lists: Seq<Seq<RecordV>>,
    flat: Seq<PrimitiveV>,
)
    requires
        column.offsets@.len() == lists.len() + 1,
        forall|i: int|
            0 <= i <= lists.len() ==> #[trigger] column.offsets@[i] == total(
                list_lengths(lists),
                i,
            ),
        column.there@.len() == lists.len(),
        forall|i: int| 0 <= i < lists.len() ==> #[trigger] column.there@[i],
        column.item_nullable == (t == TypeV::Null),
        cells_are(column.items, t, flat),
        flat.len() == total(list_lengths(lists), lists.len() as int),
        forall|j: int| 0 <= j < lists.len() ==> #[trigger] stands_at(flat, lists, j),
    ensures
        lists_are(column, t, lists),
{
    let sizes = list_lengths(lists);
    let n = lists.len() as int;
    assert forall|i: int, j: int|
        0 <= i <= j < column.offsets@.len() implies #[trigger] column.offsets@[i]
        <= #[trigger] column.offsets@[j] by {
        total_grows(sizes, i, j);
    }
    assert forall|i: int| 0 <= i < column.offsets@.len() implies #[trigger] column.offsets@[i]
        <= column.items.count() by {
        total_grows(sizes, i, n);
    }
    assert forall|i: int| 0 <= i < lists.len() implies column.list_at(i) == Some(
        primitives_in(#[trigger] lists[i]),
    ) by {
        let start = column.offsets@[i] as int;
        let end = column.offsets@[i + 1] as int;
        assert(stands_at(flat, lists, i));
        assert(column.there@[i]);
        let want = primitives_in(lists[i]);
        assert(flat.subrange(start, end) == want);
        assert forall|j: int| start <= j < end implies (#[trigger] column.items.at(j)) is Some
            && column.items.at(j)->Some_0 == want[j - start] by {
            assert(column.items.at(j) == Some(flat[j]));
            assert(flat.subrange(start, end)[j - start] == flat[j]);
        }
        assert(column.list_at(i)->Some_0 =~= want);
    }
}

/// Writes lists as a column of lists of the type.
pub fn iterable_values_to_array(iterables: &Vec<IterableValue>, item_data_type: &DataType) -> (r:
    Result<ListColumn, ElementStoreError>)
    ensures
        match r {
            Ok(column) => {
                &&& lists_fault(lists_model(iterables@), type_model(*item_data_type)) is None
                &&& lists_are(column, type_model(*item_data_type), lists_model(iterables@))
            },
            Err(e) => lists_fault(
                lists_model(iterables@),
                type_model(*item_data_type),
            ) matches Some(f) && reports(e, f),
        },
{
    let n: usize = iterables.len();
    let ghost lists = lists_model(iterables@);
    let ghost t = type_model(*item_data_type);
    let mut lengths: Vec<usize> = Vec::new();
    let mut i: usize = 0;
    while i < n
        invariant
            n == iterables@.len(),
            lists == lists_model(iterables@),
            i <= n,
            lengths@.len() == i,
            forall|j: int| 0 <= j < i ==> #[trigger] lengths@[j] == lists[j].len(),
        decreases n - i,
    {
        assert(lists[i as int] == records_model(iterables@[i as int].list@));
        lengths.push(iterables[i].list.len());
        i = i + 1;
    }
    assert(lengths_model(lengths@) =~= list_lengths(lists));
    let offsets = match build_offsets(&lengths) {
        Ok(offsets) => offsets,
        Err(e) => {
            return Err(e);
        },
    };
    if !item_data_type.is_primitive() {
        return Err(unsupported(item_data_type));
    }
    let flat = match flatten_lists(iterables, item_data_type) {
        Some(flat) => flat,
        None => {
            return Err(other_in_lists(iterables, item_data_type));
        },
    };
    proof {
        flattened_is_typed(lists, t, primitives_model(flat@), n as int);
    }
    let items = match primitive_values_to_array(&flat, item_data_type) {
        Ok(items) => items,
        Err(e) => {
            return Err(e);
        },
    };
    let item_nullable = item_data_type.is_null();
    let column = ListColumn { offsets, there: all_there(n), items, item_nullable };
    proof {
        column_holds(column, t, lists, primitives_model(flat@));
    }
    Ok(column)
}

// Batches.

/// Whether a kind of table has a `key` column.
pub open spec fn keyed(t: TableType) -> bool {
    t == TableType::Kv || t == TableType::Gbk
}

/// Whether the `value` column of a kind of table is one of lists.
pub open spec fn listed(t: TableType) -> bool {
    t == TableType::Iterable || t == TableType::Gbk
}

/// Whether a record belongs in a kind of table.
pub open spec fn belongs(r: RecordV, t: TableType) -> bool {
    match t {
        TableType::Primitive => r is Primitive,
        TableType::Iterable => r is Iterable,
        TableType::Kv => r is Kv && value_in(r) is Primitive,
        TableType::Gbk => r is Gbk,
    }
}

/// Whether all records belong in a kind of table.
pub open spec fn all_belong(records: Seq<RecordV>, t: TableType) -> bool {
    forall|i: int| 0 <= i < records.len() ==> belongs(#[trigger] records[i], t)
}

/// The keys of some records.
pub open spec fn keys_of(records: Seq<RecordV>) -> Seq<PrimitiveV> {
    Seq::new(records.len(), |i: int| key_in(records[i]))
}

/// The primitive values of some records.
pub open spec fn values_of(records: Seq<RecordV>) -> Seq<PrimitiveV> {
    Seq::new(records.len(), |i: int| value_in(records[i])->Primitive_0)
}

/// The lists of some records.
pub open spec fn lists_in(records: Seq<RecordV>) -> Seq<Seq<RecordV>> {
    Seq::new(records.len(), |i: int| items_in(records[i]))
}

/// The type of the first field of that name.
pub open spec fn field_type(fields: Seq<FieldV>, name: Seq<char>) -> Option<TypeV> {
    match field_named(fields, name) {
        Some(at) => Some(fields[at].data_type),
        None => None,
    }
}

/// The types of the columns that are written for a layout.
pub open spec fn column_types(layout: LayoutV) -> Seq<TypeV> {
    let value = field_type(layout.fields, VALUE_COLUMN@)->Some_0;
    let written = if listed(layout.table_type) {
        lists_of(*value->List_0)
    } else {
        value
    };
    if keyed(layout.table_type) {
        seq![field_type(layout.fields, KEY_COLUMN@)->Some_0, written]
    } else {
        seq![written]
    }
}

/// Whether the fields of a layout are of the types that are written for it.
pub open spec fn is_settled(layout: LayoutV) -> bool {
    let types = column_types(layout);
    &&& layout.fields.len() == types.len()
    &&& forall|i: int| 0 <= i < types.len() ==> layout.fields[i].data_type == #[trigger] types[i]
}

/// Why the parts of some records do not make the columns of a layout.
pub open spec fn parts_fault(records: Seq<RecordV>, layout: LayoutV) -> Option<BatchFault> {
    let key = field_type(layout.fields, KEY_COLUMN@)->Some_0;
    let value = field_type(layout.fields, VALUE_COLUMN@)->Some_0;
    if keyed(layout.table_type) && values_fault(keys_of(records), key) is Some {
        values_fault(keys_of(records), key)
    } else if listed(layout.table_type) {
        lists_fault(lists_in(records), *value->List_0)
    } else {
        values_fault(values_of(records), value)
    }
}

/// Why some records do not make a batch of a layout.
pub open spec fn batch_fault(records: Seq<RecordV>, layout: LayoutV) -> Option<BatchFault> {
    let t = layout.table_type;
    if records.len() == 0 {
        Some(BatchFault::Empty)
    } else if keyed(t) && field_type(layout.fields, KEY_COLUMN@) is None {
        Some(BatchFault::MissingColumn(KEY_COLUMN@))
    } else if field_type(layout.fields, VALUE_COLUMN@) is None {
        Some(BatchFault::MissingColumn(VALUE_COLUMN@))
    } else if listed(t) && !(field_type(layout.fields, VALUE_COLUMN@)->Some_0 is List) {
        Some(BatchFault::NotAList(t))
    } else if !all_belong(records, t) {
        Some(BatchFault::WrongRecord(t))
    } else if parts_fault(records, layout) is Some {
        parts_fault(records, layout)
    } else if !is_settled(layout) {
        Some(BatchFault::Layout)
    } else {
        None
    }
}

/// Whether a column holds just these values.
pub open spec fn column_values(column: Column, values: Seq<PrimitiveV>) -> bool {
    &&& column.count() == values.len()
    &&& !column.has_missing()
    &&& forall|i: int|
        0 <= i < values.len() ==> #[trigger] column.primitive_at(i) == Some(values[i])
}

/// Whether a column holds just these lists.
pub open spec fn column_lists(column: Column, lists: Seq<Seq<RecordV>>) -> bool {
    &&& column.count() == lists.len()
    &&& !column.has_missing()
    &&& forall|i: int|
        0 <= i < lists.len() ==> #[trigger] column.list_at(i) == Some(primitives_in(lists[i]))
}

/// Whether the columns hold the records: the keys first, where there are any.
pub open spec fn columns_hold(columns: Seq<Column>, t: TableType, records: Seq<RecordV>) -> bool {
    &&& columns.len() == if keyed(t) {
        2int
    } else {
        1int
    }
    &&& keyed(t) ==> column_values(columns[0], keys_of(records))
    &&& if listed(t) {
        column_lists(columns.last(), lists_in(records))
    } else {
        column_values(columns.last(), values_of(records))
    }
}

/// The parts of some records.
struct RecordParts {
    keys: Vec<PrimitiveValue>,
    values: Vec<PrimitiveValue>,
    lists: Vec<IterableValue>,
}

/// Takes the records apart; refused where one does not belong in the table.
fn take_apart(records: &Vec<BeamRecord>, t: TableType) -> (r: Option<RecordParts>)
    ensures
        match r {
            Some(parts) => {
                let model = records_model(records@);
                &&& all_belong(model, t)
                &&& keyed(t) ==> primitives_model(parts.keys@) == keys_of(model)
                &&& listed(t) ==> lists_model(parts.lists@) == lists_in(model)
                &&& !listed(t) ==> primitives_model(parts.values@) == values_of(model)
            },
            None => !all_belong(records_model(records@), t),
        },
{
    let n: usize = records.len();
    let ghost model = records_model(records@);
    let mut keys: Vec<PrimitiveValue> = Vec::new();
    let mut values: Vec<PrimitiveValue> = Vec::new();
    let mut lists: Vec<IterableValue> = Vec::new();
    let mut i: usize = 0;
    while i < n
        invariant
            n == records@.len(),
            model == records_model(records@),
            i <= n,
            forall|j: int| 0 <= j < i ==> belongs(#[trigger] model[j], t),
            keyed(t) ==> keys@.len() == i,
            listed(t) ==> lists@.len() == i,
            !listed(t) ==> values@.len() == i,
            keyed(t) ==> forall|j: int|
                0 <= j < i ==> (#[trigger] keys@[j]).model() == key_in(model[j]),
            listed(t) ==> forall|j: int|
                0 <= j < i ==> records_model((#[trigger] lists@[j]).list@) == items_in(model[j]),
            !listed(t) ==> forall|j: int|
                0 <= j < i ==> RecordV::Primitive((#[trigger] values@[j]).model()) == value_in(
                    model[j],
                ),
        decreases n - i,
    {
        assert(model[i as int] == record_model(records@[i as int]));
        match (t, &records[i]) {
            (TableType::Primitive, BeamRecord::PRIMITIVE(value)) => {
                values.push(value.duplicate());
            },
            (TableType::Iterable, BeamRecord::ITERABLE(list)) => {
                lists.push(list.duplicate());
            },
            (TableType::Kv, BeamRecord::KV(kv)) => {
                match &*kv.value {
                    BeamRecord::PRIMITIVE(value) => {
                        assert(record_model(*kv.value) == RecordV::Primitive(value.model()));
                        keys.push(kv.key.duplicate());
                        values.push(value.duplicate());
                    },
                    _ => {
                        assert(!(record_model(*kv.value) is Primitive));
                        assert(!belongs(model[i as int], t));
                        return None;
                    },
                }
            },
            (TableType::Gbk, BeamRecord::GBK(gbk)) => {
                keys.push(gbk.key.duplicate());
                lists.push(gbk.value.duplicate());
            },
            _ => {
                assert(!belongs(model[i as int], t));
                return None;
            },
        }
        i = i + 1;
    }
    proof {
        if keyed(t) {
            assert(primitives_model(keys@) =~= keys_of(model));
        }
        if listed(t) {
            assert(lists_model(lists@) =~= lists_in(model));
        } else {
            assert(primitives_model(values@) =~= values_of(model));
        }
    }
    Some(RecordParts { keys, values, lists })
}

/// The type of the first field of that name; an error where there is none.
fn type_in<'a>(schema: &'a RecordTableSchema, name: &str) -> (r: Result<
    &'a DataType,
    ElementStoreError,
>)
    ensures
        match r {
            Ok(t) => field_type(schema.model().fields, name@) == Some(type_model(*t)),
            Err(e) => {
                &&& field_type(schema.model().fields, name@) is None
                &&& e matches ElementStoreError::MissingField(m)
                &&& m@ == "missing "@ + name@ + " column"@
            },
        },
{
    match schema.arrow_schema.index_of(name) {
        Some(at) => {
            assert(schema.model().fields[at as int] == schema.arrow_schema.fields@[
                at as int
            ].model());
            Ok(&schema.arrow_schema.fields[at].data_type)
        },
        None => Err(ElementStoreError::MissingField(join3("missing ", name, " column"))),
    }
}

/// What is said of a record that does not belong in the table.
fn wrong_record(t: TableType) -> (r: ElementStoreError)
    ensures
        r matches ElementStoreError::InvalidData(m) && m@ == "expected "@
            + crate::store::table::table_name(t) + " record"@,
{
    ElementStoreError::InvalidData(join3("expected ", t.as_str(), " record"))
}

/// What is said of a value column that should hold lists.
fn not_a_list(t: TableType) -> (r: ElementStoreError)
    ensures
        reports(r, BatchFault::NotAList(t)),
{
    ElementStoreError::Schema(join2(t.as_str(), " value field must be a List"))
}

/// A column of cells is a column of values.
proof fn cells_make_values(cells: Cells, t: TypeV, values: Seq<PrimitiveV>)
    requires
        cells_are(cells, t, values),
    ensures
        column_values(Column::Cells(cells), values),
        Column::Cells(cells).type_of() == t,
{
    let column = Column::Cells(cells);
    assert forall|i: int| 0 <= i < column.count() implies !(#[trigger] column.missing(i)) by {
        assert(!cells.missing(i));
    }
    assert forall|i: int| 0 <= i < values.len() implies #[trigger] column.primitive_at(i) == Some(
        values[i],
    ) by {
        assert(cells.at(i) == Some(values[i]));
    }
}

/// A list column is a column of lists.
proof fn lists_make_column(list: ListColumn, t: TypeV, lists: Seq<Seq<RecordV>>)
    requires
        lists_are(list, t, lists),
    ensures
        column_lists(Column::List(list), lists),
        Column::List(list).type_of() == lists_of(t),
{
    let column = Column::List(list);
    assert forall|i: int| 0 <= i < column.count() implies !(#[trigger] column.missing(i)) by {
        assert(list.there@[i]);
    }
    assert forall|i: int| 0 <= i < lists.len() implies #[trigger] column.list_at(i) == Some(
        primitives_in(lists[i]),
    ) by {
        assert(list.list_at(i) == Some(primitives_in(lists[i])));
    }
}

/// Converts records into a batch of the layout.
pub fn beamrecords_to_record_batch(
    records: &Vec<BeamRecord>,
    table_schema: &RecordTableSchema,
) -> (r: Result<RecordBatch, ElementStoreError>)
    ensures
        match r {
            Ok(batch) => {
                &&& batch_fault(records_model(records@), table_schema.model()) is None
                &&& batch.wf()
                &&& batch.schema.model() == table_schema.model().fields
                &&& batch.rows == records@.len()
                &&& columns_hold(
                    batch.columns@,
                    table_schema.table_type,
                    records_model(records@),
                )
            },
            Err(e) => batch_fault(records_model(records@), table_schema.model()) matches Some(f)
                && reports(e, f),
        },
{
    if records.len() == 0 {
        return Err(
            ElementStoreError::InvalidData(
                "cannot build record batch from empty records".to_string(),
            ),
        );
    }
    let t = table_schema.table_type;
    let ghost model = records_model(records@);
    let ghost layout = table_schema.model();
    let is_keyed = match t {
        TableType::Kv => true,
        TableType::Gbk => true,
        _ => false,
    };
    let mut columns: Vec<Column> = Vec::new();
    let null = DataType::Null;
    let key_type = if is_keyed {
        match type_in(table_schema, KEY_COLUMN) {
            Ok(key_type) => key_type,
            Err(e) => {
                return Err(e);
            },
        }
    } else {
        &null
    };
    let value_type = match type_in(table_schema, VALUE_COLUMN) {
        Ok(value_type) => value_type,
        Err(e) => {
            return Err(e);
        },
    };
    let ghost value_v = type_model(*value_type);
    let item_type: Option<&DataType> = match (t, value_type) {
        (TableType::Iterable, DataType::List(item, _)) => Some(&**item),
        (TableType::Gbk, DataType::List(item, _)) => Some(&**item),
        (TableType::Iterable, _) => {
            return Err(not_a_list(t));
        },
        (TableType::Gbk, _) => {
            return Err(not_a_list(t));
        },
        _ => None,
    };
    let parts = match take_apart(records, t) {
        Some(parts) => parts,
        None => {
            return Err(wrong_record(t));
        },
    };
    if is_keyed {
        match primitive_values_to_array(&parts.keys, key_type) {
            Ok(cells) => {
                proof {
                    cells_make_values(cells, type_model(*key_type), keys_of(model));
                }
                columns.push(Column::Cells(cells));
            },
            Err(e) => {
                return Err(e);
            },
        }
    }
    match item_type {
        Some(item) => {
            match iterable_values_to_array(&parts.lists, item) {
                Ok(list) => {
                    proof {
                        lists_make_column(list, type_model(*item), lists_in(model));
                    }
                    columns.push(Column::List(list));
                },
                Err(e) => {
                    return Err(e);
                },
            }
        },
        None => {
            match primitive_values_to_array(&parts.values, value_type) {
                Ok(cells) => {
                    proof {
                        cells_make_values(cells, value_v, values_of(model));
                    }
                    columns.push(Column::Cells(cells));
                },
                Err(e) => {
                    return Err(e);
                },
            }
        },
    }
    proof {
        assert(columns_hold(columns@, t, model));
        let types = column_types(layout);
        assert(columns@.len() == types.len());
        assert(columns@.last().type_of() == types.last());
        assert(keyed(t) ==> columns@[0].type_of() == types[0]);
        assert forall|i: int| 0 <= i < columns@.len() implies (#[trigger] columns@[i]).type_of()
            == types[i] && !columns@[i].has_missing() && columns@[i].count() == model.len()
            && columns@[i].wf() by {
            if i == columns@.len() - 1 {
                assert(columns@[i] == columns@.last());
            }
        }
        if columns_fit(layout.fields, columns@) {
            assert forall|i: int| 0 <= i < types.len() implies layout.fields[i].data_type
                == #[trigger] types[i] by {
                assert(columns@[i].type_of() == types[i]);
            }
        } else if is_settled(layout) {
            assert forall|i: int| 0 <= i < columns@.len() implies {
                &&& (#[trigger] columns@[i]).count() == columns@[0].count()
                &&& columns@[i].type_of() == layout.fields[i].data_type
                &&& (layout.fields[i].nullable || !columns@[i].has_missing())
            } by {
                assert(layout.fields[i].data_type == types[i]);
            }
        }
    }
    RecordBatch::try_new(table_schema.arrow_schema.duplicate(), columns)
}

// Reading back.

/// Primitive values as records.
pub open spec fn as_records(values: Seq<PrimitiveV>) -> Seq<RecordV> {
    Seq::new(values.len(), |i: int| RecordV::Primitive(values[i]))
}

/// Whether a batch has the columns of a kind of table.
pub open spec fn has_columns(batch: RecordBatch, t: TableType) -> bool {
    &&& keyed(t) ==> batch.column_named(KEY_COLUMN@) is Some
    &&& batch.column_named(VALUE_COLUMN@) is Some
}

/// The record in a row of a batch, where the row can be read as one.
pub open spec fn row_record(batch: RecordBatch, t: TableType, i: int) -> Option<RecordV> {
    let key = batch.column_named(KEY_COLUMN@)->Some_0.primitive_at(i);
    let value = batch.column_named(VALUE_COLUMN@)->Some_0.primitive_at(i);
    let list = batch.column_named(VALUE_COLUMN@)->Some_0.list_at(i);
    match t {
        TableType::Primitive => match value {
            Some(value) => Some(RecordV::Primitive(value)),
            None => None,
        },
        TableType::Iterable => match list {
            Some(list) => Some(RecordV::Iterable(as_records(list))),
            None => None,
        },
        TableType::Kv => match (key, value) {
            (Some(key), Some(value)) => Some(
                RecordV::Kv(key, Box::new(RecordV::Primitive(value))),
            ),
            _ => None,
        },
        TableType::Gbk => match (key, list) {
            (Some(key), Some(list)) => Some(RecordV::Gbk(key, as_records(list))),
            _ => None,
        },
    }
}

/// Whether some row cannot be read.
pub open spec fn has_unreadable(batch: RecordBatch, t: TableType) -> bool {
    exists|i: int| 0 <= i < batch.rows && (#[trigger] row_record(batch, t, i)) is None
}

/// The value of a cell when it is read as one of a type: a null is no value at
/// all, and a cell of another type has none.
pub open spec fn cell_as(cells: Cells, t: TypeV, i: int) -> Option<PrimitiveV> {
    if cells.missing(i) || t == TypeV::Null {
        Some(PrimitiveV::Void)
    } else if holds_primitives(t) && cells.type_of() == t {
        cells.at(i)
    } else {
        None
    }
}

/// The value of a row when it is read as one of a type.
pub open spec fn primitive_as(column: Column, t: TypeV, i: int) -> Option<PrimitiveV> {
    match column {
        Column::Cells(cells) => cell_as(cells, t, i),
        Column::List(_) => if column.missing(i) || t == TypeV::Null {
            Some(PrimitiveV::Void)
        } else {
            None
        },
    }
}

/// The items of a row when they are read as ones of a type: a null is an empty
/// list.
pub open spec fn items_as(list: ListColumn, t: TypeV, i: int) -> Option<Seq<PrimitiveV>> {
    let start = list.offsets@[i] as int;
    let end = list.offsets@[i + 1] as int;
    if !list.there@[i] {
        Some(Seq::empty())
    } else if forall|j: int| start <= j < end ==> (#[trigger] cell_as(list.items, t, j)) is Some {
        Some(Seq::new((end - start) as nat, |j: int| cell_as(list.items, t, start + j)->Some_0))
    } else {
        None
    }
}

/// The list of a row when it is read as one of a type.
pub open spec fn list_as(column: Column, t: TypeV, i: int) -> Option<Seq<PrimitiveV>> {
    match t {
        TypeV::List(item, _) => match column {
            Column::List(list) => items_as(list, *item, i),
            Column::Cells(cells) => if cells.missing(i) {
                Some(Seq::empty())
            } else {
                None
            },
        },
        _ => None,
    }
}

/// A cell read as one of its own type has its value.
proof fn cell_as_itself(cells: Cells, i: int)
    ensures
        cell_as(cells, cells.type_of(), i) == cells.at(i),
{
}

/// A row read as one of its own type has its value, and its list.
pub proof fn read_as_itself(column: Column, i: int)
    ensures
        primitive_as(column, column.type_of(), i) == column.primitive_at(i),
        list_as(column, column.type_of(), i) == column.list_at(i),
{
    match column {
        Column::Cells(cells) => cell_as_itself(cells, i),
        Column::List(list) => {
            let t = list.items.type_of();
            assert forall|j: int| #[trigger] cell_as(list.items, t, j) == list.items.at(j) by {
                cell_as_itself(list.items, j);
            }
            let start = list.offsets@[i] as int;
            let end = list.offsets@[i + 1] as int;
            if items_as(list, t, i) is Some && list.list_at(i) is None {
                assert(forall|j: int| start <= j < end ==> (#[trigger] cell_as(list.items, t, j))
                    is Some);
                assert forall|j: int| start <= j < end implies (#[trigger] list.items.at(j))
                    is Some by {
                    assert(cell_as(list.items, t, j) is Some);
                }
            }
            if items_as(list, t, i) is Some {
                assert(items_as(list, t, i)->Some_0 =~= list.list_at(i)->Some_0);
            }
        },
    }
}

/// Reads a cell as one of a type.
fn read_cell(cells: &Cells, data_type: &DataType, row: usize) -> (r: Option<PrimitiveValue>)
    requires
        row < cells.count(),
    ensures
        match r {
            Some(value) => cell_as(*cells, type_model(*data_type), row as int) == Some(
                value.model(),
            ),
            None => cell_as(*cells, type_model(*data_type), row as int) is None,
        },
{
    if cells.is_missing(row) || data_type.is_null() {
        return Some(PrimitiveValue::Void);
    }
    if !data_type.is_primitive() || !cells.data_type().same(data_type) {
        return None;
    }
    cells.value(row)
}

/// Reads the primitive value in a row as one of a type. A null is no value at all.
pub fn primitive_value_from_array_row(column: &Column, data_type: &DataType, row: usize) -> (r:
    Result<PrimitiveValue, ElementStoreError>)
    requires
        row < column.count(),
    ensures
        match r {
            Ok(value) => primitive_as(*column, type_model(*data_type), row as int) == Some(
                value.model(),
            ),
            Err(e) => primitive_as(*column, type_model(*data_type), row as int) is None && reports(
                e,
                BatchFault::Unsupported(type_model(*data_type)),
            ),
        },
{
    let value = match column {
        Column::Cells(cells) => read_cell(cells, data_type, row),
        Column::List(list) => if !list.there[row] || data_type.is_null() {
            Some(PrimitiveValue::Void)
        } else {
            None
        },
    };
    match value {
        Some(value) => Ok(value),
        None => Err(unsupported(data_type)),
    }
}

/// Reads the items of a row as ones of a type.
fn read_items(list: &ListColumn, data_type: &DataType, row: usize) -> (r: Option<
    Vec<PrimitiveValue>,
>)
    requires
        list.wf(),
        row < list.there@.len(),
    ensures
        match r {
            Some(values) => items_as(*list, type_model(*data_type), row as int) == Some(
                primitives_model(values@),
            ),
            None => items_as(*list, type_model(*data_type), row as int) is None,
        },
{
    let ghost t = type_model(*data_type);
    let mut out: Vec<PrimitiveValue> = Vec::new();
    if !list.there[row] {
        assert(primitives_model(out@) =~= Seq::<PrimitiveV>::empty());
        return Some(out);
    }
    assert(list.offsets@[row as int] <= list.offsets@[row + 1]);
    let bounds: usize = list.offsets.len();
    assert(row + 1 < bounds);
    let start: usize = list.offsets[row] as usize;
    let end: usize = list.offsets[row + 1] as usize;
    let mut i: usize = start;
    while i < end
        invariant
            list.wf(),
            row < list.there@.len(),
            list.there@[row as int],
            t == type_model(*data_type),
            start == list.offsets@[row as int],
            end == list.offsets@[row + 1],
            start <= i <= end,
            out@.len() == i - start,
            forall|j: int| start <= j < i ==> (#[trigger] cell_as(list.items, t, j)) is Some,
            forall|j: int|
                0 <= j < out@.len() ==> cell_as(list.items, t, start + j) == Some(
                    (#[trigger] out@[j]).model(),
                ),
        decreases end - i,
    {
        assert(list.offsets@[row + 1] <= list.items.count());
        match read_cell(&list.items, data_type, i) {
            Some(value) => {
                out.push(value);
            },
            None => {
                assert(cell_as(list.items, t, i as int) is None);
                return None;
            },
        }
        i = i + 1;
    }
    proof {
        let model = primitives_model(out@);
        let items = items_as(*list, t, row as int);
        assert(items is Some);
        assert forall|j: int| 0 <= j < model.len() implies model[j] == items->Some_0[j] by {
            assert(model[j] == out@[j].model());
        }
        assert(model =~= items->Some_0);
    }
    Some(out)
}

/// Reads the list in a row as one of a type. A null is an empty list.
pub fn iterable_value_from_array_row(column: &Column, data_type: &DataType, row: usize) -> (r:
    Result<IterableValue, ElementStoreError>)
    requires
        column.wf(),
        row < column.count(),
    ensures
        match r {
            Ok(list) => list_as(*column, type_model(*data_type), row as int) matches Some(values)
                && records_model(list.list@) == as_records(values),
            Err(e) => list_as(*column, type_model(*data_type), row as int) is None
                && match type_model(*data_type) {
                TypeV::List(item, _) => reports(e, BatchFault::Unsupported(*item)),
                other => e matches ElementStoreError::UnsupportedType(m) && m@
                    == "expected List column for iterable, found "@ + name_of_type(other),
            },
        },
{
    let item_type: &DataType = match data_type {
        DataType::List(item, _) => &**item,
        _ => {
            return Err(
                ElementStoreError::UnsupportedType(
                    join2(
                        "expected List column for iterable, found ",
                        shown_type(data_type).as_str(),
                    ),
                ),
            );
        },
    };
    let values = match column {
        Column::Cells(cells) => if cells.is_missing(row) {
            let none: Vec<PrimitiveValue> = Vec::new();
            assert(primitives_model(none@) =~= Seq::<PrimitiveV>::empty());
            Some(none)
        } else {
            None
        },
        Column::List(list) => read_items(list, item_type, row),
    };
    match values {
        Some(values) => {
            let r = IterableValue::new(values);
            proof {
                let want = as_records(primitives_model(values@));
                assert forall|i: int| 0 <= i < want.len() implies records_model(r.list@)[i]
                    == want[i] by {
                    assert(r.list@[i] == BeamRecord::PRIMITIVE(values@[i]));
                }
                assert(records_model(r.list@) =~= want);
            }
            Ok(r)
        },
        None => Err(unsupported(item_type)),
    }
}

/// What is said of a column of lists that cannot be read as one.
pub open spec fn list_complaint(t: TypeV) -> Seq<char> {
    match t {
        TypeV::List(item, _) => "unsupported primitive storage type: "@ + name_of_type(*item),
        other => "expected List column for iterable, found "@ + name_of_type(other),
    }
}

/// What is said of a row that cannot be read: of its key first.
pub open spec fn row_complaint(t: TableType, key: Option<Column>, value: Column, i: int) -> Seq<
    char,
> {
    if keyed(t) && key->Some_0.primitive_at(i) is None {
        "unsupported primitive storage type: "@ + name_of_type(key->Some_0.type_of())
    } else if listed(t) {
        list_complaint(value.type_of())
    } else {
        "unsupported primitive storage type: "@ + name_of_type(value.type_of())
    }
}

/// Whether the error is what is said of a batch that cannot be read: that a column is
/// missing, or what is said of the first row that cannot be read.
pub open spec fn tells_unreadable(batch: RecordBatch, t: TableType, e: ElementStoreError) -> bool {
    let key = batch.column_named(KEY_COLUMN@);
    let value = batch.column_named(VALUE_COLUMN@);
    if keyed(t) && key is None {
        reports(e, BatchFault::MissingColumn(KEY_COLUMN@))
    } else if value is None {
        reports(e, BatchFault::MissingColumn(VALUE_COLUMN@))
    } else {
        exists|i: int|
            {
                &&& 0 <= i < batch.rows
                &&& (#[trigger] row_record(batch, t, i)) is None
                &&& forall|j: int| 0 <= j < i ==> (#[trigger] row_record(batch, t, j)) is Some
                &&& e matches ElementStoreError::UnsupportedType(m) && m@ == row_complaint(
                    t,
                    key,
                    value->Some_0,
                    i,
                )
            }
    }
}

/// Reads the record in a row.
fn read_row(t: TableType, key: Option<&Column>, value: &Column, row: usize) -> (r: Result<
    BeamRecord,
    ElementStoreError,
>)
    requires
        value.wf(),
        row < value.count(),
        keyed(t) ==> key is Some,
        key matches Some(column) ==> column.wf() && row < column.count(),
    ensures
        ({
            let k = key->Some_0.primitive_at(row as int);
            let v = value.primitive_at(row as int);
            let l = value.list_at(row as int);
            match r {
                Ok(record) => match t {
                    TableType::Primitive => v is Some && record_model(record)
                        == RecordV::Primitive(v->Some_0),
                    TableType::Iterable => l is Some && record_model(record) == RecordV::Iterable(
                        as_records(l->Some_0),
                    ),
                    TableType::Kv => k is Some && v is Some && record_model(record)
                        == RecordV::Kv(k->Some_0, Box::new(RecordV::Primitive(v->Some_0))),
                    TableType::Gbk => k is Some && l is Some && record_model(record)
                        == RecordV::Gbk(k->Some_0, as_records(l->Some_0)),
                },
                Err(e) => ((keyed(t) && k is None) || (if listed(t) {
                    l is None
                } else {
                    v is None
                })) && (e matches ElementStoreError::UnsupportedType(m) && m@ == row_complaint(
                    t,
                    match key {
                        Some(column) => Some(*column),
                        None => None,
                    },
                    *value,
                    row as int,
                )),
            }
        }),
{
    let value_type = value.data_type();
    proof {
        read_as_itself(*value, row as int);
        if key is Some {
            read_as_itself(*key->Some_0, row as int);
        }
    }
    match t {
        TableType::Primitive => match primitive_value_from_array_row(value, &value_type, row) {
            Ok(v) => Ok(BeamRecord::PRIMITIVE(v)),
            Err(e) => Err(e),
        },
        TableType::Iterable => match iterable_value_from_array_row(value, &value_type, row) {
            Ok(l) => Ok(BeamRecord::ITERABLE(l)),
            Err(e) => Err(e),
        },
        TableType::Kv => {
            let key_column = key.unwrap();
            let key_value = match primitive_value_from_array_row(
                key_column,
                &key_column.data_type(),
                row,
            ) {
                Ok(k) => k,
                Err(e) => {
                    return Err(e);
                },
            };
            match primitive_value_from_array_row(value, &value_type, row) {
                Ok(v) => {
                    let inner = BeamRecord::PRIMITIVE(v);
                    assert(record_model(inner) == RecordV::Primitive(v.model()));
                    Ok(BeamRecord::KV(BeamKV { key: key_value, value: Box::new(inner) }))
                },
                Err(e) => Err(e),
            }
        },
        TableType::Gbk => {
            let key_column = key.unwrap();
            let key_value = match primitive_value_from_array_row(
                key_column,
                &key_column.data_type(),
                row,
            ) {
                Ok(k) => k,
                Err(e) => {
                    return Err(e);
                },
            };
            match iterable_value_from_array_row(value, &value_type, row) {
                Ok(l) => Ok(BeamRecord::GBK(BeamGbk { key: key_value, value: l })),
                Err(e) => Err(e),
            }
        },
    }
}

/// What is said of a batch without a column.
fn missing_column(name: &str) -> (r: ElementStoreError)
    ensures
        r matches ElementStoreError::MissingField(m) && m@ == "missing "@ + name@ + " column"@,
{
    ElementStoreError::MissingField(join3("missing ", name, " column"))
}

/// Converts a batch back into records.
pub fn record_batch_to_beamrecords(batch: &RecordBatch, table_schema: &RecordTableSchema) -> (r:
    Result<Vec<BeamRecord>, ElementStoreError>)
    requires
        batch.wf(),
    ensures
        match r {
            Ok(records) => {
                &&& has_columns(*batch, table_schema.table_type)
                &&& records@.len() == batch.rows
                &&& forall|i: int|
                    0 <= i < batch.rows ==> row_record(*batch, table_schema.table_type, i) == Some(
                        record_model(#[trigger] records@[i]),
                    )
            },
            Err(e) => (!has_columns(*batch, table_schema.table_type) || has_unreadable(
                *batch,
                table_schema.table_type,
            )) && tells_unreadable(*batch, table_schema.table_type, e),
        },
{
    let t = table_schema.table_type;
    let is_keyed = match t {
        TableType::Kv => true,
        TableType::Gbk => true,
        _ => false,
    };
    let key = batch.column_by_name(KEY_COLUMN);
    if is_keyed && key.is_none() {
        return Err(missing_column(KEY_COLUMN));
    }
    let value = match batch.column_by_name(VALUE_COLUMN) {
        Some(column) => column,
        None => {
            return Err(missing_column(VALUE_COLUMN));
        },
    };
    let n: usize = batch.num_rows();
    let mut records: Vec<BeamRecord> = Vec::new();
    let mut i: usize = 0;
    while i < n
        invariant
            n == batch.rows,
            i <= n,
            keyed(t) ==> key is Some,
            key matches Some(column) ==> column.wf() && column.count() == batch.rows
                && batch.column_named(KEY_COLUMN@) == Some(*column),
            value.wf(),
            value.count() == batch.rows,
            batch.column_named(VALUE_COLUMN@) == Some(*value),
            has_columns(*batch, t),
            t == table_schema.table_type,
            records@.len() == i,
            forall|j: int|
                0 <= j < i ==> row_record(*batch, t, j) == Some(
                    record_model(#[trigger] records@[j]),
                ),
        decreases n - i,
    {
        match read_row(t, key, value, i) {
            Ok(record) => {
                assert(row_record(*batch, t, i as int) == Some(record_model(record)));
                records.push(record);
            },
            Err(e) => {
                proof {
                    assert(row_record(*batch, t, i as int) is None);
                    assert forall|j: int| 0 <= j < i implies (#[trigger] row_record(*batch, t, j))
                        is Some by {
                        assert(row_record(*batch, t, j) == Some(record_model(records@[j])));
                    }
                }
                return Err(e);
            },
        }
        i = i + 1;
    }
    Ok(records)
}

/// Primitive items are the records of their values.
proof fn items_round_trip(list: Seq<RecordV>, t: TypeV)
    requires
        items_of(list, t),
    ensures
        as_records(primitives_in(list)) == list,
{
    assert forall|i: int| 0 <= i < list.len() implies as_records(primitives_in(list))[i]
        == list[i] by {
        assert(is_primitive_of(list[i], t));
    }
    assert(as_records(primitives_in(list)) =~= list);
}

/// The places of the columns in a derived layout.
proof fn derived_places(records: Seq<RecordV>)
    requires
        layout_of(records) is Some,
    ensures
        ({
            let layout = layout_of(records)->Some_0;
            &&& field_named(layout.fields, VALUE_COLUMN@) == Some(layout.fields.len() - 1)
            &&& layout.fields.len() == if keyed(layout.table_type) {
                2int
            } else {
                1int
            }
            &&& keyed(layout.table_type) ==> field_named(layout.fields, KEY_COLUMN@) == Some(0int)
        }),
{
    let layout = layout_of(records)->Some_0;
    reveal_strlit("key");
    reveal_strlit("value");
    assert(KEY_COLUMN@.len() == 3);
    assert(VALUE_COLUMN@.len() == 5);
    reveal_with_fuel(crate::store::columns::field_from, 3);
}

/// The item types of records without items, or with primitive ones, hold
/// primitive values.
proof fn item_type_is_primitive(records: Seq<RecordV>, i: int)
    requires
        0 <= i,
    ensures
        holds_primitives(crate::store::table::item_type_from(records, i)),
    decreases records.len() - i,
{
    if i < records.len() {
        item_type_is_primitive(records, i + 1);
    }
}

/// A derived layout takes the records it was derived from, unless their lists
/// come to more items than an offset can say.
pub proof fn derived_layout_fits(records: Seq<RecordV>)
    requires
        layout_of(records) is Some,
    ensures
        ({
            let fault = batch_fault(records, layout_of(records)->Some_0);
            fault is None || (fault == Some(
                BatchFault::Overflow(list_lengths(lists_in(records))),
            ) && total(list_lengths(lists_in(records)), records.len() as int) > i32::MAX)
        }),
{
    let layout = layout_of(records)->Some_0;
    let t = layout.table_type;
    derived_places(records);
    item_type_is_primitive(records, 0);
    assert forall|i: int| 0 <= i < records.len() implies belongs(#[trigger] records[i], t) by {
        if t == TableType::Primitive {
            assert(is_primitive_of(records[i], primitive_type(records[0]->Primitive_0)));
        }
    }
    if keyed(t) {
        let key = primitive_type(key_in(records[0]));
        assert forall|i: int| 0 <= i < keys_of(records).len() implies primitive_type(
            #[trigger] keys_of(records)[i],
        ) == key by {
            assert(key_in(records[i]) == keys_of(records)[i]);
        }
    }
    if listed(t) {
        let item = item_type(records);
        assert forall|i: int| 0 <= i < lists_in(records).len() implies items_of(
            #[trigger] lists_in(records)[i],
            item,
        ) by {
            assert(items_of(items_in(records[i]), item));
        }
    } else {
        let value = type_of_record(value_in(records[0]));
        assert(value_in(records[0]) is Primitive) by {
            assert(belongs(records[0], t));
        }
        assert forall|i: int| 0 <= i < values_of(records).len() implies primitive_type(
            #[trigger] values_of(records)[i],
        ) == value by {
            assert(belongs(records[i], t));
            assert(is_primitive_of(value_in(records[i]), value));
        }
    }
    let types = column_types(layout);
    assert forall|i: int| 0 <= i < types.len() implies layout.fields[i].data_type
        == #[trigger] types[i] by {}
}

/// What was written to a batch of a derived layout is read back from it. The
/// layout may have been derived from other records.
pub proof fn batch_round_trip(first: Seq<RecordV>, records: Seq<RecordV>, batch: RecordBatch)
    requires
        layout_of(first) is Some,
        batch_fault(records, layout_of(first)->Some_0) is None,
        batch.wf(),
        batch.schema.model() == layout_of(first)->Some_0.fields,
        columns_hold(batch.columns@, layout_of(first)->Some_0.table_type, records),
    ensures
        has_columns(batch, layout_of(first)->Some_0.table_type),
        !has_unreadable(batch, layout_of(first)->Some_0.table_type),
        batch.rows == records.len(),
        forall|i: int|
            0 <= i < records.len() ==> row_record(
                batch,
                layout_of(first)->Some_0.table_type,
                i,
            ) == Some(#[trigger] records[i]),
{
    let layout = layout_of(first)->Some_0;
    let t = layout.table_type;
    derived_places(first);
    let columns = batch.columns@;
    assert(batch.column_named(VALUE_COLUMN@) == Some(columns.last()));
    assert(keyed(t) ==> batch.column_named(KEY_COLUMN@) == Some(columns[0]));
    assert(columns[columns.len() - 1] == columns.last());
    assert forall|i: int| 0 <= i < records.len() implies row_record(batch, t, i) == Some(
        #[trigger] records[i],
    ) by {
        assert(belongs(records[i], t));
        if keyed(t) {
            assert(columns[0].primitive_at(i) == Some(keys_of(records)[i]));
        }
        if listed(t) {
            assert(columns.last().list_at(i) == Some(primitives_in(lists_in(records)[i])));
            let value = field_type(layout.fields, VALUE_COLUMN@)->Some_0;
            assert(items_of(lists_in(records)[i], *value->List_0));
            items_round_trip(items_in(records[i]), *value->List_0);
        } else {
            assert(columns.last().primitive_at(i) == Some(values_of(records)[i]));
        }
    }
    assert forall|i: int| 0 <= i < batch.rows implies (#[trigger] row_record(batch, t, i))
        is Some by {
        assert(row_record(batch, t, i) == Some(records[i]));
    }
}

/// Whether all records belong in a table of lists, and hold none but empty ones. Such
/// records fit any type of item.
pub open spec fn only_empty_lists(records: Seq<RecordV>, t: TableType) -> bool {
    listed(t) && all_belong(records, t) && forall|i: int|
        0 <= i < records.len() ==> items_in(#[trigger] records[i]).len() == 0
}

/// Where some record holds an item and all items are of a type, that is the type of
/// the items.
proof fn item_type_of_all(records: Seq<RecordV>, t: TypeV, i: int)
    requires
        0 <= i,
        forall|k: int| 0 <= k < records.len() ==> items_of(items_in(#[trigger] records[k]), t),
        exists|k: int| i <= k < records.len() && items_in(#[trigger] records[k]).len() > 0,
    ensures
        crate::store::table::item_type_from(records, i) == t,
    decreases records.len() - i,
{
    assert(items_of(items_in(records[i]), t));
    if items_in(records[i]).len() > 0 {
        assert(is_primitive_of(items_in(records[i])[0], t));
    } else {
        item_type_of_all(records, t, i + 1);
    }
}

/// Records of another layout than the one that was derived first are refused, unless
/// they hold nothing but empty lists.
pub proof fn drift_is_refused(first: Seq<RecordV>, records: Seq<RecordV>)
    requires
        layout_of(first) is Some,
        !only_empty_lists(records, layout_of(first)->Some_0.table_type),
        layout_of(records) != layout_of(first),
    ensures
        batch_fault(records, layout_of(first)->Some_0) is Some,
{
    if listed(layout_of(first)->Some_0.table_type) {
        list_drift_is_refused(first, records);
    } else {
        value_drift_is_refused(first, records);
    }
}

proof fn list_drift_is_refused(first: Seq<RecordV>, records: Seq<RecordV>)
    requires
        layout_of(first) is Some,
        listed(layout_of(first)->Some_0.table_type),
        !only_empty_lists(records, layout_of(first)->Some_0.table_type),
        layout_of(records) != layout_of(first),
    ensures
        batch_fault(records, layout_of(first)->Some_0) is Some,
{
    let layout = layout_of(first)->Some_0;
    let t = layout.table_type;
    derived_places(first);
    if batch_fault(records, layout) is None {
        assert(belongs(records[0], t));
        let value = field_type(layout.fields, VALUE_COLUMN@)->Some_0;
        let item = *value->List_0;
        assert(value == lists_of(item));
        assert forall|k: int| 0 <= k < records.len() implies items_of(
            items_in(#[trigger] records[k]),
            item,
        ) by {
            assert(items_of(lists_in(records)[k], item));
        }
        item_type_of_all(records, item, 0);
        if keyed(t) {
            let key = field_type(layout.fields, KEY_COLUMN@)->Some_0;
            assert forall|i: int| 0 <= i < records.len() implies is_gbk_of(
                #[trigger] records[i],
                key,
            ) by {
                assert(belongs(records[i], t));
                assert(primitive_type(keys_of(records)[i]) == key);
            }
            assert(is_gbk_of(records[0], key));
            assert(layout.fields =~= seq![key_field(key), value_field(value)]);
        } else {
            assert forall|i: int| 0 <= i < records.len() implies (#[trigger] records[i])
                is Iterable by {
                assert(belongs(records[i], t));
            }
            assert(layout.fields =~= seq![value_field(value)]);
        }
        assert(layout_of(records) == Some(layout));
    }
}

proof fn value_drift_is_refused(first: Seq<RecordV>, records: Seq<RecordV>)
    requires
        layout_of(first) is Some,
        !listed(layout_of(first)->Some_0.table_type),
        layout_of(records) != layout_of(first),
    ensures
        batch_fault(records, layout_of(first)->Some_0) is Some,
{
    let layout = layout_of(first)->Some_0;
    let t = layout.table_type;
    derived_places(first);
    if batch_fault(records, layout) is None {
        assert(belongs(records[0], t));
        let value = field_type(layout.fields, VALUE_COLUMN@)->Some_0;
        assert forall|i: int| 0 <= i < records.len() implies is_primitive_of(
            value_in(#[trigger] records[i]),
            value,
        ) by {
            assert(belongs(records[i], t));
            assert(primitive_type(values_of(records)[i]) == value);
        }
        assert(is_primitive_of(value_in(records[0]), value));
        if keyed(t) {
            let key = field_type(layout.fields, KEY_COLUMN@)->Some_0;
            assert forall|i: int| 0 <= i < records.len() implies primitive_type(
                key_in(#[trigger] records[i]),
            ) == key by {
                assert(primitive_type(keys_of(records)[i]) == key);
            }
            assert forall|i: int| 0 <= i < records.len() implies is_kv_of(
                #[trigger] records[i],
                key,
                value,
            ) by {
                assert(belongs(records[i], t));
                assert(primitive_type(key_in(records[i])) == key);
                assert(is_primitive_of(value_in(records[i]), value));
            }
            assert(primitive_type(key_in(records[0])) == key);
            assert(all_kvs(records, key, value));
            assert(layout.fields =~= seq![key_field(key), value_field(value)]);
        } else {
            assert(all_primitives(records, value)) by {
                assert forall|i: int| 0 <= i < records.len() implies is_primitive_of(
                    #[trigger] records[i],
                    value,
                ) by {
                    assert(belongs(records[i], t));
                    assert(is_primitive_of(value_in(records[i]), value));
                }
            }
            assert(layout.fields =~= seq![value_field(value)]);
        }
        assert(layout_of(records) == Some(layout));
    }
}

} // verus!
