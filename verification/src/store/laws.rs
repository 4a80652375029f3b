//! What holds of the layouts, the columns and the tables of collections.
use crate::store::batch::{
    all_belong, belongs, columns_hold, keyed, keys_of, list_as, listed, lists_in, primitive_as,
    primitives_in, values_of,
};
use crate::store::columns::{Column, TypeV};
use crate::store::element_store::{layout_for, sanitized};
use crate::store::record::{PrimitiveV, RecordV};
use crate::store::table::{
    all_gbks, all_items_of, all_iterables, all_kvs, all_primitives, is_gbk_of, is_kv_of,
    is_primitive_of, item_type, item_type_from, items_in, items_of, layout_of, primitive_type,
    table_name, table_named, table_names_differ, type_of_record, LayoutV, RecordTableSchema,
    TableType,
};
use vstd::prelude::*;
use vstd::string::*;

verus! {

/// Whether a column of that type is the one for the value: texts as UTF-8, bytes as binary
/// data, numbers as numbers of 64 bits, truth values as such, and nothing as nulls.
pub open spec fn suits(p: PrimitiveV, t: TypeV) -> bool {
    ||| p is String && t is Utf8
    ||| p is Bytes && t is Binary
    ||| p is Int64 && t is Int64
    ||| p is Float64 && t is Float64
    ||| p is Bool && t is Boolean
    ||| p is Void && t is Null
}

/// Whether the record is a primitive value for a column of that type.
pub open spec fn is_value_for(r: RecordV, t: TypeV) -> bool {
    r matches RecordV::Primitive(p) && suits(p, t)
}

/// Whether every item is a primitive value for a column of that type.
pub open spec fn are_values_for(list: Seq<RecordV>, t: TypeV) -> bool {
    forall|j: int| 0 <= j < list.len() ==> is_value_for(#[trigger] list[j], t)
}

/// Every value has one type, and it is the one for it.
pub proof fn values_have_one_type(p: PrimitiveV, t: TypeV)
    ensures
        primitive_type(p) == t <==> suits(p, t),
{
}

/// Whether the record fits into a row of a table with that layout.
pub open spec fn fits(r: RecordV, l: LayoutV) -> bool {
    match r {
        RecordV::Primitive(_) => l.table_type == TableType::Primitive && l.fields.len() == 1
            && is_value_for(r, l.fields[0].data_type),
        RecordV::Iterable(list) => l.table_type == TableType::Iterable && l.fields.len() == 1 && (
        l.fields[0].data_type matches TypeV::List(item, _) && are_values_for(list, *item)),
        RecordV::Kv(key, value) => l.table_type == TableType::Kv && l.fields.len() == 2 && suits(
            key,
            l.fields[0].data_type,
        ) && is_value_for(*value, l.fields[1].data_type),
        RecordV::Gbk(key, list) => l.table_type == TableType::Gbk && l.fields.len() == 2 && suits(
            key,
            l.fields[0].data_type,
        ) && (l.fields[1].data_type matches TypeV::List(item, _) && are_values_for(list, *item)),
        RecordV::Tuple(_) => false,
    }
}

/// Whether that is the `value` column, behind the `key` column where there is one. Lists may
/// be missing, and so may the items of lists of nothing.
pub open spec fn is_headed(l: LayoutV) -> bool {
    let value = l.fields.last();
    &&& value.name == "value"@
    &&& value.nullable == (value.data_type is List)
    &&& value.data_type matches TypeV::List(item, nullable) ==> nullable == (*item is Null)
    &&& l.fields.len() == 2 ==> l.fields[0].name == "key"@ && !l.fields[0].nullable
}

proof fn items_suit(list: Seq<RecordV>, t: TypeV)
    ensures
        items_of(list, t) <==> are_values_for(list, t),
{
    assert forall|j: int| 0 <= j < list.len() implies (is_primitive_of(#[trigger] list[j], t)
        <==> is_value_for(list[j], t)) by {
        if let RecordV::Primitive(p) = list[j] {
            values_have_one_type(p, t);
        }
    }
    if items_of(list, t) {
        assert forall|j: int| 0 <= j < list.len() implies is_value_for(#[trigger] list[j], t) by {
            assert(is_primitive_of(list[j], t));
        }
    }
    if are_values_for(list, t) {
        assert forall|j: int| 0 <= j < list.len() implies is_primitive_of(
            #[trigger] list[j],
            t,
        ) by {
            assert(is_value_for(list[j], t));
        }
    }
}

/// Every record fits into the layout that is derived from the records, and the columns of
/// the layout are headed `key` and `value`.
pub proof fn records_fit_their_layout(records: Seq<RecordV>, i: int)
    requires
        layout_of(records) is Some,
        0 <= i < records.len(),
    ensures
        fits(records[i], layout_of(records)->Some_0),
        is_headed(layout_of(records)->Some_0),
{
    let l = layout_of(records)->Some_0;
    let r = records[i];
    match records[0] {
        RecordV::Primitive(p) => {
            assert(is_primitive_of(r, primitive_type(p)));
            values_have_one_type(r->Primitive_0, primitive_type(p));
        },
        RecordV::Iterable(_) => {
            assert(r is Iterable);
            assert(items_of(items_in(r), item_type(records)));
            items_suit(items_in(r), item_type(records));
        },
        RecordV::Kv(key, value) => {
            assert(is_kv_of(r, primitive_type(key), type_of_record(*value)));
        },
        RecordV::Gbk(key, _) => {
            assert(is_gbk_of(r, primitive_type(key)));
            assert(items_of(items_in(r), item_type(records)));
            items_suit(items_in(r), item_type(records));
        },
        RecordV::Tuple(_) => {},
    }
}

/// The type of the items is one that all items have, if there is such a type.
proof fn item_type_is_found(records: Seq<RecordV>, t: TypeV, i: int)
    requires
        0 <= i <= records.len(),
        all_items_of(records, t),
    ensures
        all_items_of(records.skip(i), item_type_from(records, i)),
    decreases records.len() - i,
{
    let found = item_type_from(records, i);
    if i < records.len() {
        let list = items_in(records[i]);
        assert(items_of(list, t));
        if list.len() > 0 {
            assert(is_primitive_of(list[0], t));
            assert(found == t);
            assert forall|k: int| 0 <= k < records.skip(i).len() implies items_of(
                items_in(#[trigger] records.skip(i)[k]),
                found,
            ) by {
                assert(records.skip(i)[k] == records[i + k]);
            }
        } else {
            item_type_is_found(records, t, i + 1);
            assert forall|k: int| 0 <= k < records.skip(i).len() implies items_of(
                items_in(#[trigger] records.skip(i)[k]),
                found,
            ) by {
                if k > 0 {
                    assert(records.skip(i)[k] == records.skip(i + 1)[k - 1]);
                } else {
                    assert(records.skip(i)[0] == records[i]);
                }
            }
        }
    }
}

/// Records that all fit into one layout have a layout, of that kind.
pub proof fn uniform_records_have_a_layout(records: Seq<RecordV>, l: LayoutV)
    requires
        records.len() > 0,
        forall|i: int| 0 <= i < records.len() ==> fits(#[trigger] records[i], l),
    ensures
        layout_of(records) is Some,
        layout_of(records)->Some_0.table_type == l.table_type,
{
    let first = records[0];
    assert(fits(first, l));
    let last = l.fields.last().data_type;
    assert forall|i: int| 0 <= i < records.len() implies same_kind(#[trigger] records[i], first) by {
        assert(fits(records[i], l));
    }
    if first is Iterable || first is Gbk {
        let t = *last->List_0;
        assert forall|i: int| 0 <= i < records.len() implies items_of(
            items_in(#[trigger] records[i]),
            t,
        ) by {
            assert(fits(records[i], l));
            items_suit(items_in(records[i]), t);
        }
        item_type_is_found(records, t, 0);
        assert(records.skip(0) =~= records);
    }
    match first {
        RecordV::Primitive(p) => {
            assert forall|i: int| 0 <= i < records.len() implies is_primitive_of(
                #[trigger] records[i],
                primitive_type(p),
            ) by {
                assert(fits(records[i], l));
            }
            assert(all_primitives(records, primitive_type(p)));
        },
        RecordV::Iterable(_) => {
            assert(all_iterables(records)) by {
                assert forall|i: int| 0 <= i < records.len() implies (
                #[trigger] records[i]) is Iterable by {
                    assert(same_kind(records[i], first));
                }
            }
        },
        RecordV::Kv(key, value) => {
            let v = type_of_record(*value);
            assert forall|i: int| 0 <= i < records.len() implies is_kv_of(
                #[trigger] records[i],
                primitive_type(key),
                v,
            ) by {
                assert(fits(records[i], l));
            }
            assert(all_kvs(records, primitive_type(key), v));
        },
        RecordV::Gbk(key, _) => {
            assert forall|i: int| 0 <= i < records.len() implies is_gbk_of(
                #[trigger] records[i],
                primitive_type(key),
            ) by {
                assert(fits(records[i], l));
            }
            assert(all_gbks(records, primitive_type(key)));
        },
        RecordV::Tuple(_) => {},
    }
}

/// Whether the two are records of one kind.
pub open spec fn same_kind(a: RecordV, b: RecordV) -> bool {
    ||| a is Primitive && b is Primitive
    ||| a is Iterable && b is Iterable
    ||| a is Tuple && b is Tuple
    ||| a is Kv && b is Kv
    ||| a is Gbk && b is Gbk
}

/// Two records of which no layout holds both keep the records from having one; and without
/// records there is none.
pub proof fn mixed_records_have_none(records: Seq<RecordV>, i: int, j: int)
    ensures
        records.len() == 0 ==> layout_of(records) is None,
        0 <= i < records.len() && 0 <= j < records.len() && !same_kind(records[i], records[j])
            ==> layout_of(records) is None,
        0 <= i < records.len() && records[i] is Tuple ==> layout_of(records) is None,
{
    if layout_of(records) is Some {
        if 0 <= i < records.len() {
            records_fit_their_layout(records, i);
        }
        if 0 <= j < records.len() {
            records_fit_their_layout(records, j);
        }
    }
}

/// The columns that are written for some records hold, row by row, the key in the first
/// column where there is one, and in the last the value or the values of the list in order.
pub proof fn columns_hold_the_parts(
    columns: Seq<Column>,
    t: TableType,
    records: Seq<RecordV>,
    i: int,
)
    requires
        columns_hold(columns, t, records),
        all_belong(records, t),
        0 <= i < records.len(),
    ensures
        match records[i] {
            RecordV::Primitive(p) => columns.len() == 1 && columns[0].primitive_at(i) == Some(p),
            RecordV::Iterable(list) => columns.len() == 1 && is_row_of(columns[0], i, list),
            RecordV::Kv(key, value) => columns.len() == 2 && columns[0].primitive_at(i) == Some(key)
                && *value == RecordV::Primitive(columns[1].primitive_at(i)->Some_0)
                && columns[1].primitive_at(i) is Some,
            RecordV::Gbk(key, list) => columns.len() == 2 && columns[0].primitive_at(i) == Some(
                key,
            ) && is_row_of(columns[1], i, list),
            RecordV::Tuple(_) => false,
        },
{
    assert(belongs(records[i], t));
    let keys = keys_of(records);
    let values = values_of(records);
    let lists = lists_in(records);
    if keyed(t) {
        assert(columns[0].primitive_at(i) == Some(keys[i]));
    }
    if listed(t) {
        assert(columns.last().list_at(i) == Some(primitives_in(lists[i])));
    } else {
        assert(columns.last().primitive_at(i) == Some(values[i]));
    }
}

/// Whether the row of a column of lists holds the values of a list, in order.
pub open spec fn is_row_of(column: Column, i: int, list: Seq<RecordV>) -> bool {
    column.list_at(i) matches Some(row) && row.len() == list.len() && forall|j: int|
        0 <= j < list.len() ==> #[trigger] row[j] == list[j]->Primitive_0
}

/// A row that is missing is read as nothing, or as a list without items.
pub proof fn missing_rows_are_read(column: Column, t: TypeV, i: int)
    requires
        column.missing(i),
    ensures
        primitive_as(column, t, i) == Some(PrimitiveV::Void),
        t is List ==> list_as(column, t, i) == Some(Seq::<PrimitiveV>::empty()),
{
}

/// The kinds of tables have the names `primitive`, `iterable`, `kv` and `gbk`; the kind of
/// a name is the one that has it.
pub proof fn tables_are_named(t: TableType)
    ensures
        table_name(TableType::Primitive) == "primitive"@,
        table_name(TableType::Iterable) == "iterable"@,
        table_name(TableType::Kv) == "kv"@,
        table_name(TableType::Gbk) == "gbk"@,
        table_named(table_name(t)) == Some(t),
{
    table_names_differ(t, TableType::Primitive);
    table_names_differ(t, TableType::Iterable);
    table_names_differ(t, TableType::Kv);
    table_names_differ(t, TableType::Gbk);
}

/// In the name of a table a slash, a dot, a space or a bracket of a collection's id is an
/// underscore, and every other character stands as it is.
pub proof fn names_keep_other_characters(id: Seq<char>, i: int)
    requires
        0 <= i < id.len(),
    ensures
        id[i] == '/' || id[i] == '.' || id[i] == ' ' || id[i] == '(' || id[i] == ')'
            ==> sanitized(id)[i] == '_',
        id[i] != '/' && id[i] != '.' && id[i] != ' ' && id[i] != '(' && id[i] != ')'
            ==> sanitized(id)[i] == id[i],
{
}

/// A collection keeps the layout that it has, whatever is written to it later; the first
/// elements settle it.
pub proof fn first_write_settles_the_layout(
    layouts: Map<Seq<char>, RecordTableSchema>,
    id: Seq<char>,
    elements: Seq<RecordV>,
)
    ensures
        layouts.contains_key(id) ==> layout_for(layouts, id, elements) == Some(
            layouts[id].model(),
        ),
        !layouts.contains_key(id) && layout_for(layouts, id, elements) is Some
            && elements.len() > 0 ==> fits(elements[0], layout_for(layouts, id, elements)->Some_0),
        !layouts.contains_key(id) && elements.len() == 0 ==> layout_for(layouts, id, elements)
            is None,
{
    if layout_of(elements) is Some && elements.len() > 0 {
        records_fit_their_layout(elements, 0);
    }
}

} // verus!
