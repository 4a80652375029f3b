//! What the coder of rows writes.
use crate::coders::laws::{
    is_varint_of, is_word_of, value256, varint_is_base_128, words_are_big_endian,
};
use crate::coders::row::{
    bitmap_marks, emit_entries, emit_fields, emit_item, emit_items, emit_row, emit_value, has_nulls,
    null_at, null_bitmap, order_covers, row_header, schema_wf, unsigned16, vec_len_bound, EntryV,
    FieldV,
};
use crate::coders::schema::{
    fields_of, order_of, schema_of, type_of, written_before, BeamField, BeamFieldType, BeamSchema,
    BeamTypeKind, FieldMsgV, InfoV, SchemaV, TypeV,
};
use crate::coders::wire::{big_endian, big_endian_len, unsigned64, varint};
use vstd::arithmetic::power::pow;
use vstd::prelude::*;
use vstd::string::*;
use vstd::utf8::*;

verus! {

/// Whether these are the bytes of a content behind their number.
pub open spec fn is_sized(b: Seq<u8>, content: Seq<u8>) -> bool {
    exists|n: int| #[trigger] is_cut_at(b, content, n)
}

/// Whether the content stands from that place on, and its length before it.
pub open spec fn is_cut_at(b: Seq<u8>, content: Seq<u8>, n: int) -> bool {
    0 <= n <= b.len() && is_varint_of(b.take(n), content.len() as int) && b.skip(n) == content
}

proof fn prefixed_is_sized(content: Seq<u8>)
    ensures
        is_sized(varint(content.len()) + content, content),
{
    let b = varint(content.len()) + content;
    let n = varint(content.len()).len() as int;
    varint_is_base_128(content.len());
    assert(b.take(n) =~= varint(content.len()));
    assert(b.skip(n) =~= content);
    assert(is_cut_at(b, content, n));
}

/// Whether a value without parts is one of that kind of type.
pub open spec fn is_of_kind(k: BeamTypeKind, v: FieldV) -> bool {
    match v {
        FieldV::Byte(_) => k is Byte,
        FieldV::Int16(_) => k is Int16,
        FieldV::Int32(_) => k is Int32,
        FieldV::Int64(_) => k is Int64,
        FieldV::Float(_) => k is Float,
        FieldV::Double(_) => k is Double,
        FieldV::String(_) => k is String,
        FieldV::Boolean(_) => k is Boolean,
        FieldV::Bytes(_) => k is Bytes,
        _ => false,
    }
}

/// Whether these bytes stand for a value without parts: a byte and the words as what they are
/// in two's complement, the greatest byte first; the longer integers in variable length, of
/// 64 bits; texts and bytes behind their lengths.
pub open spec fn stands_for_value(b: Seq<u8>, v: FieldV) -> bool {
    match v {
        FieldV::Byte(x) => is_word_of(b, 1, if x < 0 {
            x + 0x100
        } else {
            x as int
        }),
        FieldV::Int16(x) => is_word_of(b, 2, if x < 0 {
            x + 0x1_0000
        } else {
            x as int
        }),
        FieldV::Int32(x) => is_varint_of(b, if x < 0 {
            x + 0x1_0000_0000_0000_0000
        } else {
            x as int
        }),
        FieldV::Int64(x) => is_varint_of(b, if x < 0 {
            x + 0x1_0000_0000_0000_0000
        } else {
            x as int
        }),
        FieldV::Float(x) => is_word_of(b, 4, x as int),
        FieldV::Double(x) => is_word_of(b, 8, x as int),
        FieldV::String(x) => is_sized(b, encode_utf8(x)),
        FieldV::Boolean(x) => b.len() == 1 && b[0] == if x {
            1int
        } else {
            0int
        },
        FieldV::Bytes(x) => is_sized(b, x),
        _ => false,
    }
}

/// A value without parts is written if and only if it is of the type, and then as the bytes
/// that stand for it.
pub proof fn values_are_written(t: BeamFieldType, v: FieldV)
    requires
        t.kind is Byte || t.kind is Int16 || t.kind is Int32 || t.kind is Int64 || t.kind is Float
            || t.kind is Double || t.kind is String || t.kind is Boolean || t.kind is Bytes,
    ensures
        emit_value(t, v).ok <==> is_of_kind(t.kind, v),
        emit_value(t, v).ok ==> stands_for_value(emit_value(t, v).bytes, v),
{
    assert(pow(256, 1) == 0x100 && pow(256, 2) == 0x1_0000 && pow(256, 4) == 0x1_0000_0000 && pow(
        256,
        8,
    ) == 0x1_0000_0000_0000_0000) by {
        reveal_with_fuel(pow, 9);
    }
    if is_of_kind(t.kind, v) {
        match v {
            FieldV::Byte(x) => {
                let b = emit_value(t, v).bytes;
                assert(b.drop_last() =~= seq![]);
                assert(value256(b.drop_last()) == 0);
            },
            FieldV::Int16(x) => {
                words_are_big_endian(unsigned16(x) as nat, 2);
            },
            FieldV::Int32(x) => {
                varint_is_base_128(unsigned64(x as i64) as nat);
            },
            FieldV::Int64(x) => {
                varint_is_base_128(unsigned64(x) as nat);
            },
            FieldV::Float(x) => {
                words_are_big_endian(x as nat, 4);
            },
            FieldV::Double(x) => {
                words_are_big_endian(x as nat, 8);
            },
            FieldV::String(x) => {
                prefixed_is_sized(encode_utf8(x));
            },
            FieldV::Bytes(x) => {
                prefixed_is_sized(x);
            },
            _ => {},
        }
    }
}

/// A list is written as its length, in four bytes, and its items; an iterable and a map are
/// written likewise. A value of another kind is refused.
pub proof fn lists_are_counted(t: BeamFieldType, v: FieldV)
    requires
        t.kind is Array || t.kind is Iterable || t.kind is BeamMap,
        emit_value(t, v).ok,
    ensures
        t.kind is Array ==> v is Array,
        t.kind is Iterable ==> v is Iterable,
        t.kind is BeamMap ==> v is BeamMap,
        emit_value(t, v).bytes.len() >= 4,
        v matches FieldV::Array(s) ==> s.len() < 0x1_0000_0000 ==> is_word_of(
            emit_value(t, v).bytes.take(4),
            4,
            s.len() as int,
        ),
        v matches FieldV::Iterable(s) ==> s.len() < 0x1_0000_0000 ==> is_word_of(
            emit_value(t, v).bytes.take(4),
            4,
            s.len() as int,
        ),
        v matches FieldV::BeamMap(s) ==> s.len() < 0x1_0000_0000 ==> is_word_of(
            emit_value(t, v).bytes.take(4),
            4,
            s.len() as int,
        ),
        v matches FieldV::Array(s) ==> emit_value(t, v).bytes.skip(4) == emit_items(
            *t.kind->Array_0,
            s,
        ).bytes,
        v matches FieldV::Iterable(s) ==> emit_value(t, v).bytes.skip(4) == emit_items(
            *t.kind->Iterable_0,
            s,
        ).bytes,
        v matches FieldV::BeamMap(s) ==> emit_value(t, v).bytes.skip(4) == emit_entries(
            t,
            s,
        ).bytes,
{
    let n: nat = match v {
        FieldV::Array(s) => s.len(),
        FieldV::Iterable(s) => s.len(),
        FieldV::BeamMap(s) => s.len(),
        _ => 0,
    };
    big_endian_len(n, 4);
    let rest = match v {
        FieldV::Array(s) => emit_items(*t.kind->Array_0, s).bytes,
        FieldV::Iterable(s) => emit_items(*t.kind->Iterable_0, s).bytes,
        FieldV::BeamMap(s) => emit_entries(t, s).bytes,
        _ => seq![],
    };
    let b = emit_value(t, v).bytes;
    assert(b == big_endian(n, 4) + rest);
    assert(b.take(4) =~= big_endian(n, 4));
    assert(b.skip(4) =~= rest);
    if n < 0x1_0000_0000 {
        assert(pow(256, 4) == 0x1_0000_0000) by {
            reveal_with_fuel(pow, 5);
        }
        words_are_big_endian(n, 4);
    }
}

/// Items are written one after the other: what is written for two lists behind each other is
/// what is written for each.
pub proof fn items_follow_each_other(
    t: BeamFieldType,
    a: Seq<Option<FieldV>>,
    b: Seq<Option<FieldV>>,
)
    ensures
        emit_items(t, a + b).ok <==> emit_items(t, a).ok && emit_items(t, b).ok,
        emit_items(t, a).ok && emit_items(t, b).ok ==> emit_items(t, a + b).bytes == emit_items(
            t,
            a,
        ).bytes + emit_items(t, b).bytes,
    decreases a.len(),
{
    if a.len() == 0 {
        assert(a + b =~= b);
        assert(emit_items(t, a).bytes + emit_items(t, b).bytes =~= emit_items(t, b).bytes);
    } else {
        items_follow_each_other(t, a.skip(1), b);
        assert((a + b).skip(1) =~= a.skip(1) + b);
        assert((a + b)[0] == a[0]);
        if emit_items(t, a).ok && emit_items(t, b).ok {
            let one = emit_item(t, a[0]).bytes;
            let more = emit_items(t, a.skip(1)).bytes;
            let last = emit_items(t, b).bytes;
            assert(one + (more + last) =~= (one + more) + last);
        }
    }
}

/// A single item is written as its value; where items may be null, behind a byte that is not
/// zero, and a null as a zero. Where they may not, a null is refused.
pub proof fn items_are_marked(t: BeamFieldType, v: Option<FieldV>)
    ensures
        emit_items(t, seq![v]).ok <==> match v {
            Some(x) => emit_value(t, x).ok,
            None => t.nullable,
        },
        v matches Some(x) && emit_value(t, x).ok ==> emit_items(t, seq![v]).bytes == (
        if t.nullable {
            seq![1u8]
        } else {
            seq![]
        }) + emit_value(t, v->Some_0).bytes,
        v is None && t.nullable ==> emit_items(t, seq![v]).bytes == seq![0u8],
{
    reveal_with_fuel(emit_items, 2);
    let s = seq![v];
    assert(s.skip(1) =~= seq![]);
    assert(emit_items(t, s.skip(1)).bytes =~= seq![]);
    let item = emit_item(t, v);
    assert(item.bytes + seq![] =~= item.bytes);
    if v is Some {
        let w = emit_value(t, v->Some_0).bytes;
        assert(Seq::<u8>::empty() + w =~= w);
    }
}

/// The entries of a map are written one after the other, each with its key before its value.
pub proof fn entries_follow_each_other(t: BeamFieldType, s: Seq<EntryV>)
    requires
        t.kind is BeamMap,
        s.len() > 0,
        emit_entries(t, s).ok,
    ensures
        emit_entries(t, s).bytes == emit_item(*t.kind->BeamMap_0, s[0].key).bytes + emit_item(
            *t.kind->BeamMap_1,
            s[0].value,
        ).bytes + emit_entries(t, s.skip(1)).bytes,
        emit_item(*t.kind->BeamMap_0, s[0].key).ok,
        emit_item(*t.kind->BeamMap_1, s[0].value).ok,
        emit_entries(t, s.skip(1)).ok,
{
}

/// A value of a logical type is written as the value that it stands for.
pub proof fn logical_values_are_bare(t: BeamFieldType, v: FieldV)
    requires
        t.kind is Logical,
    ensures
        v matches FieldV::Logical(inner) ==> emit_value(t, v) == emit_value(
            *t.kind->repr,
            *inner,
        ),
        !(v is Logical) ==> emit_value(t, v) == emit_value(*t.kind->repr, v),
{
}

/// The bit of a field's place, in a byte for every eight places, says whether it is null.
pub proof fn nulls_are_marked(order: Seq<usize>, row: Seq<Option<FieldV>>, pos: int)
    requires
        0 <= pos < order.len(),
    ensures
        null_bitmap(order, row).len() == (order.len() + 7) / 8,
        (null_bitmap(order, row)[pos / 8] as int / pow(2, (pos % 8) as nat)) % 2 == 1
            <==> row[order[pos] as int] is None,
{
    bitmap_marks(order, row, pos);
    assert(pow(2, 0) == 1 && pow(2, 1) == 2 && pow(2, 2) == 4 && pow(2, 3) == 8 && pow(2, 4) == 16
        && pow(2, 5) == 32 && pow(2, 6) == 64 && pow(2, 7) == 128) by {
        reveal_with_fuel(pow, 8);
    }
    let k = pos % 8;
    assert(k == 0 || k == 1 || k == 2 || k == 3 || k == 4 || k == 5 || k == 6 || k == 7);
}

/// Whether these bytes are the number of fields and, behind its length, a bitmap.
pub open spec fn is_header(h: Seq<u8>, fields: int, bitmap: Seq<u8>) -> bool {
    exists|n: int| #[trigger] is_header_at(h, fields, bitmap, n)
}

/// Whether the number of fields ends at that place, and the bitmap follows.
pub open spec fn is_header_at(h: Seq<u8>, fields: int, bitmap: Seq<u8>, n: int) -> bool {
    0 <= n <= h.len() && is_varint_of(h.take(n), fields) && is_sized(h.skip(n), bitmap)
}

/// A row has as many fields as the schema. It is written as that number, the bitmap of its
/// nulls, which is empty where there are none, and the fields.
pub proof fn rows_have_headers(schema: BeamSchema, row: Seq<Option<FieldV>>)
    requires
        schema_wf(schema),
        emit_row(schema, row).ok,
    ensures
        row.len() == schema.fields@.len(),
        ({
            let bytes = emit_row(schema, row).bytes;
            let rest = emit_fields(schema, row, 0).bytes;
            let bitmap = if exists|i: int| 0 <= i < row.len() && (#[trigger] row[i]) is None {
                null_bitmap(schema.encode_order@, row)
            } else {
                seq![]
            };
            &&& rest.len() <= bytes.len()
            &&& bytes.skip(bytes.len() - rest.len()) == rest
            &&& is_header(bytes.take(bytes.len() - rest.len()), row.len() as int, bitmap)
        }),
{
    let order = schema.encode_order@;
    let bytes = emit_row(schema, row).bytes;
    let rest = emit_fields(schema, row, 0).bytes;
    let h = row_header(order, row);
    let bitmap = if has_nulls(order, row) {
        null_bitmap(order, row)
    } else {
        Seq::<u8>::empty()
    };
    assert(has_nulls(order, row) <==> exists|i: int|
        0 <= i < row.len() && (#[trigger] row[i]) is None) by {
        if has_nulls(order, row) {
            let pos = choose|pos: int| 0 <= pos < order.len() && #[trigger] null_at(order, row, pos);
            assert(row[order[pos] as int] is None);
        }
        if exists|i: int| 0 <= i < row.len() && (#[trigger] row[i]) is None {
            let i = choose|i: int| 0 <= i < row.len() && (#[trigger] row[i]) is None;
            order_covers(order, row.len(), i);
            let q = choose|q: int| 0 <= q < row.len() && order[q] == i;
            assert(null_at(order, row, q));
        }
    }
    assert(bytes == h + rest);
    assert(bytes.skip(bytes.len() - rest.len()) =~= rest);
    assert(bytes.take(bytes.len() - rest.len()) =~= h);
    let n = varint(row.len()).len() as int;
    varint_is_base_128(row.len());
    prefixed_is_sized(bitmap);
    assert(h =~= varint(row.len()) + (varint(bitmap.len()) + bitmap));
    assert(h.take(n) =~= varint(row.len()));
    assert(h.skip(n) =~= varint(bitmap.len()) + bitmap);
    assert(is_header_at(h, row.len() as int, bitmap, n));
}

/// The fields that are not null are written in the order of the schema, each as its value; a
/// null field must be one that may be null, and nothing is written for it.
pub proof fn fields_follow_in_order(schema: BeamSchema, row: Seq<Option<FieldV>>, pos: nat)
    requires
        schema_wf(schema),
        row.len() == schema.fields@.len(),
        pos < row.len(),
        emit_fields(schema, row, pos).ok,
    ensures
        emit_fields(schema, row, pos + 1).ok,
        ({
            let i = schema.encode_order@[pos as int] as int;
            match row[i] {
                Some(v) => emit_value(schema.fields@[i].field_type, v).ok && emit_fields(
                    schema,
                    row,
                    pos,
                ).bytes == emit_value(schema.fields@[i].field_type, v).bytes + emit_fields(
                    schema,
                    row,
                    pos + 1,
                ).bytes,
                None => schema.fields@[i].field_type.nullable && emit_fields(schema, row, pos).bytes
                    == emit_fields(schema, row, pos + 1).bytes,
            }
        }),
{
    let i = schema.encode_order@[pos as int] as int;
    assert(schema.encode_order@[pos as int] < schema.fields@.len());
    if row[i] is None {
        let b = emit_fields(schema, row, pos + 1).bytes;
        assert(Seq::<u8>::empty() + b =~= b);
    }
}

/// The kinds of types without parts have the numbers of the Beam model, and a type may be null
/// if and only if it is stated so.
pub proof fn kinds_are_numbered(m: TypeV, t: BeamFieldType, a: i32)
    requires
        type_of(m, t),
        m.type_info == Some(InfoV::Atomic(a)),
    ensures
        t.nullable == m.nullable,
        1 <= a <= 9,
        a == 1 <==> t.kind is Byte,
        a == 2 <==> t.kind is Int16,
        a == 3 <==> t.kind is Int32,
        a == 4 <==> t.kind is Int64,
        a == 5 <==> t.kind is Float,
        a == 6 <==> t.kind is Double,
        a == 7 <==> t.kind is String,
        a == 8 <==> t.kind is Boolean,
        a == 9 <==> t.kind is Bytes,
{
}

proof fn field_is_of(m: Seq<FieldMsgV>, fields: Vec<BeamField>, i: nat, k: int)
    requires
        fields_of(m, fields, i),
        i <= k < fields@.len(),
    ensures
        fields@[k].name@ == m[k].name,
        m[k].field_type is Some,
        type_of(m[k].field_type->0, fields@[k].field_type),
    decreases k - i,
{
    if i < k {
        field_is_of(m, fields, i + 1, k);
    }
}

/// A resolved schema has the stated fields, in the stated order and under their names. They
/// are written in that order or, where positions are set, from the least position on.
pub proof fn schemas_keep_their_fields(m: SchemaV, s: BeamSchema, k: int, a: int, b: int)
    requires
        schema_of(m, s),
        0 <= k < m.fields.len(),
        0 <= a < b < m.fields.len(),
    ensures
        s.fields@.len() == m.fields.len(),
        s.fields@[k].name@ == m.fields[k].name,
        m.fields[k].field_type is Some,
        type_of(m.fields[k].field_type->0, s.fields@[k].field_type),
        !m.encoding_positions_set ==> s.encode_order@[k] == k,
        m.encoding_positions_set ==> m.fields[s.encode_order@[a] as int].encoding_position
            <= m.fields[s.encode_order@[b] as int].encoding_position,
{
    field_is_of(m.fields, s.fields, 0, k);
    vec_len_bound(s.fields);
    assert(order_of(m, s.encode_order@));
    if m.encoding_positions_set {
        assert(written_before(m.fields, s.encode_order@[a] as int, s.encode_order@[b] as int));
    }
}

} // verus!
