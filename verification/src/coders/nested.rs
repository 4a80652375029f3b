//! The wire form of a record under a coder.
use crate::coders::primitives::{NullableCoder, TupleCoder};
use crate::coders::wire::{
    big_endian, encode_signed_varint, encode_varint, parse_i32, parse_prefixed,
    parse_signed_varint, parse_text, parse_u64, parse_varint, prefixed, put_i32, put_prefixed,
    put_u64, read_i32, read_prefixed, read_signed_varint, read_text, read_u64, read_varint,
    signed32, step_is, to_signed32, to_unsigned32, unsigned32, unsigned64, varint, Parse, Step,
};
use crate::coders::StandardBeamCoders;
use crate::store::record::{
    primitives_model, record_model, records_model, BeamGbk, BeamKV, BeamRecord, IterableValue,
    PrimitiveV, PrimitiveValue, RecordV, TupleValue,
};
use crate::text::{around_decimal, decimal};
use vstd::prelude::*;
use vstd::string::*;
use vstd::utf8::*;

verus! {

// ---------------------------------------------------------------------------
// Which records a coder can write, and as what
// ---------------------------------------------------------------------------
/// Whether the coder writes this primitive value by itself.
pub open spec fn can_encode_primitive(c: StandardBeamCoders, p: PrimitiveV) -> bool {
    match (c, p) {
        (StandardBeamCoders::StringUtf8(_), PrimitiveV::String(_)) => true,
        (StandardBeamCoders::Bytes(_), PrimitiveV::Bytes(_)) => true,
        (StandardBeamCoders::VarInt(_), PrimitiveV::Int64(_)) => true,
        (StandardBeamCoders::VarInt32(_), PrimitiveV::Int64(v)) => i32::MIN <= v <= i32::MAX,
        (StandardBeamCoders::Bool(_), PrimitiveV::Bool(_)) => true,
        (StandardBeamCoders::Double(_), PrimitiveV::Float64(_)) => true,
        (StandardBeamCoders::Void(_), PrimitiveV::Void) => true,
        (StandardBeamCoders::Pickle(_), PrimitiveV::Bytes(_)) => true,
        (StandardBeamCoders::LengthPrefix(_), PrimitiveV::Bytes(_)) => true,
        _ => false,
    }
}

/// The wire form of a primitive value that `can_encode_primitive` admits.
pub open spec fn wire_primitive(c: StandardBeamCoders, p: PrimitiveV) -> Seq<u8> {
    match (c, p) {
        (StandardBeamCoders::StringUtf8(_), PrimitiveV::String(s)) => prefixed(encode_utf8(s)),
        (_, PrimitiveV::Bytes(b)) => prefixed(b),
        (StandardBeamCoders::VarInt(_), PrimitiveV::Int64(v)) => varint(unsigned64(v) as nat),
        (StandardBeamCoders::VarInt32(_), PrimitiveV::Int64(v)) => varint(
            unsigned32(v as i32) as nat,
        ),
        (_, PrimitiveV::Bool(v)) => seq![if v { 1u8 } else { 0u8 }],
        (_, PrimitiveV::Float64(v)) => big_endian(v as nat, 8),
        _ => seq![],
    }
}

/// Whether the coder writes this record.
pub open spec fn can_encode(c: StandardBeamCoders, r: RecordV) -> bool
    decreases c, 0nat, 0nat,
{
    match c {
        StandardBeamCoders::Iterable(ic) => match r {
            RecordV::Iterable(s) => can_encode_list(*ic.element_coder, s),
            _ => false,
        },
        StandardBeamCoders::Tuple(tc) => match r {
            RecordV::Tuple(ps) => ps.len() == tc.component_coders@.len() && can_encode_tuple(
                tc,
                ps,
                0,
            ),
            _ => false,
        },
        StandardBeamCoders::Nullable(nc) => r == RecordV::Primitive(PrimitiveV::Void)
            || can_encode(*nc.value_coder, r),
        StandardBeamCoders::Kv(kc, vc) => match r {
            RecordV::Kv(k, v) => can_encode_primitive(*kc, k) && can_encode(*vc, *v),
            _ => false,
        },
        StandardBeamCoders::Gbk(kc, ic) => match r {
            RecordV::Gbk(k, s) => can_encode_primitive(*kc, k) && can_encode_list(
                *ic.element_coder,
                s,
            ),
            _ => false,
        },
        _ => match r {
            RecordV::Primitive(p) => can_encode_primitive(c, p),
            _ => false,
        },
    }
}

/// Whether a list of these records can be written, each with the coder `e`.
pub open spec fn can_encode_list(e: StandardBeamCoders, s: Seq<RecordV>) -> bool
    decreases e, 1nat, 0nat,
{
    s.len() <= i32::MAX && (forall|i: int| 0 <= i < s.len() ==> can_encode(e, #[trigger] s[i]))
}

/// Whether each component from the `i`th on can be written with its coder.
pub open spec fn can_encode_tuple(tc: TupleCoder, ps: Seq<PrimitiveV>, i: nat) -> bool
    decreases tc, 1nat, tc.component_coders@.len() - i,
{
    i < tc.component_coders@.len() ==> can_encode(
        tc.component_coders[i as int],
        RecordV::Primitive(ps[i as int]),
    ) && can_encode_tuple(tc, ps, i + 1)
}

/// The wire form of a record that `can_encode` admits.
pub open spec fn wire(c: StandardBeamCoders, r: RecordV) -> Seq<u8>
    decreases c, 0nat, 0nat,
{
    match c {
        StandardBeamCoders::Iterable(ic) => match r {
            RecordV::Iterable(s) => wire_list(*ic.element_coder, s),
            _ => seq![],
        },
        StandardBeamCoders::Tuple(tc) => match r {
            RecordV::Tuple(ps) => wire_tuple(tc, ps, 0),
            _ => seq![],
        },
        StandardBeamCoders::Nullable(nc) => if r == RecordV::Primitive(PrimitiveV::Void) {
            seq![0u8]
        } else {
            seq![1u8] + wire(*nc.value_coder, r)
        },
        StandardBeamCoders::Kv(kc, vc) => match r {
            RecordV::Kv(k, v) => wire_primitive(*kc, k) + wire(*vc, *v),
            _ => seq![],
        },
        StandardBeamCoders::Gbk(kc, ic) => match r {
            RecordV::Gbk(k, s) => wire_primitive(*kc, k) + wire_list(*ic.element_coder, s),
            _ => seq![],
        },
        _ => match r {
            RecordV::Primitive(p) => wire_primitive(c, p),
            _ => seq![],
        },
    }
}

/// A list: the number of its items as a 32-bit word, then each item.
pub open spec fn wire_list(e: StandardBeamCoders, s: Seq<RecordV>) -> Seq<u8>
    decreases e, 2nat, 0nat,
{
    big_endian(s.len(), 4) + wire_all(e, s)
}

/// The items one behind the other.
pub open spec fn wire_all(e: StandardBeamCoders, s: Seq<RecordV>) -> Seq<u8>
    decreases e, 1nat, s.len(),
{
    if s.len() == 0 {
        seq![]
    } else {
        wire(e, s[0]) + wire_all(e, s.skip(1))
    }
}

/// The components from the `i`th on, one behind the other.
pub open spec fn wire_tuple(tc: TupleCoder, ps: Seq<PrimitiveV>, i: nat) -> Seq<u8>
    decreases tc, 1nat, tc.component_coders@.len() - i,
{
    if i < tc.component_coders@.len() {
        wire(tc.component_coders[i as int], RecordV::Primitive(ps[i as int])) + wire_tuple(
            tc,
            ps,
            i + 1,
        )
    } else {
        seq![]
    }
}

/// Whether the lengths in a primitive value can be written.
pub open spec fn primitive_fits(p: PrimitiveV) -> bool {
    match p {
        PrimitiveV::String(s) => encode_utf8(s).len() <= u64::MAX,
        PrimitiveV::Bytes(b) => b.len() <= u64::MAX,
        _ => true,
    }
}

/// Whether the lengths in a record can be written.
pub open spec fn record_fits(r: RecordV) -> bool
    decreases r,
{
    match r {
        RecordV::Primitive(p) => primitive_fits(p),
        RecordV::Iterable(s) => forall|i: int| 0 <= i < s.len() ==> record_fits(#[trigger] s[i]),
        RecordV::Tuple(ps) => forall|i: int| 0 <= i < ps.len() ==> primitive_fits(#[trigger] ps[i]),
        RecordV::Kv(k, v) => primitive_fits(k) && record_fits(*v),
        RecordV::Gbk(k, s) => primitive_fits(k) && forall|i: int|
            0 <= i < s.len() ==> record_fits(#[trigger] s[i]),
    }
}

// ---------------------------------------------------------------------------
// What bytes read as under a coder
// ---------------------------------------------------------------------------
/// The reading of a component that has to be primitive.
pub open spec fn to_primitive(p: Parse<RecordV>) -> Parse<PrimitiveV> {
    match p {
        Parse::Value(RecordV::Primitive(v), n) => Parse::Value(v, n),
        Parse::Value(_, n) => Parse::Fail("excluded other types"@, n),
        Parse::Fail(m, n) => Parse::Fail(m, n),
        Parse::Malformed => Parse::Malformed,
    }
}

/// A 32-bit number written without its sign.
pub open spec fn parse_varint32(b: Seq<u8>) -> Parse<i64> {
    match parse_varint(b) {
        Parse::Value(v, n) => if v < 0x1_0000_0000 {
            Parse::Value(signed32(v as u32) as i64, n)
        } else {
            Parse::Fail(
                "VarInt32Coder: varint value "@ + decimal(v as nat) + " out of 32-bit range"@,
                n,
            )
        },
        p => p.failed::<i64>(),
    }
}

/// A byte that is zero for `false`.
pub open spec fn parse_bool(b: Seq<u8>) -> Parse<bool> {
    if b.len() == 0 {
        Parse::Malformed
    } else {
        Parse::Value(b[0] != 0, 1)
    }
}

/// Why a floating-point number is refused that ends too early.
pub const SHORT_DOUBLE: &'static str = "DoubleCoder: insufficient bytes";

/// The eight bytes of a floating-point number.
pub open spec fn parse_double(b: Seq<u8>) -> Parse<u64> {
    if b.len() < 8 {
        Parse::Fail(SHORT_DOUBLE@, 0)
    } else {
        parse_u64(b)
    }
}

/// What the bytes read as under the coder.
pub open spec fn parse(c: StandardBeamCoders, b: Seq<u8>) -> Parse<RecordV>
    decreases c, 0nat, 0nat,
{
    match c {
        StandardBeamCoders::StringUtf8(_) => parse_text(b).map(
            |s: Seq<char>| RecordV::Primitive(PrimitiveV::String(s)),
        ),
        StandardBeamCoders::Bytes(_) => parse_prefixed(b).map(
            |s: Seq<u8>| RecordV::Primitive(PrimitiveV::Bytes(s)),
        ),
        StandardBeamCoders::VarInt(_) => parse_signed_varint(b).map(
            |v: i64| RecordV::Primitive(PrimitiveV::Int64(v)),
        ),
        StandardBeamCoders::VarInt32(_) => parse_varint32(b).map(
            |v: i64| RecordV::Primitive(PrimitiveV::Int64(v)),
        ),
        StandardBeamCoders::Bool(_) => parse_bool(b).map(
            |v: bool| RecordV::Primitive(PrimitiveV::Bool(v)),
        ),
        StandardBeamCoders::Double(_) => parse_double(b).map(
            |v: u64| RecordV::Primitive(PrimitiveV::Float64(v)),
        ),
        StandardBeamCoders::Void(_) => Parse::Value(RecordV::Primitive(PrimitiveV::Void), 0),
        StandardBeamCoders::Iterable(ic) => parse_list(*ic.element_coder, b).map(
            |s: Seq<RecordV>| RecordV::Iterable(s),
        ),
        StandardBeamCoders::Nullable(nc) => if b.len() == 0 {
            Parse::Malformed
        } else if b[0] == 0 {
            Parse::Value(RecordV::Primitive(PrimitiveV::Void), 1)
        } else if b[0] == 1 {
            parse(*nc.value_coder, b.skip(1)).after(1)
        } else {
            Parse::Fail(
                "NullableCoder: unexpected null indicator byte "@ + decimal(b[0] as nat),
                1,
            )
        },
        StandardBeamCoders::LengthPrefix(_) => parse_prefixed(b).map(
            |s: Seq<u8>| RecordV::Primitive(PrimitiveV::Bytes(s)),
        ),
        StandardBeamCoders::Pickle(_) => parse_prefixed(b).map(
            |s: Seq<u8>| RecordV::Primitive(PrimitiveV::Bytes(s)),
        ),
        StandardBeamCoders::Tuple(tc) => parse_tuple(tc, 0, b).map(
            |s: Seq<PrimitiveV>| RecordV::Tuple(s),
        ),
        StandardBeamCoders::Kv(kc, vc) => match to_primitive(parse(*kc, b)) {
            Parse::Value(k, n) => parse(*vc, b.skip(n as int)).after(n).map(
                |v: RecordV| RecordV::Kv(k, Box::new(v)),
            ),
            p => p.failed::<RecordV>(),
        },
        StandardBeamCoders::Gbk(kc, ic) => match to_primitive(parse(*kc, b)) {
            Parse::Value(k, n) => parse_list(*ic.element_coder, b.skip(n as int)).after(n).map(
                |s: Seq<RecordV>| RecordV::Gbk(k, s),
            ),
            p => p.failed::<RecordV>(),
        },
    }
}

/// A list: a count and that many items, or the count -1 and chunks.
pub open spec fn parse_list(e: StandardBeamCoders, b: Seq<u8>) -> Parse<Seq<RecordV>>
    decreases e, 3nat, 0nat,
{
    match parse_i32(b) {
        Parse::Value(count, n) => if count >= 0 {
            parse_many(e, count as nat, b.skip(n as int)).after(n)
        } else if count == -1 {
            parse_chunks(e, b.skip(n as int)).after(n)
        } else {
            Parse::Malformed
        },
        p => p.failed::<Seq<RecordV>>(),
    }
}

/// `count` items one behind the other.
pub open spec fn parse_many(e: StandardBeamCoders, count: nat, b: Seq<u8>) -> Parse<Seq<RecordV>>
    decreases e, 1nat, count,
{
    if count == 0 {
        Parse::Value(seq![], 0)
    } else {
        match parse(e, b) {
            Parse::Value(v, n) => parse_many(e, (count - 1) as nat, b.skip(n as int)).behind(
                seq![v],
                n,
            ),
            p => p.failed::<Seq<RecordV>>(),
        }
    }
}

/// Chunks of items, each behind its count; a count of zero ends the list.
pub open spec fn parse_chunks(e: StandardBeamCoders, b: Seq<u8>) -> Parse<Seq<RecordV>>
    decreases e, 2nat, b.len(),
{
    match parse_varint(b) {
        Parse::Value(count, k) => if count == 0 {
            Parse::Value(seq![], k)
        } else {
            match parse_many(e, count as nat, b.skip(k as int)) {
                Parse::Value(s, n) => if 1 <= k && k + n <= b.len() {
                    parse_chunks(e, b.skip((k + n) as int)).behind(s, k + n)
                } else {
                    Parse::Malformed
                },
                p => p.after(k),
            }
        },
        p => p.failed::<Seq<RecordV>>(),
    }
}

/// The components from the `i`th on.
pub open spec fn parse_tuple(tc: TupleCoder, i: nat, b: Seq<u8>) -> Parse<Seq<PrimitiveV>>
    decreases tc, 1nat, tc.component_coders@.len() - i,
{
    if i < tc.component_coders@.len() {
        match to_primitive(parse(tc.component_coders[i as int], b)) {
            Parse::Value(v, n) => parse_tuple(tc, i + 1, b.skip(n as int)).behind(seq![v], n),
            p => p.failed::<Seq<PrimitiveV>>(),
        }
    } else {
        Parse::Value(seq![], 0)
    }
}

// ---------------------------------------------------------------------------
// Writing
// ---------------------------------------------------------------------------
/// Appends the wire form of a primitive value.
pub fn encode_primitive(c: &StandardBeamCoders, value: &PrimitiveValue, buf: &mut Vec<u8>)
    requires
        can_encode_primitive(*c, value.model()),
    ensures
        final(buf)@ == old(buf)@ + wire_primitive(*c, value.model()),
{
    let ghost start = buf@;
    match value {
        PrimitiveValue::String(s) => {
            put_prefixed(s.as_str().as_bytes(), buf);
        },
        PrimitiveValue::Bytes(b) => {
            put_prefixed(b.as_slice(), buf);
        },
        PrimitiveValue::Int64(v) => match c {
            StandardBeamCoders::VarInt32(_) => {
                encode_varint(to_unsigned32(*v as i32) as u64, buf);
            },
            _ => {
                encode_signed_varint(*v, buf);
            },
        },
        PrimitiveValue::Bool(v) => {
            buf.push(if *v { 1 } else { 0 });
        },
        PrimitiveValue::Float64(v) => {
            put_u64(*v, buf);
        },
        PrimitiveValue::Void => {
            assert(buf@ =~= start + wire_primitive(*c, value.model()));
        },
    }
}

/// Appends the wire form of a record.
pub fn encode_record(c: &StandardBeamCoders, record: &BeamRecord, buf: &mut Vec<u8>)
    requires
        can_encode(*c, record_model(*record)),
    ensures
        final(buf)@ == old(buf)@ + wire(*c, record_model(*record)),
    decreases c, 0nat,
{
    let ghost start = buf@;
    match c {
        StandardBeamCoders::Nullable(nc) => {
            encode_nullable(nc, record, buf);
        },
        _ => match record {
            BeamRecord::PRIMITIVE(p) => {
                encode_primitive(c, p, buf);
            },
            BeamRecord::ITERABLE(it) => match c {
                StandardBeamCoders::Iterable(ic) => {
                    encode_list(&ic.element_coder, &it.list, buf);
                },
                _ => {},
            },
            BeamRecord::TUPLE(t) => match c {
                StandardBeamCoders::Tuple(tc) => {
                    encode_tuple(tc, &t.values, buf);
                },
                _ => {},
            },
            BeamRecord::KV(kv) => match c {
                StandardBeamCoders::Kv(kc, vc) => {
                    encode_primitive(kc, &kv.key, buf);
                    encode_record(vc, &kv.value, buf);
                    assert(buf@ =~= start + (wire_primitive(**kc, kv.key.model()) + wire(
                        **vc,
                        record_model(*kv.value),
                    )));
                },
                _ => {},
            },
            BeamRecord::GBK(gbk) => match c {
                StandardBeamCoders::Gbk(kc, ic) => {
                    encode_primitive(kc, &gbk.key, buf);
                    encode_list(&ic.element_coder, &gbk.value.list, buf);
                    assert(buf@ =~= start + (wire_primitive(**kc, gbk.key.model()) + wire_list(
                        *ic.element_coder,
                        records_model(gbk.value.list@),
                    )));
                },
                _ => {},
            },
        },
    }
}

/// Appends the wire form of a value that may be missing.
pub fn encode_nullable(nc: &NullableCoder, record: &BeamRecord, buf: &mut Vec<u8>)
    requires
        can_encode(StandardBeamCoders::Nullable(*nc), record_model(*record)),
    ensures
        final(buf)@ == old(buf)@ + wire(StandardBeamCoders::Nullable(*nc), record_model(*record)),
    decreases nc, 1nat,
{
    let ghost start = buf@;
    match record {
        BeamRecord::PRIMITIVE(PrimitiveValue::Void) => {
            buf.push(0);
        },
        _ => {
            buf.push(1);
            encode_record(&nc.value_coder, record, buf);
            assert(buf@ =~= start + (seq![1u8] + wire(*nc.value_coder, record_model(*record))));
        },
    }
}

/// Appends the wire form of a list.
pub fn encode_list(e: &StandardBeamCoders, list: &Vec<BeamRecord>, buf: &mut Vec<u8>)
    requires
        can_encode_list(*e, records_model(list@)),
    ensures
        final(buf)@ == old(buf)@ + wire_list(*e, records_model(list@)),
    decreases e, 1nat,
{
    let ghost all = records_model(list@);
    let ghost start = buf@;
    let n: usize = list.len();
    put_i32(n as i32, buf);
    let ghost headed = buf@;
    let mut i: usize = 0;
    proof {
        assert(all.skip(0) =~= all);
    }
    while i < n
        invariant
            n == list@.len(),
            i <= n,
            all == records_model(list@),
            can_encode_list(*e, all),
            buf@ + wire_all(*e, all.skip(i as int)) == headed + wire_all(*e, all),
        decreases n - i,
    {
        let ghost before = buf@;
        assert(all[i as int] == record_model(list@[i as int]));
        encode_record(e, &list[i], buf);
        proof {
            let here = all.skip(i as int);
            assert(here[0] == all[i as int]);
            assert(here.skip(1) =~= all.skip(i + 1));
            assert(buf@ + wire_all(*e, all.skip(i + 1)) =~= before + (wire(*e, all[i as int])
                + wire_all(*e, all.skip(i + 1))));
        }
        i = i + 1;
    }
    proof {
        assert(wire_all(*e, all.skip(n as int)) =~= seq![]);
        assert(buf@ =~= headed + wire_all(*e, all));
        assert(buf@ =~= start + wire_list(*e, all));
    }
}

/// Appends the components of a tuple.
pub fn encode_tuple(tc: &TupleCoder, values: &Vec<PrimitiveValue>, buf: &mut Vec<u8>)
    requires
        values@.len() == tc.component_coders@.len(),
        can_encode_tuple(*tc, primitives_model(values@), 0),
    ensures
        final(buf)@ == old(buf)@ + wire_tuple(*tc, primitives_model(values@), 0),
    decreases tc, 1nat,
{
    let ghost ps = primitives_model(values@);
    let ghost start = buf@;
    let n: usize = values.len();
    let mut i: usize = 0;
    while i < n
        invariant
            n == values@.len(),
            n == tc.component_coders@.len(),
            i <= n,
            ps == primitives_model(values@),
            can_encode_tuple(*tc, ps, i as nat),
            buf@ + wire_tuple(*tc, ps, i as nat) == start + wire_tuple(*tc, ps, 0),
        decreases n - i,
    {
        let ghost before = buf@;
        let component = BeamRecord::PRIMITIVE(values[i].duplicate());
        encode_record(&tc.component_coders[i], &component, buf);
        proof {
            assert(buf@ + wire_tuple(*tc, ps, (i + 1) as nat) =~= before + (wire(
                tc.component_coders[i as int],
                RecordV::Primitive(ps[i as int]),
            ) + wire_tuple(*tc, ps, (i + 1) as nat)));
        }
        i = i + 1;
    }
    assert(buf@ + wire_tuple(*tc, ps, n as nat) =~= buf@);
}

// ---------------------------------------------------------------------------
// Reading
// ---------------------------------------------------------------------------
/// Reads a 32-bit number written without its sign.
pub fn read_varint32(bytes: &Vec<u8>, at: usize) -> (r: Step<i64>)
    requires
        at <= bytes@.len(),
    ensures
        step_is(r, parse_varint32(bytes@.skip(at as int)), |v: i64| v, bytes@, at),
{
    match read_varint(bytes, at) {
        Step::Value(raw, next) => if raw < 0x1_0000_0000 {
            Step::Value(to_signed32(raw as u32) as i64, next)
        } else {
            Step::Fail(
                around_decimal("VarInt32Coder: varint value ", raw, " out of 32-bit range"),
                next,
            )
        },
        Step::Fail(m, next) => Step::Fail(m, next),
        Step::Malformed => Step::Malformed,
    }
}

/// Reads a byte that is zero for `false`.
pub fn read_bool(bytes: &Vec<u8>, at: usize) -> (r: Step<bool>)
    requires
        at <= bytes@.len(),
    ensures
        step_is(r, parse_bool(bytes@.skip(at as int)), |v: bool| v, bytes@, at),
{
    if at == bytes.len() {
        Step::Malformed
    } else {
        Step::Value(bytes[at] != 0, at + 1)
    }
}

/// Reads the eight bytes of a floating-point number.
pub fn read_double(bytes: &Vec<u8>, at: usize) -> (r: Step<u64>)
    requires
        at <= bytes@.len(),
    ensures
        step_is(r, parse_double(bytes@.skip(at as int)), |v: u64| v, bytes@, at),
{
    if bytes.len() - at < 8 {
        Step::Fail(SHORT_DOUBLE.to_owned(), at)
    } else {
        read_u64(bytes, at)
    }
}

/// The coders that are not made of others.
pub open spec fn is_leaf(c: StandardBeamCoders) -> bool {
    match c {
        StandardBeamCoders::Iterable(_) => false,
        StandardBeamCoders::Nullable(_) => false,
        StandardBeamCoders::Tuple(_) => false,
        StandardBeamCoders::Kv(_, _) => false,
        StandardBeamCoders::Gbk(_, _) => false,
        _ => true,
    }
}

/// Reads a record of a coder that is not made of others.
fn read_leaf(c: &StandardBeamCoders, bytes: &Vec<u8>, at: usize) -> (r: Step<BeamRecord>)
    requires
        at <= bytes@.len(),
        is_leaf(*c),
    ensures
        step_is(
            r,
            parse(*c, bytes@.skip(at as int)),
            |v: BeamRecord| record_model(v),
            bytes@,
            at,
        ),
{
    match c {
        StandardBeamCoders::StringUtf8(_) => match read_text(bytes, at) {
            Step::Value(v, next) => Step::Value(
                BeamRecord::PRIMITIVE(PrimitiveValue::String(v)),
                next,
            ),
            Step::Fail(m, next) => Step::Fail(m, next),
            Step::Malformed => Step::Malformed,
        },
        StandardBeamCoders::Bytes(_) | StandardBeamCoders::LengthPrefix(_)
        | StandardBeamCoders::Pickle(_) => match read_prefixed(bytes, at) {
            Step::Value(v, next) => Step::Value(
                BeamRecord::PRIMITIVE(PrimitiveValue::Bytes(v)),
                next,
            ),
            Step::Fail(m, next) => Step::Fail(m, next),
            Step::Malformed => Step::Malformed,
        },
        StandardBeamCoders::VarInt(_) => match read_signed_varint(bytes, at) {
            Step::Value(v, next) => Step::Value(
                BeamRecord::PRIMITIVE(PrimitiveValue::Int64(v)),
                next,
            ),
            Step::Fail(m, next) => Step::Fail(m, next),
            Step::Malformed => Step::Malformed,
        },
        StandardBeamCoders::VarInt32(_) => match read_varint32(bytes, at) {
            Step::Value(v, next) => Step::Value(
                BeamRecord::PRIMITIVE(PrimitiveValue::Int64(v)),
                next,
            ),
            Step::Fail(m, next) => Step::Fail(m, next),
            Step::Malformed => Step::Malformed,
        },
        StandardBeamCoders::Bool(_) => match read_bool(bytes, at) {
            Step::Value(v, next) => Step::Value(
                BeamRecord::PRIMITIVE(PrimitiveValue::Bool(v)),
                next,
            ),
            Step::Fail(m, next) => Step::Fail(m, next),
            Step::Malformed => Step::Malformed,
        },
        StandardBeamCoders::Double(_) => match read_double(bytes, at) {
            Step::Value(v, next) => Step::Value(
                BeamRecord::PRIMITIVE(PrimitiveValue::Float64(v)),
                next,
            ),
            Step::Fail(m, next) => Step::Fail(m, next),
            Step::Malformed => Step::Malformed,
        },
        StandardBeamCoders::Void(_) => Step::Value(
            BeamRecord::PRIMITIVE(PrimitiveValue::Void),
            at,
        ),
        _ => Step::Malformed,
    }
}

/// Reads a record.
#[verifier::rlimit(60)]
pub fn read_record(c: &StandardBeamCoders, bytes: &Vec<u8>, at: usize) -> (r: Step<BeamRecord>)
    requires
        at <= bytes@.len(),
    ensures
        step_is(
            r,
            parse(*c, bytes@.skip(at as int)),
            |v: BeamRecord| record_model(v),
            bytes@,
            at,
        ),
    decreases c, 0nat,
{
    match c {
        StandardBeamCoders::Iterable(ic) => match read_list(&ic.element_coder, bytes, at) {
            Step::Value(list, next) => Step::Value(
                BeamRecord::ITERABLE(IterableValue { list }),
                next,
            ),
            Step::Fail(m, next) => Step::Fail(m, next),
            Step::Malformed => Step::Malformed,
        },
        StandardBeamCoders::Nullable(nc) => read_nullable(nc, bytes, at),
        StandardBeamCoders::Tuple(tc) => match read_tuple(tc, bytes, at) {
            Step::Value(values, next) => Step::Value(
                BeamRecord::TUPLE(TupleValue { values }),
                next,
            ),
            Step::Fail(m, next) => Step::Fail(m, next),
            Step::Malformed => Step::Malformed,
        },
        StandardBeamCoders::Kv(kc, vc) => match read_primitive(kc, bytes, at) {
            Step::Value(key, next) => {
                assert(bytes@.skip(at as int).skip(next - at) =~= bytes@.skip(next as int));
                match read_record(vc, bytes, next) {
                    Step::Value(value, end) => Step::Value(
                        BeamRecord::KV(BeamKV { key, value: Box::new(value) }),
                        end,
                    ),
                    Step::Fail(m, end) => Step::Fail(m, end),
                    Step::Malformed => Step::Malformed,
                }
            },
            Step::Fail(m, next) => Step::Fail(m, next),
            Step::Malformed => Step::Malformed,
        },
        StandardBeamCoders::Gbk(kc, ic) => match read_primitive(kc, bytes, at) {
            Step::Value(key, next) => {
                assert(bytes@.skip(at as int).skip(next - at) =~= bytes@.skip(next as int));
                match read_list(&ic.element_coder, bytes, next) {
                    Step::Value(list, end) => Step::Value(
                        BeamRecord::GBK(BeamGbk { key, value: IterableValue { list } }),
                        end,
                    ),
                    Step::Fail(m, end) => Step::Fail(m, end),
                    Step::Malformed => Step::Malformed,
                }
            },
            Step::Fail(m, next) => Step::Fail(m, next),
            Step::Malformed => Step::Malformed,
        },
        _ => read_leaf(c, bytes, at),
    }
}

/// Reads a value that may be missing.
pub fn read_nullable(nc: &NullableCoder, bytes: &Vec<u8>, at: usize) -> (r: Step<BeamRecord>)
    requires
        at <= bytes@.len(),
    ensures
        step_is(
            r,
            parse(StandardBeamCoders::Nullable(*nc), bytes@.skip(at as int)),
            |v: BeamRecord| record_model(v),
            bytes@,
            at,
        ),
    decreases nc, 1nat,
{
    if at == bytes.len() {
        return Step::Malformed;
    }
    let flag: u8 = bytes[at];
    assert(bytes@.skip(at as int)[0] == flag);
    if flag == 0 {
        Step::Value(BeamRecord::PRIMITIVE(PrimitiveValue::Void), at + 1)
    } else if flag == 1 {
        assert(bytes@.skip(at as int).skip(1) =~= bytes@.skip(at + 1));
        read_record(&nc.value_coder, bytes, at + 1)
    } else {
        let mut m = "NullableCoder: unexpected null indicator byte ".to_owned();
        crate::text::push_decimal(&mut m, flag as u64);
        Step::Fail(m, at + 1)
    }
}

/// Reads a component that has to be primitive.
pub fn read_primitive(c: &StandardBeamCoders, bytes: &Vec<u8>, at: usize) -> (r: Step<
    PrimitiveValue,
>)
    requires
        at <= bytes@.len(),
    ensures
        step_is(
            r,
            to_primitive(parse(*c, bytes@.skip(at as int))),
            |v: PrimitiveValue| v.model(),
            bytes@,
            at,
        ),
    decreases c, 1nat,
{
    match read_record(c, bytes, at) {
        Step::Value(record, next) => match record {
            BeamRecord::PRIMITIVE(v) => Step::Value(v, next),
            _ => Step::Fail("excluded other types".to_owned(), next),
        },
        Step::Fail(m, next) => Step::Fail(m, next),
        Step::Malformed => Step::Malformed,
    }
}

/// Reads a list.
pub fn read_list(e: &StandardBeamCoders, bytes: &Vec<u8>, at: usize) -> (r: Step<Vec<BeamRecord>>)
    requires
        at <= bytes@.len(),
    ensures
        step_is(
            r,
            parse_list(*e, bytes@.skip(at as int)),
            |v: Vec<BeamRecord>| records_model(v@),
            bytes@,
            at,
        ),
    decreases e, 3nat,
{
    match read_i32(bytes, at) {
        Step::Value(count, next) => {
            assert(bytes@.skip(at as int).skip(next - at) =~= bytes@.skip(next as int));
            if count >= 0 {
                read_many(e, count as u64, bytes, next)
            } else if count == -1 {
                read_chunks(e, bytes, next)
            } else {
                Step::Malformed
            }
        },
        Step::Fail(m, next) => Step::Fail(m, next),
        Step::Malformed => Step::Malformed,
    }
}

/// Reads `count` items one behind the other.
pub fn read_many(e: &StandardBeamCoders, count: u64, bytes: &Vec<u8>, at: usize) -> (r: Step<
    Vec<BeamRecord>,
>)
    requires
        at <= bytes@.len(),
    ensures
        step_is(
            r,
            parse_many(*e, count as nat, bytes@.skip(at as int)),
            |v: Vec<BeamRecord>| records_model(v@),
            bytes@,
            at,
        ),
    decreases e, 1nat,
{
    let mut values: Vec<BeamRecord> = Vec::new();
    let mut left: u64 = count;
    let mut pos: usize = at;
    let ghost whole = parse_many(*e, count as nat, bytes@.skip(at as int));
    assert(records_model(values@) =~= seq![]);
    assert(whole == whole.behind(seq![], 0)) by {
        match whole {
            Parse::Value(s, n) => {
                assert(seq![] + s =~= s);
            },
            _ => {},
        }
    }
    while left > 0
        invariant
            at <= pos <= bytes@.len(),
            whole == parse_many(*e, count as nat, bytes@.skip(at as int)),
            whole == parse_many(*e, left as nat, bytes@.skip(pos as int)).behind(
                records_model(values@),
                (pos - at) as nat,
            ),
        decreases left,
    {
        match read_record(e, bytes, pos) {
            Step::Value(v, next) => {
                let ghost before = records_model(values@);
                let ghost item = record_model(v);
                proof {
                    assert(bytes@.skip(pos as int).skip(next - pos) =~= bytes@.skip(next as int));
                    let tail = parse_many(*e, (left - 1) as nat, bytes@.skip(next as int));
                    match tail {
                        Parse::Value(s, n) => {
                            assert(before + (seq![item] + s) =~= before.push(item) + s);
                        },
                        _ => {},
                    }
                }
                values.push(v);
                assert(records_model(values@) =~= before.push(item));
                pos = next;
                left = left - 1;
            },
            Step::Fail(m, next) => {
                return Step::Fail(m, next);
            },
            Step::Malformed => {
                return Step::Malformed;
            },
        }
    }
    assert(records_model(values@) + seq![] =~= records_model(values@));
    Step::Value(values, pos)
}

/// Reads chunks of items up to the empty one.
pub fn read_chunks(e: &StandardBeamCoders, bytes: &Vec<u8>, at: usize) -> (r: Step<Vec<BeamRecord>>)
    requires
        at <= bytes@.len(),
    ensures
        step_is(
            r,
            parse_chunks(*e, bytes@.skip(at as int)),
            |v: Vec<BeamRecord>| records_model(v@),
            bytes@,
            at,
        ),
    decreases e, 2nat,
{
    let mut values: Vec<BeamRecord> = Vec::new();
    let mut pos: usize = at;
    let ghost whole = parse_chunks(*e, bytes@.skip(at as int));
    assert(records_model(values@) =~= seq![]);
    assert(whole == whole.behind(seq![], 0)) by {
        match whole {
            Parse::Value(s, n) => {
                assert(seq![] + s =~= s);
            },
            _ => {},
        }
    }
    loop
        invariant
            at <= pos <= bytes@.len(),
            whole == parse_chunks(*e, bytes@.skip(pos as int)).behind(
                records_model(values@),
                (pos - at) as nat,
            ),
            whole == parse_chunks(*e, bytes@.skip(at as int)),
        decreases bytes@.len() - pos,
    {
        let ghost here = bytes@.skip(pos as int);
        let ghost before = records_model(values@);
        proof {
            crate::coders::wire::varint_takes(here);
        }
        match read_varint(bytes, pos) {
            Step::Value(count, next) => {
                if count == 0 {
                    assert(before + seq![] =~= before);
                    return Step::Value(values, next);
                }
                assert(here.skip(next - pos) =~= bytes@.skip(next as int));
                match read_many(e, count, bytes, next) {
                    Step::Value(chunk, end) => {
                        let ghost added = records_model(chunk@);
                        proof {
                            assert(here.skip(end - pos) =~= bytes@.skip(end as int));
                            match parse_chunks(*e, bytes@.skip(end as int)) {
                                Parse::Value(s, n) => {
                                    assert(before + (added + s) =~= (before + added) + s);
                                },
                                _ => {},
                            }
                        }
                        let ghost old_values = values@;
                        let mut chunk = chunk;
                        let ghost chunk_seq = chunk@;
                        values.append(&mut chunk);
                        assert(records_model(values@) =~= before + added) by {
                            assert(values@ == old_values + chunk_seq);
                        }
                        pos = end;
                    },
                    Step::Fail(m, end) => {
                        return Step::Fail(m, end);
                    },
                    Step::Malformed => {
                        return Step::Malformed;
                    },
                }
            },
            Step::Fail(m, next) => {
                return Step::Fail(m, next);
            },
            Step::Malformed => {
                return Step::Malformed;
            },
        }
    }
}

/// Reads the components of a tuple.
pub fn read_tuple(tc: &TupleCoder, bytes: &Vec<u8>, at: usize) -> (r: Step<Vec<PrimitiveValue>>)
    requires
        at <= bytes@.len(),
    ensures
        step_is(
            r,
            parse_tuple(*tc, 0, bytes@.skip(at as int)),
            |v: Vec<PrimitiveValue>| primitives_model(v@),
            bytes@,
            at,
        ),
    decreases tc, 2nat,
{
    let mut values: Vec<PrimitiveValue> = Vec::new();
    let mut pos: usize = at;
    let n: usize = tc.component_coders.len();
    let mut i: usize = 0;
    let ghost whole = parse_tuple(*tc, 0, bytes@.skip(at as int));
    assert(primitives_model(values@) =~= seq![]);
    assert(whole == whole.behind(seq![], 0)) by {
        match whole {
            Parse::Value(s, n) => {
                assert(seq![] + s =~= s);
            },
            _ => {},
        }
    }
    while i < n
        invariant
            n == tc.component_coders@.len(),
            i <= n,
            at <= pos <= bytes@.len(),
            whole == parse_tuple(*tc, 0, bytes@.skip(at as int)),
            whole == parse_tuple(*tc, i as nat, bytes@.skip(pos as int)).behind(
                primitives_model(values@),
                (pos - at) as nat,
            ),
        decreases n - i,
    {
        match read_primitive(&tc.component_coders[i], bytes, pos) {
            Step::Value(v, next) => {
                let ghost before = primitives_model(values@);
                let ghost item = v.model();
                proof {
                    assert(bytes@.skip(pos as int).skip(next - pos) =~= bytes@.skip(next as int));
                    match parse_tuple(*tc, (i + 1) as nat, bytes@.skip(next as int)) {
                        Parse::Value(s, n) => {
                            assert(before + (seq![item] + s) =~= before.push(item) + s);
                        },
                        _ => {},
                    }
                }
                values.push(v);
                assert(primitives_model(values@) =~= before.push(item));
                pos = next;
                i = i + 1;
            },
            Step::Fail(m, next) => {
                return Step::Fail(m, next);
            },
            Step::Malformed => {
                return Step::Malformed;
            },
        }
    }
    assert(primitives_model(values@) + seq![] =~= primitives_model(values@));
    Step::Value(values, pos)
}

// ---------------------------------------------------------------------------
// What was written is read back
// ---------------------------------------------------------------------------
proof fn primitive_round_trip(c: StandardBeamCoders, p: PrimitiveV, rest: Seq<u8>)
    requires
        can_encode_primitive(c, p),
        primitive_fits(p),
    ensures
        parse(c, wire_primitive(c, p) + rest) == Parse::Value(
            RecordV::Primitive(p),
            wire_primitive(c, p).len(),
        ),
{
    match p {
        PrimitiveV::String(s) => {
            crate::coders::wire::text_round_trip(s, rest);
        },
        PrimitiveV::Bytes(b) => {
            crate::coders::wire::prefixed_round_trip(b, rest);
        },
        PrimitiveV::Int64(v) => match c {
            StandardBeamCoders::VarInt32(_) => {
                crate::coders::wire::varint_round_trip(unsigned32(v as i32) as u64, rest);
            },
            _ => {
                crate::coders::wire::signed_varint_round_trip(v, rest);
            },
        },
        PrimitiveV::Float64(v) => {
            crate::coders::wire::u64_round_trip(v, rest);
        },
        PrimitiveV::Bool(v) => {
            assert((wire_primitive(c, p) + rest)[0] == (if v { 1u8 } else { 0u8 }));
        },
        PrimitiveV::Void => {},
    }
}

/// A key and a value that is read back are read back together.
proof fn kv_round_trip(
    kc: StandardBeamCoders,
    vc: StandardBeamCoders,
    r: RecordV,
    rest: Seq<u8>,
)
    requires
        can_encode(StandardBeamCoders::Kv(Box::new(kc), Box::new(vc)), r),
        record_fits(r),
        parse(vc, wire(vc, *r->Kv_1) + rest) == Parse::Value(*r->Kv_1, wire(vc, *r->Kv_1).len()),
    ensures
        ({
            let c = StandardBeamCoders::Kv(Box::new(kc), Box::new(vc));
            parse(c, wire(c, r) + rest) == Parse::Value(r, wire(c, r).len())
        }),
{
    let c = StandardBeamCoders::Kv(Box::new(kc), Box::new(vc));
    let k = r->Kv_0;
    let tail = wire(vc, *r->Kv_1) + rest;
    primitive_round_trip(kc, k, tail);
    let b = wire(c, r) + rest;
    assert(b =~= wire_primitive(kc, k) + tail);
    assert(b.skip(wire_primitive(kc, k).len() as int) =~= tail);
}

/// A key and a list that is read back are read back together.
proof fn gbk_round_trip(c: StandardBeamCoders, r: RecordV, rest: Seq<u8>)
    requires
        c is Gbk,
        can_encode(c, r),
        record_fits(r),
        ({
            let e = *c->Gbk_1.element_coder;
            let list = wire_list(e, r->Gbk_1);
            parse_list(e, list + rest) == Parse::Value(r->Gbk_1, list.len())
        }),
    ensures
        parse(c, wire(c, r) + rest) == Parse::Value(r, wire(c, r).len()),
{
    let kc = *c->Gbk_0;
    let e = *c->Gbk_1.element_coder;
    let k = r->Gbk_0;
    let tail = wire_list(e, r->Gbk_1) + rest;
    primitive_round_trip(kc, k, tail);
    let b = wire(c, r) + rest;
    assert(b =~= wire_primitive(kc, k) + tail);
    assert(b.skip(wire_primitive(kc, k).len() as int) =~= tail);
}

/// A written record is read back, whatever follows it.
#[verifier::spinoff_prover]
#[verifier::rlimit(60)]
pub proof fn record_round_trip(c: StandardBeamCoders, r: RecordV, rest: Seq<u8>)
    requires
        can_encode(c, r),
        record_fits(r),
    ensures
        parse(c, wire(c, r) + rest) == Parse::Value(r, wire(c, r).len()),
    decreases c, 0nat, 0nat,
{
    match c {
        StandardBeamCoders::Iterable(ic) => {
            list_round_trip(*ic.element_coder, r->Iterable_0, rest);
        },
        StandardBeamCoders::Tuple(tc) => {
            let ps = r->Tuple_0;
            tuple_round_trip(tc, ps, 0, rest);
            assert(ps.skip(0) =~= ps);
        },
        StandardBeamCoders::Nullable(nc) => {
            let b = wire(c, r) + rest;
            if r != RecordV::Primitive(PrimitiveV::Void) {
                record_round_trip(*nc.value_coder, r, rest);
                assert(b.skip(1) =~= wire(*nc.value_coder, r) + rest);
            }
        },
        StandardBeamCoders::Kv(kc, vc) => {
            record_round_trip(*vc, *r->Kv_1, rest);
            kv_round_trip(*kc, *vc, r, rest);
        },
        StandardBeamCoders::Gbk(kc, ic) => {
            list_round_trip(*ic.element_coder, r->Gbk_1, rest);
            gbk_round_trip(c, r, rest);
        },
        _ => {
            primitive_round_trip(c, r->Primitive_0, rest);
        },
    }
}

/// A written list is read back, whatever follows it.
pub proof fn list_round_trip(e: StandardBeamCoders, s: Seq<RecordV>, rest: Seq<u8>)
    requires
        can_encode_list(e, s),
        forall|i: int| 0 <= i < s.len() ==> record_fits(#[trigger] s[i]),
    ensures
        parse_list(e, wire_list(e, s) + rest) == Parse::Value(s, wire_list(e, s).len()),
    decreases e, 2nat, 0nat,
{
    let count = s.len() as i32;
    let tail = wire_all(e, s) + rest;
    crate::coders::wire::i32_round_trip(count, tail);
    all_round_trip(e, s, rest);
    let b = wire_list(e, s) + rest;
    assert(b =~= big_endian(s.len(), 4) + tail);
    assert(b.skip(4) =~= tail);
}

/// Items that were written one behind the other are read back.
pub proof fn all_round_trip(e: StandardBeamCoders, s: Seq<RecordV>, rest: Seq<u8>)
    requires
        can_encode_list(e, s),
        forall|i: int| 0 <= i < s.len() ==> record_fits(#[trigger] s[i]),
    ensures
        parse_many(e, s.len(), wire_all(e, s) + rest) == Parse::Value(s, wire_all(e, s).len()),
    decreases e, 1nat, s.len(),
{
    if s.len() > 0 {
        let tail = wire_all(e, s.skip(1)) + rest;
        assert forall|i: int| 0 <= i < s.skip(1).len() implies can_encode(
            e,
            #[trigger] s.skip(1)[i],
        ) && record_fits(s.skip(1)[i]) by {
            assert(s.skip(1)[i] == s[i + 1]);
        }
        record_round_trip(e, s[0], tail);
        all_round_trip(e, s.skip(1), rest);
        let b = wire_all(e, s) + rest;
        assert(b =~= wire(e, s[0]) + tail);
        assert(b.skip(wire(e, s[0]).len() as int) =~= tail);
        assert(seq![s[0]] + s.skip(1) =~= s);
    } else {
        assert(s =~= seq![]);
    }
}

proof fn tuple_round_trip(tc: TupleCoder, ps: Seq<PrimitiveV>, i: nat, rest: Seq<u8>)
    requires
        i <= ps.len(),
        ps.len() == tc.component_coders@.len(),
        can_encode_tuple(tc, ps, i),
        forall|j: int| 0 <= j < ps.len() ==> primitive_fits(#[trigger] ps[j]),
    ensures
        parse_tuple(tc, i, wire_tuple(tc, ps, i) + rest) == Parse::Value(
            ps.skip(i as int),
            wire_tuple(tc, ps, i).len(),
        ),
    decreases tc, 1nat, tc.component_coders@.len() - i,
{
    if i < ps.len() {
        let c = tc.component_coders[i as int];
        let p = RecordV::Primitive(ps[i as int]);
        let tail = wire_tuple(tc, ps, i + 1) + rest;
        record_round_trip(c, p, tail);
        tuple_round_trip(tc, ps, i + 1, rest);
        let b = wire_tuple(tc, ps, i) + rest;
        assert(b =~= wire(c, p) + tail);
        assert(b.skip(wire(c, p).len() as int) =~= tail);
        assert(seq![ps[i as int]] + ps.skip((i + 1) as int) =~= ps.skip(i as int));
    } else {
        assert(ps.skip(i as int) =~= seq![]);
    }
}

} // verus!
