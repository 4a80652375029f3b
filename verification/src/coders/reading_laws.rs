//! What the coders make of bytes that others wrote.
use crate::coders::laws::value128;
use crate::coders::nested::{
    all_round_trip, can_encode_list, parse, parse_chunks, parse_list, record_fits,
    wire_all,
};
use crate::coders::primitives::{
    parse_windows, BeamWindow, BoolCoder, DoubleCoder, NullableCoder,
    StringUtf8Coder, VarInt32Coder, VarIntCoder,
};
use crate::coders::wire::{
    big_endian, digits, i32_round_trip, parse_varint, prefixed, prefixed_round_trip, unsigned32,
    varint, varint_round_trip, varint_takes, Parse,
};
use crate::coders::StandardBeamCoders;
use crate::store::record::{PrimitiveV, RecordV};
use vstd::prelude::*;
use vstd::utf8::*;

verus! {

// ---------------------------------------------------------------------------
// Numbers
// ---------------------------------------------------------------------------
/// Whether a number in variable length ends at that place: all its bytes but the last are
/// marked.
pub open spec fn ends_at(b: Seq<u8>, n: int) -> bool {
    0 < n <= b.len() && b[n - 1] < 128 && forall|i: int| 0 <= i < n - 1 ==> #[trigger] b[i] >= 128
}

proof fn digits_are_value(b: Seq<u8>, k: nat, n: int)
    requires
        ends_at(b, n),
        k + n <= 10,
    ensures
        digits(b, k) == Parse::Value(value128(b.take(n)) as nat, n as nat),
        0 <= value128(b.take(n)),
    decreases n,
{
    let rest = b.skip(1);
    let head = b.take(n);
    if n == 1 {
        assert(head.skip(1) =~= seq![]);
        assert(value128(head.skip(1)) == 0);
    } else {
        assert(b[0] >= 128);
        assert(rest[n - 2] == b[n - 1]);
        assert forall|i: int| 0 <= i < n - 2 implies #[trigger] rest[i] >= 128 by {
            assert(rest[i] == b[i + 1]);
        }
        digits_are_value(rest, k + 1, n - 1);
        assert(head.skip(1) =~= rest.take(n - 1));
        assert(b[0] as int % 128 == b[0] - 128);
    }
}

/// A number in variable length of at most ten bytes is read as what its digits to the base
/// 128 come to, of which 64 bits are kept, and no further than its last byte.
pub proof fn numbers_are_read(b: Seq<u8>, n: int)
    requires
        ends_at(b, n),
        n <= 10,
    ensures
        parse_varint(b) == Parse::Value(
            (value128(b.take(n)) % 0x1_0000_0000_0000_0000) as u64,
            n as nat,
        ),
{
    digits_are_value(b, 0, n);
}

proof fn digits_go_on(b: Seq<u8>, k: nat)
    requires
        forall|i: int| 0 <= i < b.len() && i < 10 - k ==> #[trigger] b[i] >= 128,
    ensures
        digits(b, k) is Malformed,
    decreases b.len(),
{
    if b.len() > 0 && k < 10 {
        assert(b[0] >= 128);
        assert forall|i: int| 0 <= i < b.skip(1).len() && i < 10 - (k + 1) implies #[trigger] b.skip(
            1,
        )[i] >= 128 by {
            assert(b.skip(1)[i] == b[i + 1]);
        }
        digits_go_on(b.skip(1), k + 1);
    }
}

/// Bytes that do not end a number within ten are none.
pub proof fn endless_numbers_are_refused(b: Seq<u8>)
    requires
        forall|i: int| 0 <= i < b.len() && i < 10 ==> #[trigger] b[i] >= 128,
    ensures
        parse_varint(b) is Malformed,
{
    digits_go_on(b, 0);
}

/// An integer of 32 bits of the Java SDK is read with its sign; a larger number is refused.
pub proof fn short_integers_are_read(v: u64, rest: Seq<u8>)
    ensures
        v < 0x8000_0000 ==> parse(
            StandardBeamCoders::VarInt32(VarInt32Coder),
            varint(v as nat) + rest,
        ) == Parse::Value(
            RecordV::Primitive(PrimitiveV::Int64(v as i64)),
            varint(v as nat).len(),
        ),
        0x8000_0000 <= v < 0x1_0000_0000 ==> parse(
            StandardBeamCoders::VarInt32(VarInt32Coder),
            varint(v as nat) + rest,
        ) == Parse::Value(
            RecordV::Primitive(PrimitiveV::Int64((v - 0x1_0000_0000) as i64)),
            varint(v as nat).len(),
        ),
        0x1_0000_0000 <= v ==> !(parse(
            StandardBeamCoders::VarInt32(VarInt32Coder),
            varint(v as nat) + rest,
        ) is Value),
{
    varint_round_trip(v, rest);
}

/// An integer of 64 bits is read with its sign.
pub proof fn long_integers_are_read(v: u64, rest: Seq<u8>)
    ensures
        parse(StandardBeamCoders::VarInt(VarIntCoder), varint(v as nat) + rest) == Parse::Value(
            RecordV::Primitive(
                PrimitiveV::Int64(
                    if v < 0x8000_0000_0000_0000 {
                        v as i64
                    } else {
                        (v - 0x1_0000_0000_0000_0000) as i64
                    },
                ),
            ),
            varint(v as nat).len(),
        ),
{
    varint_round_trip(v, rest);
}

// ---------------------------------------------------------------------------
// Values
// ---------------------------------------------------------------------------
/// A byte is true unless it is zero; without a byte there is no truth value.
pub proof fn truth_is_read(b: Seq<u8>)
    ensures
        b.len() > 0 ==> parse(StandardBeamCoders::Bool(BoolCoder), b) == Parse::Value(
            RecordV::Primitive(PrimitiveV::Bool(b[0] != 0)),
            1nat,
        ),
        b.len() == 0 ==> !(parse(StandardBeamCoders::Bool(BoolCoder), b) is Value),
{
}

/// A floating-point number that ends too early is refused with what is said of it.
pub proof fn short_doubles_are_refused(b: Seq<u8>)
    requires
        b.len() < 8,
    ensures
        parse(StandardBeamCoders::Double(DoubleCoder), b) == Parse::<RecordV>::Fail(
            "DoubleCoder: insufficient bytes"@,
            0,
        ),
{
}

/// A value that may be missing is missing behind a zero, is there behind a one, and is
/// neither behind any other byte.
pub proof fn missing_values_are_read(c: NullableCoder, b: Seq<u8>, v: RecordV, n: nat)
    requires
        b.len() > 0,
    ensures
        b[0] == 0 ==> parse(StandardBeamCoders::Nullable(c), b) == Parse::Value(
            RecordV::Primitive(PrimitiveV::Void),
            1nat,
        ),
        b[0] == 1 && parse(*c.value_coder, b.skip(1)) == Parse::Value(v, n) ==> parse(
            StandardBeamCoders::Nullable(c),
            b,
        ) == Parse::Value(v, n + 1),
        b[0] > 1 ==> !(parse(StandardBeamCoders::Nullable(c), b) is Value),
{
}

/// Bytes behind their length are a text if and only if they are UTF-8.
pub proof fn texts_are_utf8(b: Seq<u8>, rest: Seq<u8>)
    requires
        b.len() <= u64::MAX,
    ensures
        parse(StandardBeamCoders::StringUtf8(StringUtf8Coder), prefixed(b) + rest) is Value
            <==> valid_utf8(b),
        valid_utf8(b) ==> parse(
            StandardBeamCoders::StringUtf8(StringUtf8Coder),
            prefixed(b) + rest,
        ) == Parse::Value(
            RecordV::Primitive(PrimitiveV::String(decode_utf8(b))),
            prefixed(b).len(),
        ),
{
    prefixed_round_trip(b, rest);
}

// ---------------------------------------------------------------------------
// Lists
// ---------------------------------------------------------------------------
/// A list whose length is not known beforehand comes in chunks behind a count of minus one:
/// a chunk is its own count and its items, and the items of all chunks make the list.
pub proof fn chunks_are_joined(
    e: StandardBeamCoders,
    s: Seq<RecordV>,
    rest: Seq<u8>,
    more: Seq<RecordV>,
    n: nat,
)
    requires
        s.len() > 0,
        can_encode_list(e, s),
        forall|i: int| 0 <= i < s.len() ==> record_fits(#[trigger] s[i]),
        parse_chunks(e, rest) == Parse::Value(more, n),
    ensures
        parse_chunks(e, varint(s.len()) + wire_all(e, s) + rest) == Parse::Value(
            s + more,
            varint(s.len()).len() + wire_all(e, s).len() + n,
        ),
{
    let head = varint(s.len());
    let items = wire_all(e, s);
    let b = head + items + rest;
    varint_round_trip(s.len() as u64, items + rest);
    assert(b =~= head + (items + rest));
    assert(b.skip(head.len() as int) =~= items + rest);
    all_round_trip(e, s, rest);
    assert(b.skip((head.len() + items.len()) as int) =~= rest);
    varint_takes(b);
}

/// The chunks end with a count of zero, and the list with them.
pub proof fn chunks_end(e: StandardBeamCoders, rest: Seq<u8>)
    ensures
        parse_chunks(e, seq![0u8] + rest) == Parse::Value(Seq::<RecordV>::empty(), 1nat),
{
    let b = seq![0u8] + rest;
    assert(b[0] == 0);
    assert(ends_at(b, 1));
    numbers_are_read(b, 1);
    assert(b.take(1).skip(1) =~= seq![]);
    assert(value128(b.take(1).skip(1)) == 0);
    assert(value128(b.take(1)) == 0);
}

/// A count of minus one starts chunks; a smaller one is none.
pub proof fn counts_are_read(e: StandardBeamCoders, count: i32, rest: Seq<u8>)
    requires
        count < 0,
    ensures
        count == -1 ==> parse_list(e, big_endian(unsigned32(count) as nat, 4) + rest)
            == parse_chunks(e, rest).after(4),
        count < -1 ==> parse_list(e, big_endian(unsigned32(count) as nat, 4) + rest) is Malformed,
{
    i32_round_trip(count, rest);
    let b = big_endian(unsigned32(count) as nat, 4) + rest;
    assert(b.skip(4) =~= rest);
}

/// So many windows as are counted are read, each of them the one in which all elements are.
pub proof fn windows_are_counted(count: i32, rest: Seq<u8>, i: int)
    requires
        count >= 0,
    ensures
        parse_windows(big_endian(count as nat, 4) + rest) is Value,
        parse_windows(big_endian(count as nat, 4) + rest)->Value_1 == 4,
        parse_windows(big_endian(count as nat, 4) + rest)->Value_0.len() == count,
        0 <= i < count ==> parse_windows(big_endian(count as nat, 4) + rest)->Value_0[i]
            == BeamWindow::Global,
{
    i32_round_trip(count, rest);
}

} // verus!
