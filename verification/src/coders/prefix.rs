//! What the beginning of some bytes reads as, the whole reads as too.
use crate::coders::nested::{
    parse, parse_chunks, parse_list, parse_many, parse_tuple, to_primitive, SHORT_DOUBLE,
};
use crate::coders::primitives::{
    parse_pane, parse_window_chunks, parse_windows, TupleCoder, WindowedValueCoder,
};
use crate::coders::wire::{
    digits, parse_i32, parse_prefixed, parse_signed_varint, parse_varint, parse_word, Parse,
};
use crate::coders::{BeamCoder, StandardBeamCoders};
use vstd::prelude::*;

verus! {

/// Whether the bytes are refused because they end within a floating-point number.
pub open spec fn is_cut<T>(p: Parse<T>) -> bool {
    p matches Parse::Fail(reason, _) && reason == SHORT_DOUBLE@
}

/// Whether an outcome settles what longer bytes read as.
pub open spec fn settles<T>(p: Parse<T>) -> bool {
    !(p is Malformed) && !is_cut(p)
}

proof fn digits_settle(b: Seq<u8>, k: nat, x: Seq<u8>)
    requires
        digits(b, k) is Value,
    ensures
        digits(b + x, k) == digits(b, k),
        1 <= digits(b, k)->Value_1 <= b.len(),
    decreases b.len(),
{
    assert((b + x)[0] == b[0]);
    if b[0] >= 128 {
        assert((b + x).skip(1) =~= b.skip(1) + x);
        digits_settle(b.skip(1), k + 1, x);
    }
}

pub proof fn varint_settles(b: Seq<u8>, x: Seq<u8>)
    requires
        parse_varint(b) is Value,
    ensures
        parse_varint(b + x) == parse_varint(b),
        1 <= parse_varint(b)->Value_1 <= b.len(),
{
    digits_settle(b, 0, x);
}

proof fn word_settles(b: Seq<u8>, w: nat, x: Seq<u8>)
    requires
        b.len() >= w,
    ensures
        parse_word(b + x, w) == parse_word(b, w),
{
    assert((b + x).take(w as int) =~= b.take(w as int));
}

proof fn prefixed_settles(b: Seq<u8>, x: Seq<u8>)
    requires
        parse_prefixed(b) is Value,
    ensures
        parse_prefixed(b + x) == parse_prefixed(b),
        parse_prefixed(b)->Value_1 <= b.len(),
{
    varint_settles(b, x);
    let n = parse_varint(b)->Value_1;
    let len = parse_varint(b)->Value_0;
    assert((b + x).subrange(n as int, n + len) =~= b.subrange(n as int, n + len));
}

/// What the beginning of some bytes reads as, the whole reads as too, unless it ends
/// too early.
pub proof fn record_settles(c: StandardBeamCoders, b: Seq<u8>, x: Seq<u8>)
    requires
        settles(parse(c, b)),
    ensures
        parse(c, b + x) == parse(c, b),
        parse(c, b) is Value ==> parse(c, b)->Value_1 <= b.len(),
    decreases c, 0nat, 0nat,
{
    let p = parse(c, b);
    match c {
        StandardBeamCoders::StringUtf8(_) => {
            prefixed_settles(b, x);
        },
        StandardBeamCoders::Bytes(_) => {
            prefixed_settles(b, x);
        },
        StandardBeamCoders::VarInt(_) => {
            varint_settles(b, x);
        },
        StandardBeamCoders::VarInt32(_) => {
            varint_settles(b, x);
        },
        StandardBeamCoders::Bool(_) => {
            assert((b + x)[0] == b[0]);
        },
        StandardBeamCoders::Double(_) => {
            word_settles(b, 8, x);
        },
        StandardBeamCoders::Void(_) => {},
        StandardBeamCoders::Iterable(ic) => {
            list_settles(*ic.element_coder, b, x);
        },
        StandardBeamCoders::Nullable(nc) => {
            assert((b + x)[0] == b[0]);
            assert((b + x).skip(1) =~= b.skip(1) + x);
            if b[0] == 1 {
                record_settles(*nc.value_coder, b.skip(1), x);
            }
        },
        StandardBeamCoders::LengthPrefix(_) => {
            prefixed_settles(b, x);
        },
        StandardBeamCoders::Pickle(_) => {
            prefixed_settles(b, x);
        },
        StandardBeamCoders::Tuple(tc) => {
            tuple_settles(tc, 0, b, x);
        },
        StandardBeamCoders::Kv(kc, vc) => {
            record_settles(*kc, b, x);
            match to_primitive(parse(*kc, b)) {
                Parse::Value(k, n) => {
                    assert((b + x).skip(n as int) =~= b.skip(n as int) + x);
                    record_settles(*vc, b.skip(n as int), x);
                },
                _ => {},
            }
        },
        StandardBeamCoders::Gbk(kc, ic) => {
            record_settles(*kc, b, x);
            match to_primitive(parse(*kc, b)) {
                Parse::Value(k, n) => {
                    assert((b + x).skip(n as int) =~= b.skip(n as int) + x);
                    list_settles(*ic.element_coder, b.skip(n as int), x);
                },
                _ => {},
            }
        },
    }
}

proof fn list_settles(e: StandardBeamCoders, b: Seq<u8>, x: Seq<u8>)
    requires
        settles(parse_list(e, b)),
    ensures
        parse_list(e, b + x) == parse_list(e, b),
        parse_list(e, b) is Value ==> parse_list(e, b)->Value_1 <= b.len(),
    decreases e, 3nat, 0nat,
{
    word_settles(b, 4, x);
    assert((b + x).skip(4) =~= b.skip(4) + x);
    let count = parse_i32(b)->Value_0;
    if count >= 0 {
        many_settle(e, count as nat, b.skip(4), x);
    } else {
        chunks_settle(e, b.skip(4), x);
    }
}

proof fn many_settle(e: StandardBeamCoders, count: nat, b: Seq<u8>, x: Seq<u8>)
    requires
        settles(parse_many(e, count, b)),
    ensures
        parse_many(e, count, b + x) == parse_many(e, count, b),
        parse_many(e, count, b) is Value ==> parse_many(e, count, b)->Value_1 <= b.len(),
    decreases e, 1nat, count,
{
    if count > 0 {
        record_settles(e, b, x);
        match parse(e, b) {
            Parse::Value(v, n) => {
                assert((b + x).skip(n as int) =~= b.skip(n as int) + x);
                many_settle(e, (count - 1) as nat, b.skip(n as int), x);
            },
            _ => {},
        }
    }
}

proof fn chunks_settle(e: StandardBeamCoders, b: Seq<u8>, x: Seq<u8>)
    requires
        settles(parse_chunks(e, b)),
    ensures
        parse_chunks(e, b + x) == parse_chunks(e, b),
        parse_chunks(e, b) is Value ==> parse_chunks(e, b)->Value_1 <= b.len(),
    decreases e, 2nat, b.len(),
{
    varint_settles(b, x);
    let count = parse_varint(b)->Value_0;
    let k = parse_varint(b)->Value_1;
    if count != 0 {
        assert((b + x).skip(k as int) =~= b.skip(k as int) + x);
        many_settle(e, count as nat, b.skip(k as int), x);
        match parse_many(e, count as nat, b.skip(k as int)) {
            Parse::Value(s, n) => {
                assert(k + n <= b.len());
                assert((b + x).skip((k + n) as int) =~= b.skip((k + n) as int) + x);
                chunks_settle(e, b.skip((k + n) as int), x);
            },
            _ => {},
        }
    }
}

proof fn tuple_settles(tc: TupleCoder, i: nat, b: Seq<u8>, x: Seq<u8>)
    requires
        settles(parse_tuple(tc, i, b)),
    ensures
        parse_tuple(tc, i, b + x) == parse_tuple(tc, i, b),
        parse_tuple(tc, i, b) is Value ==> parse_tuple(tc, i, b)->Value_1 <= b.len(),
    decreases tc, 1nat, tc.component_coders@.len() - i,
{
    if i < tc.component_coders@.len() {
        record_settles(tc.component_coders[i as int], b, x);
        match to_primitive(parse(tc.component_coders[i as int], b)) {
            Parse::Value(v, n) => {
                assert((b + x).skip(n as int) =~= b.skip(n as int) + x);
                tuple_settles(tc, i + 1, b.skip(n as int), x);
            },
            _ => {},
        }
    }
}

proof fn windows_settle(b: Seq<u8>, x: Seq<u8>)
    requires
        parse_windows(b) is Value,
    ensures
        parse_windows(b + x) == parse_windows(b),
        parse_windows(b)->Value_1 <= b.len(),
{
    word_settles(b, 4, x);
    if parse_i32(b)->Value_0 < 0 {
        assert((b + x).skip(4) =~= b.skip(4) + x);
        window_chunks_settle(b.skip(4), x);
    }
}

proof fn window_chunks_settle(b: Seq<u8>, x: Seq<u8>)
    requires
        parse_window_chunks(b) is Value,
    ensures
        parse_window_chunks(b + x) == parse_window_chunks(b),
        parse_window_chunks(b)->Value_1 <= b.len(),
    decreases b.len(),
{
    varint_settles(b, x);
    let count = parse_varint(b)->Value_0;
    let k = parse_varint(b)->Value_1;
    if count != 0 {
        assert((b + x).skip(k as int) =~= b.skip(k as int) + x);
        window_chunks_settle(b.skip(k as int), x);
    }
}

/// The windows are never refused.
proof fn windows_are_not_refused(b: Seq<u8>)
    ensures
        !(parse_windows(b) is Fail),
{
    if parse_word(b, 4) is Value && parse_i32(b)->Value_0 < 0 {
        window_chunks_are_not_refused(b.skip(4));
    }
}

proof fn window_chunks_are_not_refused(b: Seq<u8>)
    ensures
        !(parse_window_chunks(b) is Fail),
    decreases b.len(),
{
    match parse_varint(b) {
        Parse::Value(count, k) => {
            if count != 0 && 1 <= k <= b.len() {
                window_chunks_are_not_refused(b.skip(k as int));
            }
        },
        _ => {},
    }
}

proof fn pane_settles(b: Seq<u8>, x: Seq<u8>)
    requires
        parse_pane(b) is Value,
    ensures
        parse_pane(b + x) == parse_pane(b),
        parse_pane(b)->Value_1 <= b.len(),
{
    assert((b + x)[0] == b[0]);
    assert((b + x).skip(1) =~= b.skip(1) + x);
    if b[0] / 16 != 0 {
        varint_settles(b.skip(1), x);
        let n = parse_signed_varint(b.skip(1))->Value_1;
        if b[0] / 16 != 1 {
            assert((b + x).skip((1 + n) as int) =~= b.skip((1 + n) as int) + x);
            varint_settles(b.skip((1 + n) as int), x);
        }
    }
}

/// The same of a value in its windows; it takes at least eight bytes.
pub proof fn windowed_settles(c: WindowedValueCoder, b: Seq<u8>, x: Seq<u8>)
    requires
        settles(c.parse(b)),
    ensures
        c.parse(b + x) == c.parse(b),
        c.parse(b) is Value ==> 8 <= c.parse(b)->Value_1 <= b.len(),
{
    word_settles(b, 8, x);
    assert((b + x).skip(8) =~= b.skip(8) + x);
    let b1 = b.skip(8);
    windows_are_not_refused(b1);
    windows_settle(b1, x);
    let n2 = parse_windows(b1)->Value_1;
    let b2 = b1.skip(n2 as int);
    assert((b1 + x).skip(n2 as int) =~= b2 + x);
    pane_settles(b2, x);
    let n3 = parse_pane(b2)->Value_1;
    assert((b2 + x).skip(n3 as int) =~= b2.skip(n3 as int) + x);
    record_settles(c.element_coder, b2.skip(n3 as int), x);
}

} // verus!
