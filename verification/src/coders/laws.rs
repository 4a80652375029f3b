//! What the coders of a pipeline write and read.
use crate::coders::nested::{
    can_encode, can_encode_list, parse, record_fits, record_round_trip, wire, wire_all, wire_list,
    wire_tuple,
};
use crate::coders::primitives::{
    global_value, pane_wire, PaneInfo, PaneTiming, TupleCoder, WindowedV, WindowedValueCoder,
};
use crate::coders::resolve::{components_resolve, is_wrapper_id, lp_id, resolvable, resolves_to, wrapped};
use crate::coders::wire::{big_endian, big_endian_len, varint, Parse};
use crate::coders::{BeamCoder, StandardBeamCoders};
use crate::model::CoderV;
use crate::store::record::{PrimitiveV, RecordV};
use vstd::arithmetic::power::pow;
use vstd::prelude::*;
use vstd::string::*;
use vstd::utf8::*;

verus! {

// ---------------------------------------------------------------------------
// Numbers
// ---------------------------------------------------------------------------
/// The number whose digits to the base 128 these are, the least first.
pub open spec fn value128(b: Seq<u8>) -> int
    decreases b.len(),
{
    if b.len() == 0 {
        0
    } else {
        b[0] as int % 128 + 128 * value128(b.skip(1))
    }
}

/// Whether these bytes are a number in variable length: digits to the base 128, the least
/// first, of which all but the last are marked, and no more than needed.
pub open spec fn is_varint_of(b: Seq<u8>, n: int) -> bool {
    &&& b.len() > 0
    &&& forall|i: int| 0 <= i < b.len() - 1 ==> #[trigger] b[i] >= 128
    &&& b.last() < 128
    &&& b.len() > 1 ==> b.last() > 0
    &&& value128(b) == n
}

/// The number whose bytes these are, the greatest first.
pub open spec fn value256(b: Seq<u8>) -> int
    decreases b.len(),
{
    if b.len() == 0 {
        0
    } else {
        256 * value256(b.drop_last()) + b.last()
    }
}

/// Whether these bytes are a word of this width, the greatest byte first.
pub open spec fn is_word_of(b: Seq<u8>, width: int, n: int) -> bool {
    b.len() == width && value256(b) == n
}

/// Numbers in variable length are written to the base 128.
pub proof fn varint_is_base_128(n: nat)
    ensures
        is_varint_of(varint(n), n as int),
    decreases n,
{
    if n < 128 {
        let b = varint(n);
        assert(b.skip(1) =~= seq![]);
        assert(value128(b.skip(1)) == 0);
    } else {
        let rest = varint(n / 128);
        let b = varint(n);
        varint_is_base_128(n / 128);
        assert(b.skip(1) =~= rest);
        assert(b[0] == (n % 128 + 128) as u8);
        assert(b[0] as int % 128 == n % 128);
        assert forall|i: int| 0 <= i < b.len() - 1 implies #[trigger] b[i] >= 128 by {
            if i > 0 {
                assert(b[i] == rest[i - 1]);
            }
        }
        assert(b.last() == rest.last());
        if rest.len() == 1 {
            assert(value128(rest.skip(1)) == 0) by {
                assert(rest.skip(1) =~= seq![]);
            }
            assert(rest[0] as int % 128 == n / 128);
        }
    }
}

/// Words are written with the greatest byte first.
pub proof fn words_are_big_endian(n: nat, w: nat)
    requires
        n < pow(256, w),
    ensures
        is_word_of(big_endian(n, w), w as int, n as int),
    decreases w,
{
    big_endian_len(n, w);
    if w > 0 {
        vstd::arithmetic::power::lemma_pow_adds(256, (w - 1) as nat, 1);
        vstd::arithmetic::power::lemma_pow1(256);
        let bound = pow(256, w);
        let below = pow(256, (w - 1) as nat);
        assert(bound == below * 256);
        assert(n / 256 < below) by (nonlinear_arith)
            requires
                n < bound,
                bound == below * 256,
        ;
        words_are_big_endian(n / 256, (w - 1) as nat);
        let b = big_endian(n, w);
        assert(b.drop_last() =~= big_endian(n / 256, (w - 1) as nat));
        assert(b.last() == (n % 256) as u8);
    } else {
        vstd::arithmetic::power::lemma_pow0(256);
    }
}

proof fn word4(n: nat)
    requires
        n < 0x1_0000_0000,
    ensures
        is_word_of(big_endian(n, 4), 4, n as int),
{
    assert(pow(256, 4) == 0x1_0000_0000) by {
        reveal_with_fuel(pow, 5);
    }
    words_are_big_endian(n, 4);
}

proof fn word8(n: nat)
    requires
        n <= u64::MAX,
    ensures
        is_word_of(big_endian(n, 8), 8, n as int),
{
    assert(pow(256, 8) == 0x1_0000_0000_0000_0000) by {
        reveal_with_fuel(pow, 9);
    }
    words_are_big_endian(n, 8);
}

// ---------------------------------------------------------------------------
// Coders without components
// ---------------------------------------------------------------------------
/// Whether the id stands for the coder of this name: the pipeline's entry for it has the
/// name, or it has no entry with a name and is the name itself.
pub open spec fn stands_for(
    coders: Map<Seq<char>, CoderV>,
    id: Seq<char>,
    urn: Seq<char>,
) -> bool {
    if coders.contains_key(id) && coders[id].spec is Some {
        coders[id].spec->0.urn == urn
    } else {
        id == urn
    }
}

/// Whether the coder writes the record as these bytes, and reads it back from them
/// whatever follows.
pub open spec fn carries(c: StandardBeamCoders, r: RecordV, b: Seq<u8>, rest: Seq<u8>) -> bool {
    &&& can_encode(c, r)
    &&& wire(c, r) == b
    &&& parse(c, b + rest) == Parse::Value(r, b.len())
}

/// Whether the coder writes the bytes behind their number, and reads them back.
pub open spec fn carries_sized(
    c: StandardBeamCoders,
    r: RecordV,
    content: Seq<u8>,
    rest: Seq<u8>,
) -> bool {
    exists|head: Seq<u8>| #[trigger]
        is_varint_of(head, content.len() as int) && carries(c, r, head + content, rest)
}

pub open spec fn primitive(p: PrimitiveV) -> RecordV {
    RecordV::Primitive(p)
}

/// The names of the coders without components differ.
proof fn coder_names()
    ensures
        "beam:coder:bytes:v1"@.len() == 19,
        "beam:coder:string_utf8:v1"@.len() == 25,
        "beam:coder:varint:v1"@.len() == 20,
        "beam:coder:varint:v1"@[11] == 'v',
        "beam:coder:bool:v1"@.len() == 18,
        "beam:coder:double:v1"@.len() == 20,
        "beam:coder:double:v1"@[11] == 'd',
        "beam:coder:pickled_python:v1"@.len() == 28,
        "beam:coder:length_prefix:v1"@.len() == 27,
        "beam:coders:javasdk:0.1"@.len() == 23,
        "beam:coder:kv:v1"@.len() == 16,
        "beam:coder:iterable:v1"@.len() == 22,
        "beam:coder:iterable:v1"@[11] == 'i',
        "beam:coder:nullable:v1"@.len() == 22,
        "beam:coder:nullable:v1"@[11] == 'n',
        "beam:coder:tuple:v1"@.len() == 19,
        "beam:coder:tuple:v1"@[11] == 't',
        "beam:coder:bytes:v1"@[11] == 'b',
        "VoidCoder"@.len() == 9,
        "VarIntCoder"@.len() == 11,
{
    reveal_strlit("beam:coder:bytes:v1");
    reveal_strlit("beam:coder:string_utf8:v1");
    reveal_strlit("beam:coder:varint:v1");
    reveal_strlit("beam:coder:bool:v1");
    reveal_strlit("beam:coder:double:v1");
    reveal_strlit("beam:coder:pickled_python:v1");
    reveal_strlit("beam:coder:length_prefix:v1");
    reveal_strlit("beam:coders:javasdk:0.1");
    reveal_strlit("beam:coder:kv:v1");
    reveal_strlit("beam:coder:iterable:v1");
    reveal_strlit("beam:coder:nullable:v1");
    reveal_strlit("beam:coder:tuple:v1");
    reveal_strlit("VoidCoder");
    reveal_strlit("VarIntCoder");
}

/// A coder of the name for integers carries every integer of 64 bits, in variable length
/// and without its sign.
pub proof fn varint_carries_integers(
    coders: Map<Seq<char>, CoderV>,
    id: Seq<char>,
    given: Option<Seq<Seq<char>>>,
    c: StandardBeamCoders,
    v: i64,
    rest: Seq<u8>,
) -> (b: Seq<u8>)
    requires
        resolves_to(coders, id, given, c),
        stands_for(coders, id, "beam:coder:varint:v1"@),
    ensures
        is_varint_of(
            b,
            if v < 0 {
                v + 0x1_0000_0000_0000_0000
            } else {
                v as int
            },
        ),
        carries(c, primitive(PrimitiveV::Int64(v)), b, rest),
{
    coder_names();
    let r = primitive(PrimitiveV::Int64(v));
    varint_is_base_128(crate::coders::wire::unsigned64(v) as nat);
    record_round_trip(c, r, rest);
    wire(c, r)
}

/// A coder of the name for truth values carries them as a byte.
pub proof fn bool_carries_truth(
    coders: Map<Seq<char>, CoderV>,
    id: Seq<char>,
    given: Option<Seq<Seq<char>>>,
    c: StandardBeamCoders,
    v: bool,
    rest: Seq<u8>,
)
    requires
        resolves_to(coders, id, given, c),
        stands_for(coders, id, "beam:coder:bool:v1"@),
    ensures
        carries(
            c,
            primitive(PrimitiveV::Bool(v)),
            if v {
                seq![1u8]
            } else {
                seq![0u8]
            },
            rest,
        ),
{
    coder_names();
    record_round_trip(c, primitive(PrimitiveV::Bool(v)), rest);
}

/// A coder of the name for floating-point numbers carries their bits, the greatest byte
/// first.
pub proof fn double_carries_bits(
    coders: Map<Seq<char>, CoderV>,
    id: Seq<char>,
    given: Option<Seq<Seq<char>>>,
    c: StandardBeamCoders,
    v: u64,
    rest: Seq<u8>,
) -> (b: Seq<u8>)
    requires
        resolves_to(coders, id, given, c),
        stands_for(coders, id, "beam:coder:double:v1"@),
    ensures
        is_word_of(b, 8, v as int),
        carries(c, primitive(PrimitiveV::Float64(v)), b, rest),
{
    coder_names();
    word8(v as nat);
    record_round_trip(c, primitive(PrimitiveV::Float64(v)), rest);
    wire(c, primitive(PrimitiveV::Float64(v)))
}

/// A coder of the name for text carries its bytes in UTF-8, behind their number.
pub proof fn string_carries_text(
    coders: Map<Seq<char>, CoderV>,
    id: Seq<char>,
    given: Option<Seq<Seq<char>>>,
    c: StandardBeamCoders,
    v: Seq<char>,
    rest: Seq<u8>,
)
    requires
        resolves_to(coders, id, given, c),
        stands_for(coders, id, "beam:coder:string_utf8:v1"@),
        encode_utf8(v).len() <= u64::MAX,
    ensures
        carries_sized(c, primitive(PrimitiveV::String(v)), encode_utf8(v), rest),
{
    coder_names();
    varint_is_base_128(encode_utf8(v).len());
    record_round_trip(c, primitive(PrimitiveV::String(v)), rest);
    assert(is_varint_of(varint(encode_utf8(v).len()), encode_utf8(v).len() as int));
}

/// A coder of the name for bytes, for a pickled value or for a value behind its length
/// carries bytes, behind their number.
pub proof fn bytes_are_carried(
    coders: Map<Seq<char>, CoderV>,
    id: Seq<char>,
    given: Option<Seq<Seq<char>>>,
    c: StandardBeamCoders,
    v: Seq<u8>,
    rest: Seq<u8>,
)
    requires
        resolves_to(coders, id, given, c),
        stands_for(coders, id, "beam:coder:bytes:v1"@) || stands_for(
            coders,
            id,
            "beam:coder:pickled_python:v1"@,
        ) || stands_for(coders, id, "beam:coder:length_prefix:v1"@) || (stands_for(
            coders,
            id,
            "beam:coders:javasdk:0.1"@,
        ) && id != "VoidCoder"@ && id != "VarIntCoder"@),
        v.len() <= u64::MAX,
    ensures
        carries_sized(c, primitive(PrimitiveV::Bytes(v)), v, rest),
{
    coder_names();
    varint_is_base_128(v.len());
    record_round_trip(c, primitive(PrimitiveV::Bytes(v)), rest);
    assert(is_varint_of(varint(v.len()), v.len() as int));
}

/// Of the Java SDK's coders the one of the empty value carries it as no bytes, and that of
/// integers carries those of 32 bits.
pub proof fn java_carries(
    coders: Map<Seq<char>, CoderV>,
    id: Seq<char>,
    given: Option<Seq<Seq<char>>>,
    c: StandardBeamCoders,
    v: i32,
    rest: Seq<u8>,
) -> (b: Seq<u8>)
    requires
        resolves_to(coders, id, given, c),
        stands_for(coders, id, "beam:coders:javasdk:0.1"@),
    ensures
        id == "VoidCoder"@ ==> carries(c, primitive(PrimitiveV::Void), seq![], rest),
        id == "VarIntCoder"@ ==> is_varint_of(
            b,
            if v < 0 {
                v + 0x1_0000_0000
            } else {
                v as int
            },
        ) && carries(c, primitive(PrimitiveV::Int64(v as i64)), b, rest),
{
    coder_names();
    if id == "VoidCoder"@ {
        record_round_trip(c, primitive(PrimitiveV::Void), rest);
        seq![]
    } else if id == "VarIntCoder"@ {
        let r = primitive(PrimitiveV::Int64(v as i64));
        varint_is_base_128(crate::coders::wire::unsigned32(v) as nat);
        record_round_trip(c, r, rest);
        wire(c, r)
    } else {
        seq![]
    }
}

/// An id stands for a coder without components just when it stands for the name of one.
pub proof fn names_are_known(
    coders: Map<Seq<char>, CoderV>,
    id: Seq<char>,
    given: Option<Seq<Seq<char>>>,
)
    ensures
        stands_for(coders, id, "beam:coder:varint:v1"@) || stands_for(
            coders,
            id,
            "beam:coder:bool:v1"@,
        ) || stands_for(coders, id, "beam:coder:double:v1"@) || stands_for(
            coders,
            id,
            "beam:coder:string_utf8:v1"@,
        ) || stands_for(coders, id, "beam:coder:bytes:v1"@) || stands_for(
            coders,
            id,
            "beam:coder:pickled_python:v1"@,
        ) || stands_for(coders, id, "beam:coder:length_prefix:v1"@) || stands_for(
            coders,
            id,
            "beam:coders:javasdk:0.1"@,
        ) <==> resolvable(coders, id, given, 0),
{
    coder_names();
}

/// A coder with components is known where it has the right number of them and they are.
pub proof fn composites_are_known(
    coders: Map<Seq<char>, CoderV>,
    id: Seq<char>,
    given: Option<Seq<Seq<char>>>,
    depth: nat,
)
    requires
        coders.contains_key(id) || given is Some,
        forall|i: int|
            0 <= i < parts(coders, id, given).len() ==> resolvable(
                coders,
                #[trigger] parts(coders, id, given)[i],
                None,
                depth,
            ),
    ensures
        stands_for(coders, id, "beam:coder:kv:v1"@) && parts(coders, id, given).len() == 2
            ==> resolvable(coders, id, given, depth + 1),
        stands_for(coders, id, "beam:coder:iterable:v1"@) && parts(coders, id, given).len() == 1
            ==> resolvable(coders, id, given, depth + 1),
        stands_for(coders, id, "beam:coder:nullable:v1"@) && parts(coders, id, given).len() == 1
            ==> resolvable(coders, id, given, depth + 1),
        stands_for(coders, id, "beam:coder:tuple:v1"@) && parts(coders, id, given).len() > 0
            ==> resolvable(coders, id, given, depth + 1),
{
    coder_names();
}

// ---------------------------------------------------------------------------
// Coders with components
// ---------------------------------------------------------------------------
/// The components that a coder is made of: those that are given, or else those of the
/// pipeline's entry.
pub open spec fn parts(
    coders: Map<Seq<char>, CoderV>,
    id: Seq<char>,
    given: Option<Seq<Seq<char>>>,
) -> Seq<Seq<char>> {
    match given {
        Some(ids) => ids,
        None => coders[id].component_coder_ids,
    }
}

/// The records one behind the other.
pub open spec fn in_a_row(e: StandardBeamCoders, s: Seq<RecordV>) -> Seq<u8>
    decreases s.len(),
{
    if s.len() == 0 {
        seq![]
    } else {
        in_a_row(e, s.drop_last()) + wire(e, s.last())
    }
}

proof fn rows_agree(e: StandardBeamCoders, s: Seq<RecordV>)
    ensures
        wire_all(e, s) == in_a_row(e, s),
    decreases s.len(),
{
    if s.len() > 0 {
        rows_agree(e, s.skip(1));
        if s.len() == 1 {
            assert(s.drop_last() =~= seq![]);
            assert(s.skip(1) =~= seq![]);
            assert(wire_all(e, s.skip(1)) =~= seq![]);
            assert(wire_all(e, s) =~= in_a_row(e, s));
        } else {
            let m = s.skip(1);
            rows_agree(e, s.drop_last());
            assert(s.drop_last().skip(1) =~= m.drop_last());
            rows_agree(e, m.drop_last());
            assert(m.last() == s.last());
            assert(s.drop_last()[0] == s[0]);
            assert(wire_all(e, s) =~= in_a_row(e, s));
        }
    }
}

/// A coder of lists writes the number of the items as a word of four bytes, and then the
/// items with the coder of its component.
pub proof fn iterable_is_counted(
    coders: Map<Seq<char>, CoderV>,
    id: Seq<char>,
    given: Option<Seq<Seq<char>>>,
    c: StandardBeamCoders,
    items: Seq<RecordV>,
    rest: Seq<u8>,
) -> (e: StandardBeamCoders)
    requires
        resolves_to(coders, id, given, c),
        stands_for(coders, id, "beam:coder:iterable:v1"@),
        coders.contains_key(id) || given is Some,
        can_encode(c, RecordV::Iterable(items)),
    ensures
        resolves_to(coders, parts(coders, id, given)[0], None, e),
        exists|head: Seq<u8>| #[trigger]
            is_word_of(head, 4, items.len() as int) && wire(c, RecordV::Iterable(items)) == head
                + in_a_row(e, items),
        forall|i: int| 0 <= i < items.len() ==> can_encode(e, #[trigger] items[i]),
        record_fits(RecordV::Iterable(items)) ==> carries(
            c,
            RecordV::Iterable(items),
            wire(c, RecordV::Iterable(items)),
            rest,
        ),
{
    coder_names();
    let e = *c->Iterable_0.element_coder;
    assert(can_encode_list(e, items));
    rows_agree(e, items);
    word4(items.len());
    let head = big_endian(items.len(), 4);
    assert(is_word_of(head, 4, items.len() as int));
    assert(wire(c, RecordV::Iterable(items)) == wire_list(e, items));
    assert(wire_list(e, items) == head + in_a_row(e, items));
    if record_fits(RecordV::Iterable(items)) {
        record_round_trip(c, RecordV::Iterable(items), rest);
    }
    e
}

/// A coder of values that may be missing writes a zero for one that is, and else a one
/// and the value with the coder of its component.
pub proof fn nullable_is_marked(
    coders: Map<Seq<char>, CoderV>,
    id: Seq<char>,
    given: Option<Seq<Seq<char>>>,
    c: StandardBeamCoders,
    r: RecordV,
    rest: Seq<u8>,
) -> (e: StandardBeamCoders)
    requires
        resolves_to(coders, id, given, c),
        stands_for(coders, id, "beam:coder:nullable:v1"@),
        coders.contains_key(id) || given is Some,
        can_encode(c, r),
        record_fits(r),
    ensures
        resolves_to(coders, parts(coders, id, given)[0], None, e),
        r == primitive(PrimitiveV::Void) ==> carries(c, r, seq![0u8], rest),
        r != primitive(PrimitiveV::Void) ==> can_encode(e, r) && carries(
            c,
            r,
            seq![1u8] + wire(e, r),
            rest,
        ),
{
    coder_names();
    record_round_trip(c, r, rest);
    *c->Nullable_0.value_coder
}

/// A coder of pairs writes the key with the coder of its first component and then the
/// value with that of the second. Where that one is of lists, the pair is a group.
pub proof fn kv_is_key_then_value(
    coders: Map<Seq<char>, CoderV>,
    id: Seq<char>,
    given: Option<Seq<Seq<char>>>,
    c: StandardBeamCoders,
    key: PrimitiveV,
    value: RecordV,
    rest: Seq<u8>,
) -> (both: (StandardBeamCoders, StandardBeamCoders))
    requires
        resolves_to(coders, id, given, c),
        stands_for(coders, id, "beam:coder:kv:v1"@),
        coders.contains_key(id) || given is Some,
    ensures
        resolves_to(coders, parts(coders, id, given)[0], None, both.0),
        resolves_to(coders, parts(coders, id, given)[1], None, both.1),
        ({
            let r = match value {
                RecordV::Iterable(items) if both.1 is Iterable => RecordV::Gbk(key, items),
                _ => RecordV::Kv(key, Box::new(value)),
            };
            can_encode(c, r) && record_fits(r) ==> can_encode(both.0, primitive(key)) && can_encode(
                both.1,
                value,
            ) && carries(c, r, wire(both.0, primitive(key)) + wire(both.1, value), rest)
        }),
{
    coder_names();
    let both = match c {
        StandardBeamCoders::Kv(k, v) => (*k, *v),
        StandardBeamCoders::Gbk(k, ic) => (*k, StandardBeamCoders::Iterable(ic)),
        other => (other, other),
    };
    let r = match value {
        RecordV::Iterable(items) if both.1 is Iterable => RecordV::Gbk(key, items),
        _ => RecordV::Kv(key, Box::new(value)),
    };
    if can_encode(c, r) && record_fits(r) {
        record_round_trip(c, r, rest);
    }
    both
}

/// The components of a tuple are written one behind the other, each with its coder.
pub open spec fn tuple_in_a_row(tc: TupleCoder, ps: Seq<PrimitiveV>, n: nat) -> Seq<u8>
    decreases n,
{
    if n == 0 {
        seq![]
    } else {
        tuple_in_a_row(tc, ps, (n - 1) as nat) + wire(
            tc.component_coders@[n - 1],
            primitive(ps[n - 1]),
        )
    }
}

proof fn tuples_agree(tc: TupleCoder, ps: Seq<PrimitiveV>, i: nat)
    requires
        i <= tc.component_coders@.len(),
    ensures
        tuple_in_a_row(tc, ps, i) + wire_tuple(tc, ps, i) == tuple_in_a_row(
            tc,
            ps,
            tc.component_coders@.len(),
        ),
    decreases tc.component_coders@.len() - i,
{
    if i < tc.component_coders@.len() {
        tuples_agree(tc, ps, i + 1);
        let a = tuple_in_a_row(tc, ps, i);
        let b = wire(tc.component_coders@[i as int], primitive(ps[i as int]));
        let d = wire_tuple(tc, ps, i + 1);
        assert(a + (b + d) =~= (a + b) + d);
    } else {
        assert(tuple_in_a_row(tc, ps, i) + seq![] =~= tuple_in_a_row(tc, ps, i));
    }
}

proof fn component_at(
    coders: Map<Seq<char>, CoderV>,
    ids: Seq<Seq<char>>,
    cs: Vec<StandardBeamCoders>,
    i: nat,
    k: nat,
)
    requires
        components_resolve(coders, ids, cs, i),
        i <= k < cs@.len(),
    ensures
        resolves_to(coders, ids[k as int], None, cs@[k as int]),
    decreases k - i,
{
    if i < k {
        component_at(coders, ids, cs, i + 1, k);
    }
}

/// A coder of tuples has a coder for each of its components, in their order, and writes
/// the values in this order.
pub proof fn tuple_is_in_order(
    coders: Map<Seq<char>, CoderV>,
    id: Seq<char>,
    given: Option<Seq<Seq<char>>>,
    c: StandardBeamCoders,
    ps: Seq<PrimitiveV>,
    rest: Seq<u8>,
) -> (tc: TupleCoder)
    requires
        resolves_to(coders, id, given, c),
        stands_for(coders, id, "beam:coder:tuple:v1"@),
        coders.contains_key(id) || given is Some,
    ensures
        tc.component_coders@.len() == parts(coders, id, given).len(),
        forall|k: int|
            0 <= k < tc.component_coders@.len() ==> resolves_to(
                coders,
                parts(coders, id, given)[k],
                None,
                #[trigger] tc.component_coders@[k],
            ),
        can_encode(c, RecordV::Tuple(ps)) && record_fits(RecordV::Tuple(ps)) ==> ps.len()
            == tc.component_coders@.len() && carries(
            c,
            RecordV::Tuple(ps),
            tuple_in_a_row(tc, ps, ps.len()),
            rest,
        ),
{
    coder_names();
    let tc = c->Tuple_0;
    let ids = parts(coders, id, given);
    assert forall|k: int| 0 <= k < tc.component_coders@.len() implies resolves_to(
        coders,
        ids[k],
        None,
        #[trigger] tc.component_coders@[k],
    ) by {
        component_at(coders, ids, tc.component_coders, 0, k as nat);
    }
    if can_encode(c, RecordV::Tuple(ps)) && record_fits(RecordV::Tuple(ps)) {
        tuples_agree(tc, ps, 0);
        assert(tuple_in_a_row(tc, ps, 0) + wire_tuple(tc, ps, 0) =~= wire_tuple(tc, ps, 0));
        record_round_trip(c, RecordV::Tuple(ps), rest);
    }
    tc
}

// ---------------------------------------------------------------------------
// Elements in their windows
// ---------------------------------------------------------------------------
/// A number of 64 bits without its sign.
pub open spec fn without_sign(v: i64) -> int {
    if v < 0 {
        v + 0x1_0000_0000_0000_0000
    } else {
        v as int
    }
}

/// Whether a pane is the first and the last of its window, and when it fired, as a number.
pub open spec fn pane_start(pane: PaneInfo) -> int {
    (if pane.is_first {
        1int
    } else {
        0
    }) + (if pane.is_last {
        2int
    } else {
        0
    }) + (match pane.timing {
        PaneTiming::Early => 0int,
        PaneTiming::OnTime => 4int,
        PaneTiming::Late => 8int,
        PaneTiming::Unknown => 12int,
    })
}

/// Whether these bytes are the wire form of a pane: a byte of what it is and of how many
/// indices follow, and these. The second index is left out where it goes without saying,
/// and both where the first is zero too.
pub open spec fn is_pane_of(b: Seq<u8>, pane: PaneInfo) -> bool {
    if pane.non_speculative_index != (if pane.timing == PaneTiming::Early {
        -1i64
    } else {
        pane.index
    }) {
        exists|x: Seq<u8>, y: Seq<u8>| #[trigger]
            is_varint_of(x, without_sign(pane.index)) && #[trigger] is_varint_of(
                y,
                without_sign(pane.non_speculative_index),
            ) && b == seq![(pane_start(pane) + 32) as u8] + x + y
    } else if pane.index != 0 {
        exists|x: Seq<u8>| #[trigger]
            is_varint_of(x, without_sign(pane.index)) && b == seq![(pane_start(pane) + 16) as u8]
                + x
    } else {
        b == seq![pane_start(pane) as u8]
    }
}

/// Panes are written so.
#[verifier::spinoff_prover]
pub proof fn panes_are_written(pane: PaneInfo)
    ensures
        is_pane_of(pane_wire(pane), pane),
{
    let x = varint(crate::coders::wire::unsigned64(pane.index) as nat);
    let y = varint(crate::coders::wire::unsigned64(pane.non_speculative_index) as nat);
    varint_is_base_128(crate::coders::wire::unsigned64(pane.index) as nat);
    varint_is_base_128(crate::coders::wire::unsigned64(pane.non_speculative_index) as nat);
    assert(is_varint_of(x, without_sign(pane.index)));
    assert(is_varint_of(y, without_sign(pane.non_speculative_index)));
    let k = crate::coders::primitives::pane_encoding(pane);
    assert(crate::coders::primitives::pane_byte(pane) == (pane_start(pane) + 16 * k) as u8);
    if k == 2 {
        assert(pane_wire(pane) =~= seq![(pane_start(pane) + 32) as u8] + x + y);
    } else if k == 1 {
        assert(pane_wire(pane) =~= seq![(pane_start(pane) + 16) as u8] + x);
    } else {
        assert(pane_wire(pane) =~= seq![pane_start(pane) as u8]);
    }
}

/// An element in its windows is its time as a word of eight bytes, moved up so that no
/// time is negative; the number of its windows as a word of four bytes; its pane; and then
/// the element itself.
pub proof fn windowed_is_in_order(coder: WindowedValueCoder, m: WindowedV, rest: Seq<u8>) -> (r: (
    Seq<u8>,
    Seq<u8>,
    Seq<u8>,
))
    requires
        can_encode(coder.element_coder, m.value),
        record_fits(m.value),
        m.windows.len() <= i32::MAX,
    ensures
        is_word_of(r.0, 8, m.timestamp_millis + 0x8000_0000_0000_0000),
        is_word_of(r.1, 4, m.windows.len() as int),
        is_pane_of(r.2, m.pane),
        coder.wire(m) == r.0 + r.1 + r.2 + wire(coder.element_coder, m.value),
        coder.parse(coder.wire(m) + rest) == Parse::Value(m, coder.wire(m).len()),
{
    let t = crate::coders::primitives::shifted(m.timestamp_millis) as nat;
    word8(t);
    word4(m.windows.len());
    panes_are_written(m.pane);
    coder.round_trip(m, rest);
    let r = (big_endian(t, 8), big_endian(m.windows.len(), 4), pane_wire(m.pane));
    assert(coder.wire(m) =~= r.0 + r.1 + r.2 + wire(coder.element_coder, m.value));
    r
}

/// A value that the runner sends by itself is in the one global window, at the least time,
/// in the only pane.
pub proof fn global_values_stand_at_the_start(value: RecordV)
    ensures
        global_value(value).value == value,
        global_value(value).timestamp_millis == -9_223_372_036_854_775,
        global_value(value).windows.len() == 1,
        is_pane_of(seq![15u8], global_value(value).pane),
{
}

// ---------------------------------------------------------------------------
// Length prefixes
// ---------------------------------------------------------------------------
/// Whether the pipeline's entry is a pickled Python coder.
pub open spec fn is_python(coders: Map<Seq<char>, CoderV>, id: Seq<char>) -> bool {
    coders.contains_key(id) && coders[id].spec is Some && coders[id].spec->0.urn
        == "beam:coder:pickled_python:v1"@
}

/// Wrapping gives every pickled coder one that puts its length in front, moves to it the
/// references of all coders that are no such wrappers, and leaves the rest.
pub proof fn wrapping_moves_references(
    coders: Map<Seq<char>, CoderV>,
    id: Seq<char>,
    other: Seq<char>,
    i: int,
)
    requires
        is_python(coders, id),
        coders.contains_key(other),
        forall|x: Seq<char>| #[trigger] is_python(coders, x) ==> other != x + "_lp"@,
        0 <= i < coders[other].component_coder_ids.len(),
    ensures
        wrapped(coders).contains_key(id + "_lp"@),
        !coders.contains_key(id + "_lp"@) ==> {
            let w = wrapped(coders)[id + "_lp"@];
            &&& w.spec is Some
            &&& w.spec->0.urn == "beam:coder:length_prefix:v1"@
            &&& w.component_coder_ids == seq![id]
        },
        wrapped(coders).contains_key(other),
        wrapped(coders)[other].spec == coders[other].spec,
        wrapped(coders)[other].component_coder_ids.len()
            == coders[other].component_coder_ids.len(),
        wrapped(coders)[other].component_coder_ids[i] == (if is_python(
            coders,
            coders[other].component_coder_ids[i],
        ) {
            coders[other].component_coder_ids[i] + "_lp"@
        } else {
            coders[other].component_coder_ids[i]
        }),
{
    reveal_strlit("_lp");
    let w = id + "_lp"@;
    assert(w.take(w.len() - 3) =~= id);
    assert(is_wrapper_id(coders, w));
    if is_wrapper_id(coders, other) {
        let x = other.take(other.len() - 3);
        assert(is_python(coders, x));
        assert(lp_id(x) == other);
    }
}

} // verus!
