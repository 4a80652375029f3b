//! The elementary wire forms: variable-length integers, big-endian words and
//! length-prefixed bytes, each as a mathematical form, a reading of it, and the
//! code that writes and reads it.
use vstd::prelude::*;
use vstd::string::*;
use vstd::utf8::*;

verus! {

/// What reading a value off the front of some bytes comes to.
pub enum Parse<T> {
    /// The value, and how many bytes it took.
    Value(T, nat),
    /// The bytes say something that is refused, with the reason, and how many
    /// bytes were taken until then.
    Fail(Seq<char>, nat),
    /// The bytes end too early, or are no encoding at all.
    Malformed,
}

/// What a reading function returns: the value and the position behind it, the
/// reason for a refusal and the position reached, or `Malformed`.
pub enum Step<T> {
    Value(T, usize),
    Fail(String, usize),
    Malformed,
}

impl<T> Parse<T> {
    /// The same outcome, `k` more bytes taken.
    pub open spec fn after(self, k: nat) -> Parse<T> {
        match self {
            Parse::Value(v, n) => Parse::Value(v, k + n),
            Parse::Fail(m, n) => Parse::Fail(m, k + n),
            Parse::Malformed => Parse::Malformed,
        }
    }

    /// The outcome with its value carried over to another type.
    pub open spec fn map<U>(self, f: spec_fn(T) -> U) -> Parse<U> {
        match self {
            Parse::Value(v, n) => Parse::Value(f(v), n),
            Parse::Fail(m, n) => Parse::Fail(m, n),
            Parse::Malformed => Parse::Malformed,
        }
    }

    /// An outcome without a value, at another type.
    pub open spec fn failed<U>(self) -> Parse<U> {
        match self {
            Parse::Fail(m, n) => Parse::Fail(m, n),
            _ => Parse::Malformed,
        }
    }
}

impl<T> Parse<Seq<T>> {
    /// The outcome of reading a list whose items `s` were read before, from `k`
    /// bytes.
    pub open spec fn behind(self, s: Seq<T>, k: nat) -> Parse<Seq<T>> {
        match self {
            Parse::Value(v, n) => Parse::Value(s + v, k + n),
            Parse::Fail(m, n) => Parse::Fail(m, k + n),
            Parse::Malformed => Parse::Malformed,
        }
    }
}

/// Bytes with a reading position.
pub struct ByteReader {
    pub bytes: Vec<u8>,
    pub pos: usize,
}

impl View for ByteReader {
    type V = Seq<u8>;

    /// The bytes still to be read.
    open spec fn view(&self) -> Seq<u8> {
        self.bytes@.skip(self.pos as int)
    }
}

impl ByteReader {
    pub open spec fn wf(&self) -> bool {
        self.pos <= self.bytes@.len()
    }

    pub fn new(bytes: Vec<u8>) -> (r: ByteReader)
        ensures
            r.wf(),
            r.pos == 0,
            r.bytes@ == bytes@,
            r@ == bytes@,
    {
        let r = ByteReader { bytes, pos: 0 };
        assert(r@ =~= bytes@);
        r
    }
}

/// Ties what a reading function returned to the reading that it performs.
pub open spec fn step_is<T, M>(
    r: Step<T>,
    p: Parse<M>,
    model: spec_fn(T) -> M,
    bytes: Seq<u8>,
    at: usize,
) -> bool {
    match r {
        Step::Value(v, next) => at <= next <= bytes.len() && p == Parse::Value(
            model(v),
            (next - at) as nat,
        ),
        Step::Fail(m, next) => at <= next <= bytes.len() && p == Parse::<M>::Fail(
            m@,
            (next - at) as nat,
        ),
        Step::Malformed => p is Malformed,
    }
}

// ---------------------------------------------------------------------------
// Variable-length integers
// ---------------------------------------------------------------------------
/// The base-128 form of `n`, least digit first, every byte but the last with its
/// top bit set.
pub open spec fn varint(n: nat) -> Seq<u8>
    decreases n,
{
    if n < 128 {
        seq![n as u8]
    } else {
        seq![(n % 128 + 128) as u8] + varint(n / 128)
    }
}

/// The number that starts at the front of `b`, when `k` digits came before it. A
/// number has at most ten digits.
pub open spec fn digits(b: Seq<u8>, k: nat) -> Parse<nat>
    decreases b.len(),
{
    if b.len() == 0 || k >= 10 {
        Parse::Malformed
    } else if b[0] < 128 {
        Parse::Value(b[0] as nat, 1)
    } else {
        match digits(b.skip(1), k + 1) {
            Parse::Value(v, n) => Parse::Value((b[0] - 128) as nat + 128 * v, n + 1),
            _ => Parse::Malformed,
        }
    }
}

/// Two to the 64th.
pub open spec fn two64() -> int {
    0x1_0000_0000_0000_0000
}

/// The 64-bit number at the front of `b`; digits beyond 64 bits are dropped.
pub open spec fn parse_varint(b: Seq<u8>) -> Parse<u64> {
    match digits(b, 0) {
        Parse::Value(v, n) => Parse::Value((v % (two64() as nat)) as u64, n),
        _ => Parse::Malformed,
    }
}

/// A signed number as the unsigned one with the same 64 bits.
pub open spec fn unsigned64(v: i64) -> u64 {
    if v < 0 {
        (v + two64()) as u64
    } else {
        v as u64
    }
}

/// The signed number with the same 64 bits.
pub open spec fn signed64(v: u64) -> i64 {
    if v > i64::MAX {
        (v - two64()) as i64
    } else {
        v as i64
    }
}

pub fn to_unsigned64(v: i64) -> (r: u64)
    ensures
        r == unsigned64(v),
{
    if v < 0 {
        u64::MAX - ((-(v + 1)) as u64)
    } else {
        v as u64
    }
}

pub fn to_signed64(v: u64) -> (r: i64)
    ensures
        r == signed64(v),
{
    if v > i64::MAX as u64 {
        -((u64::MAX - v) as i64) - 1
    } else {
        v as i64
    }
}

/// A 32-bit number as the unsigned one with the same bits.
pub open spec fn unsigned32(v: i32) -> u32 {
    if v < 0 {
        (v + 0x1_0000_0000) as u32
    } else {
        v as u32
    }
}

pub open spec fn signed32(v: u32) -> i32 {
    if v > i32::MAX {
        (v - 0x1_0000_0000) as i32
    } else {
        v as i32
    }
}

pub fn to_unsigned32(v: i32) -> (r: u32)
    ensures
        r == unsigned32(v),
{
    if v < 0 {
        u32::MAX - ((-(v + 1)) as u32)
    } else {
        v as u32
    }
}

pub fn to_signed32(v: u32) -> (r: i32)
    ensures
        r == signed32(v),
{
    if v > i32::MAX as u32 {
        -((u32::MAX - v) as i32) - 1
    } else {
        v as i32
    }
}

/// Appends the variable-length form of `value`.
pub fn encode_varint(value: u64, buf: &mut Vec<u8>)
    ensures
        final(buf)@ == old(buf)@ + varint(value as nat),
{
    let mut rest: u64 = value;
    let ghost start = buf@;
    while rest >= 128
        invariant
            buf@ + varint(rest as nat) == start + varint(value as nat),
        decreases rest,
    {
        let ghost before = buf@;
        let byte: u8 = (rest % 128) as u8 + 128;
        buf.push(byte);
        rest = rest / 128;
        assert(buf@ + varint(rest as nat) =~= before + (seq![byte] + varint(rest as nat)));
    }
    buf.push(rest as u8);
    assert(varint(rest as nat) =~= seq![rest as u8]);
}

/// Appends the variable-length form of a signed number: its 64 bits.
pub fn encode_signed_varint(value: i64, buf: &mut Vec<u8>)
    ensures
        final(buf)@ == old(buf)@ + varint(unsigned64(value) as nat),
{
    encode_varint(to_unsigned64(value), buf);
}

/// Where the number that starts at `at` ends, if it has at most ten digits.
fn varint_end(bytes: &Vec<u8>, at: usize) -> (r: Option<usize>)
    requires
        at <= bytes@.len(),
    ensures
        match r {
            Some(end) => at < end <= bytes@.len() && end - at <= 10 && bytes@[end - 1] < 128 && (
            forall|i: int| at <= i < end - 1 ==> bytes@[i] >= 128),
            None => digits(bytes@.skip(at as int), 0) is Malformed,
        },
{
    let mut i: usize = 0;
    while i < 10 && i < bytes.len() - at && bytes[at + i] >= 128
        invariant
            at <= bytes@.len(),
            i <= 10,
            i <= bytes@.len() - at,
            forall|j: int| at <= j < at + i ==> bytes@[j] >= 128,
            digits(bytes@.skip((at + i) as int), i as nat) is Malformed ==> digits(
                bytes@.skip(at as int),
                0,
            ) is Malformed,
        decreases 10 - i,
    {
        let ghost here = bytes@.skip((at + i) as int);
        assert(here[0] == bytes@[at + i]);
        assert(here.skip(1) =~= bytes@.skip((at + i + 1) as int));
        i = i + 1;
    }
    if i == 10 || i == bytes.len() - at {
        None
    } else {
        Some(at + i + 1)
    }
}

/// Reading a number whose digits are marked as a whole.
proof fn digits_step(b: Seq<u8>, k: nat, v: nat, n: nat)
    requires
        b.len() > 0,
        k < 10,
        b[0] >= 128,
        digits(b.skip(1), k + 1) == Parse::Value(v, n),
    ensures
        digits(b, k) == Parse::Value((b[0] - 128) as nat + 128 * v, n + 1),
{
}

proof fn wrapped_digit(d: int, v: int, w: int)
    requires
        0 <= d < 128,
        0 <= v,
        w == v % two64(),
    ensures
        (d + (128 * w) % two64()) % two64() == (d + 128 * v) % two64(),
{
    let m = two64();
    let q = v / m;
    assert(v == m * q + w) by (nonlinear_arith)
        requires
            w == v % m,
            q == v / m,
            m > 0,
    ;
    assert(128 * v == m * (128 * q) + 128 * w) by (nonlinear_arith)
        requires
            v == m * q + w,
    ;
    assert((d + 128 * v) % m == (d + 128 * w) % m) by (nonlinear_arith)
        requires
            128 * v == m * (128 * q) + 128 * w,
            m > 0,
    {
        vstd::arithmetic::div_mod::lemma_mod_multiples_vanish(128 * q, d + 128 * w, m);
    }
    let x = 128 * w;
    vstd::arithmetic::div_mod::lemma_add_mod_noop_right(d, x, m);
}

/// Reads the number at `at`.
pub fn read_varint(bytes: &Vec<u8>, at: usize) -> (r: Step<u64>)
    requires
        at <= bytes@.len(),
    ensures
        step_is(r, parse_varint(bytes@.skip(at as int)), |v: u64| v, bytes@, at),
{
    let end: usize = match varint_end(bytes, at) {
        Some(end) => end,
        None => {
            return Step::Malformed;
        },
    };
    let mut i: usize = end - 1;
    let mut value: u64 = bytes[end - 1] as u64;
    let ghost mut whole: nat = value as nat;
    proof {
        let last = bytes@.skip(i as int);
        assert(last[0] == bytes@[i as int]);
        assert(digits(last, (i - at) as nat) == Parse::Value(whole, 1));
        vstd::arithmetic::div_mod::lemma_small_mod(whole, two64() as nat);
    }
    while i > at
        invariant
            at <= i < end <= bytes@.len(),
            end - at <= 10,
            forall|j: int| at <= j < end - 1 ==> bytes@[j] >= 128,
            digits(bytes@.skip(i as int), (i - at) as nat) == Parse::Value(
                whole,
                (end - i) as nat,
            ),
            value == whole % (two64() as nat),
        decreases i,
    {
        let ghost next = bytes@.skip(i as int);
        i = i - 1;
        let digit: u64 = (bytes[i] - 128) as u64;
        proof {
            let here = bytes@.skip(i as int);
            assert(here[0] == bytes@[i as int]);
            assert(here.skip(1) =~= next);
            digits_step(here, (i - at) as nat, whole, (end - i - 1) as nat);
            wrapped_digit(digit as int, whole as int, value as int);
            whole = digit as nat + 128 * whole;
        }
        value = digit.wrapping_add(value.wrapping_mul(128));
    }
    Step::Value(value, end)
}

/// Reads the signed number at `at`.
pub fn read_signed_varint(bytes: &Vec<u8>, at: usize) -> (r: Step<i64>)
    requires
        at <= bytes@.len(),
    ensures
        step_is(r, parse_signed_varint(bytes@.skip(at as int)), |v: i64| v, bytes@, at),
{
    match read_varint(bytes, at) {
        Step::Value(v, next) => Step::Value(to_signed64(v), next),
        Step::Fail(m, next) => Step::Fail(m, next),
        Step::Malformed => Step::Malformed,
    }
}

/// The signed number at the front of `b`.
pub open spec fn parse_signed_varint(b: Seq<u8>) -> Parse<i64> {
    match parse_varint(b) {
        Parse::Value(v, n) => Parse::Value(signed64(v), n),
        p => p.failed::<i64>(),
    }
}

/// Takes a number off the front.
pub fn decode_varint(buf: &mut ByteReader) -> (r: u64)
    requires
        old(buf).wf(),
        parse_varint(old(buf)@) is Value,
    ensures
        final(buf).wf(),
        final(buf).bytes@ == old(buf).bytes@,
        parse_varint(old(buf)@) == Parse::Value(r, (final(buf).pos - old(buf).pos) as nat),
{
    match read_varint(&buf.bytes, buf.pos) {
        Step::Value(v, next) => {
            buf.pos = next;
            v
        },
        _ => 0,
    }
}

/// Takes a signed number off the front.
pub fn decode_signed_varint(buf: &mut ByteReader) -> (r: i64)
    requires
        old(buf).wf(),
        parse_varint(old(buf)@) is Value,
    ensures
        final(buf).wf(),
        final(buf).bytes@ == old(buf).bytes@,
        parse_signed_varint(old(buf)@) == Parse::Value(
            r,
            (final(buf).pos - old(buf).pos) as nat,
        ),
{
    to_signed64(decode_varint(buf))
}

/// How many numbers `k` base-128 digits can tell apart.
pub open spec fn pow128(k: nat) -> nat
    decreases k,
{
    if k == 0 {
        1
    } else {
        128 * pow128((k - 1) as nat)
    }
}

proof fn digits_of_varint(n: nat, rest: Seq<u8>, k: nat)
    requires
        k < 10,
        n < pow128((10 - k) as nat),
    ensures
        digits(varint(n) + rest, k) == Parse::Value(n, varint(n).len()),
    decreases n,
{
    let b = varint(n) + rest;
    if n < 128 {
        assert(b[0] == n as u8);
    } else {
        if k == 9 {
            assert(pow128(1) == 128) by {
                reveal_with_fuel(pow128, 2);
            }
        }
        assert(n / 128 < pow128((10 - k - 1) as nat));
        digits_of_varint(n / 128, rest, k + 1);
        assert(b.skip(1) =~= varint(n / 128) + rest);
        assert(b[0] == (n % 128 + 128) as u8);
    }
}

/// A written number is read back, whatever follows it.
pub proof fn varint_round_trip(n: u64, rest: Seq<u8>)
    ensures
        parse_varint(varint(n as nat) + rest) == Parse::Value(n, varint(n as nat).len()),
{
    assert(pow128(10) > two64()) by {
        reveal_with_fuel(pow128, 11);
    }
    digits_of_varint(n as nat, rest, 0);
    assert((n as nat) % (two64() as nat) == n as nat);
}

/// A written signed number is read back, whatever follows it.
pub proof fn signed_varint_round_trip(v: i64, rest: Seq<u8>)
    ensures
        parse_signed_varint(varint(unsigned64(v) as nat) + rest) == Parse::Value(
            v,
            varint(unsigned64(v) as nat).len(),
        ),
{
    varint_round_trip(unsigned64(v), rest);
}

/// Reading looks no further than the bytes it takes, and takes at least one.
pub proof fn varint_takes(b: Seq<u8>)
    ensures
        parse_varint(b) matches Parse::Value(_, n) ==> 1 <= n <= b.len(),
        !(parse_varint(b) is Fail),
{
    digits_take(b, 0);
}

proof fn digits_take(b: Seq<u8>, k: nat)
    ensures
        digits(b, k) matches Parse::Value(_, n) ==> 1 <= n <= b.len() && n <= 10 - k,
        !(digits(b, k) is Fail),
    decreases b.len(),
{
    if b.len() > 0 && k < 10 && b[0] >= 128 {
        digits_take(b.skip(1), k + 1);
    }
}

// ---------------------------------------------------------------------------
// Big-endian words
// ---------------------------------------------------------------------------
/// The last `w` base-256 digits of `n`, greatest first.
pub open spec fn big_endian(n: nat, w: nat) -> Seq<u8>
    decreases w,
{
    if w == 0 {
        seq![]
    } else {
        big_endian(n / 256, (w - 1) as nat).push((n % 256) as u8)
    }
}

/// The number that the digits spell, greatest first.
pub open spec fn big_endian_value(b: Seq<u8>) -> nat
    decreases b.len(),
{
    if b.len() == 0 {
        0
    } else {
        256 * big_endian_value(b.drop_last()) + b.last() as nat
    }
}

pub open spec fn pow256(w: nat) -> nat
    decreases w,
{
    if w == 0 {
        1
    } else {
        256 * pow256((w - 1) as nat)
    }
}

pub proof fn big_endian_len(n: nat, w: nat)
    ensures
        big_endian(n, w).len() == w,
    decreases w,
{
    if w > 0 {
        big_endian_len(n / 256, (w - 1) as nat);
    }
}

/// A word is spelled back as it was.
pub proof fn big_endian_round_trip(n: nat, w: nat)
    requires
        n < pow256(w),
    ensures
        big_endian(n, w).len() == w,
        big_endian_value(big_endian(n, w)) == n,
    decreases w,
{
    big_endian_len(n, w);
    if w > 0 {
        big_endian_round_trip(n / 256, (w - 1) as nat);
        assert(big_endian(n, w).drop_last() =~= big_endian(n / 256, (w - 1) as nat));
    }
}

proof fn big_endian_bound(b: Seq<u8>)
    ensures
        big_endian_value(b) < pow256(b.len()),
    decreases b.len(),
{
    if b.len() > 0 {
        big_endian_bound(b.drop_last());
    }
}

/// The word of `w` bytes at the front of `b`.
pub open spec fn parse_word(b: Seq<u8>, w: nat) -> Parse<nat> {
    if b.len() < w {
        Parse::Malformed
    } else {
        Parse::Value(big_endian_value(b.take(w as int)), w)
    }
}

/// The signed 32-bit word at the front of `b`.
pub open spec fn parse_i32(b: Seq<u8>) -> Parse<i32> {
    match parse_word(b, 4) {
        Parse::Value(v, n) => Parse::Value(signed32(v as u32), n),
        _ => Parse::Malformed,
    }
}

/// The 64-bit word at the front of `b`.
pub open spec fn parse_u64(b: Seq<u8>) -> Parse<u64> {
    match parse_word(b, 8) {
        Parse::Value(v, n) => Parse::Value(v as u64, n),
        _ => Parse::Malformed,
    }
}

/// Appends the last `w` base-256 digits of `value`, greatest first.
pub fn put_word(value: u64, w: usize, buf: &mut Vec<u8>)
    ensures
        final(buf)@ == old(buf)@ + big_endian(value as nat, w as nat),
    decreases w,
{
    let ghost start = buf@;
    if w > 0 {
        put_word(value / 256, w - 1, buf);
        buf.push((value % 256) as u8);
        assert(buf@ =~= start + big_endian(value as nat, w as nat));
    } else {
        assert(buf@ =~= start + big_endian(value as nat, 0));
    }
}

/// Appends a signed 32-bit word.
pub fn put_i32(value: i32, buf: &mut Vec<u8>)
    ensures
        final(buf)@ == old(buf)@ + big_endian(unsigned32(value) as nat, 4),
{
    put_word(to_unsigned32(value) as u64, 4, buf);
}

/// Appends a 64-bit word.
pub fn put_u64(value: u64, buf: &mut Vec<u8>)
    ensures
        final(buf)@ == old(buf)@ + big_endian(value as nat, 8),
{
    put_word(value, 8, buf);
}

/// The word of `w` bytes at `at`.
pub fn read_word(bytes: &Vec<u8>, at: usize, w: usize) -> (r: u64)
    requires
        at + w <= bytes@.len(),
        w <= 8,
    ensures
        r == big_endian_value(bytes@.skip(at as int).take(w as int)),
        r < pow256(w as nat),
{
    let mut i: usize = 0;
    let mut value: u64 = 0;
    let n: usize = bytes.len();
    proof {
        assert(bytes@.skip(at as int).take(0) =~= Seq::<u8>::empty());
    }
    while i < w
        invariant
            i <= w <= 8,
            n == bytes@.len(),
            at + w <= n,
            value == big_endian_value(bytes@.skip(at as int).take(i as int)),
        decreases w - i,
    {
        proof {
            let b = bytes@.skip(at as int);
            big_endian_bound(b.take(i as int));
            pow256_small(i as nat);
            assert(b.take(i + 1).drop_last() =~= b.take(i as int));
            assert(b.take(i + 1).last() == bytes@[at + i]);
            assert(256 * value + bytes@[at + i] < two64());
        }
        value = 256 * value + bytes[at + i] as u64;
        i = i + 1;
    }
    proof {
        big_endian_bound(bytes@.skip(at as int).take(w as int));
    }
    value
}

pub proof fn pow256_small(i: nat)
    requires
        i < 8,
    ensures
        256 * pow256(i) <= two64(),
{
    reveal_with_fuel(pow256, 9);
}

/// Reads the signed 32-bit word at `at`.
pub fn read_i32(bytes: &Vec<u8>, at: usize) -> (r: Step<i32>)
    requires
        at <= bytes@.len(),
    ensures
        step_is(r, parse_i32(bytes@.skip(at as int)), |v: i32| v, bytes@, at),
{
    if bytes.len() - at < 4 {
        return Step::Malformed;
    }
    let word: u64 = read_word(bytes, at, 4);
    proof {
        reveal_with_fuel(pow256, 5);
    }
    Step::Value(to_signed32(word as u32), at + 4)
}

/// Reads the 64-bit word at `at`.
pub fn read_u64(bytes: &Vec<u8>, at: usize) -> (r: Step<u64>)
    requires
        at <= bytes@.len(),
    ensures
        step_is(r, parse_u64(bytes@.skip(at as int)), |v: u64| v, bytes@, at),
{
    if bytes.len() - at < 8 {
        return Step::Malformed;
    }
    Step::Value(read_word(bytes, at, 8), at + 8)
}

/// A written signed word is read back, whatever follows it.
pub proof fn i32_round_trip(v: i32, rest: Seq<u8>)
    ensures
        big_endian(unsigned32(v) as nat, 4).len() == 4,
        parse_i32(big_endian(unsigned32(v) as nat, 4) + rest) == Parse::Value(v, 4nat),
{
    assert(pow256(4) == 0x1_0000_0000) by {
        reveal_with_fuel(pow256, 5);
    }
    big_endian_round_trip(unsigned32(v) as nat, 4);
    let w = big_endian(unsigned32(v) as nat, 4);
    assert((w + rest).take(4) =~= w);
}

/// A written 64-bit word is read back, whatever follows it.
pub proof fn u64_round_trip(v: u64, rest: Seq<u8>)
    ensures
        big_endian(v as nat, 8).len() == 8,
        parse_u64(big_endian(v as nat, 8) + rest) == Parse::Value(v, 8nat),
{
    assert(pow256(8) == two64()) by {
        reveal_with_fuel(pow256, 9);
    }
    big_endian_round_trip(v as nat, 8);
    let w = big_endian(v as nat, 8);
    assert((w + rest).take(8) =~= w);
}

// ---------------------------------------------------------------------------
// Length-prefixed bytes and text
// ---------------------------------------------------------------------------
/// The bytes behind their length.
pub open spec fn prefixed(b: Seq<u8>) -> Seq<u8> {
    varint(b.len()) + b
}

/// The length-prefixed bytes at the front of `b`.
pub open spec fn parse_prefixed(b: Seq<u8>) -> Parse<Seq<u8>> {
    match parse_varint(b) {
        Parse::Value(len, n) => if len <= b.len() - n {
            Parse::Value(b.subrange(n as int, n + len), n + len as nat)
        } else {
            Parse::Malformed
        },
        _ => Parse::Malformed,
    }
}

/// The length-prefixed text at the front of `b`.
pub open spec fn parse_text(b: Seq<u8>) -> Parse<Seq<char>> {
    match parse_prefixed(b) {
        Parse::Value(s, n) => if valid_utf8(s) {
            Parse::Value(decode_utf8(s), n)
        } else {
            Parse::Malformed
        },
        _ => Parse::Malformed,
    }
}

/// Appends the bytes behind their length.
pub fn put_prefixed(value: &[u8], buf: &mut Vec<u8>)
    ensures
        final(buf)@ == old(buf)@ + prefixed(value@),
{
    let ghost start = buf@;
    encode_varint(value.len() as u64, buf);
    let ghost headed = buf@;
    let n: usize = value.len();
    let mut i: usize = 0;
    while i < n
        invariant
            n == value@.len(),
            i <= n,
            buf@ == headed + value@.take(i as int),
        decreases n - i,
    {
        buf.push(value[i]);
        assert(value@.take(i + 1) =~= value@.take(i as int).push(value@[i as int]));
        assert(buf@ =~= headed + value@.take(i + 1));
        i = i + 1;
    }
    assert(value@.take(n as int) =~= value@);
    assert(buf@ =~= start + prefixed(value@));
}

/// The bytes from `from` up to `to`.
pub fn copy_range(bytes: &Vec<u8>, from: usize, to: usize) -> (r: Vec<u8>)
    requires
        from <= to <= bytes@.len(),
    ensures
        r@ == bytes@.subrange(from as int, to as int),
{
    let mut out: Vec<u8> = Vec::new();
    let mut i: usize = from;
    while i < to
        invariant
            from <= i <= to <= bytes@.len(),
            out@ == bytes@.subrange(from as int, i as int),
        decreases to - i,
    {
        out.push(bytes[i]);
        assert(bytes@.subrange(from as int, i + 1) =~= bytes@.subrange(from as int, i as int).push(
            bytes@[i as int],
        ));
        i = i + 1;
    }
    out
}

/// Reads the length-prefixed bytes at `at`.
pub fn read_prefixed(bytes: &Vec<u8>, at: usize) -> (r: Step<Vec<u8>>)
    requires
        at <= bytes@.len(),
    ensures
        step_is(r, parse_prefixed(bytes@.skip(at as int)), |v: Vec<u8>| v@, bytes@, at),
{
    match read_varint(bytes, at) {
        Step::Value(len, next) => {
            if len <= (bytes.len() - next) as u64 {
                let end: usize = next + len as usize;
                let value = copy_range(bytes, next, end);
                assert(value@ =~= bytes@.skip(at as int).subrange(next - at, end - at));
                Step::Value(value, end)
            } else {
                Step::Malformed
            }
        },
        Step::Fail(m, next) => {
            proof {
                varint_takes(bytes@.skip(at as int));
            }
            Step::Malformed
        },
        Step::Malformed => Step::Malformed,
    }
}

/// How the standard library words its refusal of bytes that are no UTF-8.
pub uninterp spec fn utf8_error_text(bytes: Seq<u8>) -> Seq<char>;

/// `String::from_utf8`: the text whose UTF-8 form the bytes are, or the wording of
/// the error where they are no UTF-8, which is claimed to depend on the bytes
/// alone.
#[verifier::external_body]
pub(crate) fn text_from_utf8(bytes: Vec<u8>) -> (r: Result<String, String>)
    ensures
        match r {
            Ok(s) => valid_utf8(bytes@) && s@ == decode_utf8(bytes@),
            Err(m) => !valid_utf8(bytes@) && m@ == utf8_error_text(bytes@),
        },
{
    String::from_utf8(bytes).map_err(|e| e.to_string())
}

/// Reads the length-prefixed text at `at`.
pub fn read_text(bytes: &Vec<u8>, at: usize) -> (r: Step<String>)
    requires
        at <= bytes@.len(),
    ensures
        step_is(r, parse_text(bytes@.skip(at as int)), |v: String| v@, bytes@, at),
{
    match read_prefixed(bytes, at) {
        Step::Value(raw, next) => match text_from_utf8(raw) {
            Ok(s) => Step::Value(s, next),
            Err(_) => Step::Malformed,
        },
        Step::Fail(m, next) => {
            proof {
                varint_takes(bytes@.skip(at as int));
            }
            Step::Malformed
        },
        Step::Malformed => Step::Malformed,
    }
}

/// Written bytes are read back, whatever follows them.
pub proof fn prefixed_round_trip(b: Seq<u8>, rest: Seq<u8>)
    requires
        b.len() <= u64::MAX,
    ensures
        parse_prefixed(prefixed(b) + rest) == Parse::Value(b, prefixed(b).len()),
{
    let n = b.len() as u64;
    varint_round_trip(n, b + rest);
    assert(prefixed(b) + rest =~= varint(n as nat) + (b + rest));
    let k = varint(n as nat).len();
    assert((prefixed(b) + rest).subrange(k as int, k + n) =~= b);
}

/// Written text is read back, whatever follows it.
pub proof fn text_round_trip(s: Seq<char>, rest: Seq<u8>)
    requires
        encode_utf8(s).len() <= u64::MAX,
    ensures
        parse_text(prefixed(encode_utf8(s)) + rest) == Parse::Value(
            s,
            prefixed(encode_utf8(s)).len(),
        ),
{
    prefixed_round_trip(encode_utf8(s), rest);
    encode_utf8_valid_utf8(s);
    encode_utf8_decode_utf8(s);
}

} // verus!
