//! The coders, one type each, and the windowed value around an element.
use crate::coders::nested::{
    can_encode, can_encode_list, encode_list, encode_record, encode_tuple, parse, parse_bool,
    parse_double, parse_list, parse_tuple, parse_varint32, read_bool, read_double, read_list,
    read_record, read_tuple, read_varint32, record_fits, wire, wire_list, wire_tuple,
};
use crate::coders::wire::{
    big_endian, encode_signed_varint, encode_varint, parse_i32, parse_prefixed,
    parse_signed_varint, parse_text, parse_u64, parse_varint, prefixed, put_prefixed, put_u64,
    put_word, read_i32, read_prefixed, read_signed_varint, read_text, read_u64, read_varint,
    step_is, to_unsigned32, unsigned32, unsigned64, varint, ByteReader, Parse, Step,
};
use crate::coders::{BeamCoder, StandardBeamCoders};
use crate::store::record::{
    primitives_model, record_model, records_model, BeamRecord, PrimitiveV, PrimitiveValue, RecordV,
};
use vstd::prelude::*;
use vstd::string::*;
use vstd::utf8::*;

verus! {

/// The smallest timestamp of the model, in milliseconds.
pub const BEAM_MIN_TIMESTAMP_MILLIS: i64 = -9_223_372_036_854_775;

/// Text: its UTF-8 bytes behind their number.
#[derive(Debug, Clone, Copy)]
pub struct StringUtf8Coder;

impl BeamCoder<String> for StringUtf8Coder {
    type Model = Seq<char>;

    open spec fn model(val: String) -> Seq<char> {
        val@
    }

    open spec fn can_encode(&self, m: Seq<char>) -> bool {
        true
    }

    open spec fn fits(&self, m: Seq<char>) -> bool {
        encode_utf8(m).len() <= u64::MAX
    }

    open spec fn wire(&self, m: Seq<char>) -> Seq<u8> {
        prefixed(encode_utf8(m))
    }

    open spec fn parse(&self, bytes: Seq<u8>) -> Parse<Seq<char>> {
        parse_text(bytes)
    }

    fn encode(&self, val: String, buf: &mut Vec<u8>) {
        put_prefixed(val.as_str().as_bytes(), buf);
    }

    fn read(&self, bytes: &Vec<u8>, at: usize) -> (r: Step<String>) {
        read_text(bytes, at)
    }

    proof fn round_trip(&self, m: Seq<char>, rest: Seq<u8>) {
        crate::coders::wire::text_round_trip(m, rest);
    }
}

/// Bytes behind their number.
#[derive(Debug, Clone, Copy)]
pub struct BytesCoder;

impl BeamCoder<Vec<u8>> for BytesCoder {
    type Model = Seq<u8>;

    open spec fn model(val: Vec<u8>) -> Seq<u8> {
        val@
    }

    open spec fn can_encode(&self, m: Seq<u8>) -> bool {
        true
    }

    open spec fn fits(&self, m: Seq<u8>) -> bool {
        m.len() <= u64::MAX
    }

    open spec fn wire(&self, m: Seq<u8>) -> Seq<u8> {
        prefixed(m)
    }

    open spec fn parse(&self, bytes: Seq<u8>) -> Parse<Seq<u8>> {
        parse_prefixed(bytes)
    }

    fn encode(&self, val: Vec<u8>, buf: &mut Vec<u8>) {
        put_prefixed(val.as_slice(), buf);
    }

    fn read(&self, bytes: &Vec<u8>, at: usize) -> (r: Step<Vec<u8>>) {
        read_prefixed(bytes, at)
    }

    proof fn round_trip(&self, m: Seq<u8>, rest: Seq<u8>) {
        crate::coders::wire::prefixed_round_trip(m, rest);
    }
}

/// A 64-bit number: the base-128 form of its 64 bits.
#[derive(Debug, Clone, Copy)]
pub struct VarIntCoder;

impl BeamCoder<i64> for VarIntCoder {
    type Model = i64;

    open spec fn model(val: i64) -> i64 {
        val
    }

    open spec fn can_encode(&self, m: i64) -> bool {
        true
    }

    open spec fn fits(&self, m: i64) -> bool {
        true
    }

    open spec fn wire(&self, m: i64) -> Seq<u8> {
        varint(unsigned64(m) as nat)
    }

    open spec fn parse(&self, bytes: Seq<u8>) -> Parse<i64> {
        parse_signed_varint(bytes)
    }

    fn encode(&self, val: i64, buf: &mut Vec<u8>) {
        encode_signed_varint(val, buf);
    }

    fn read(&self, bytes: &Vec<u8>, at: usize) -> (r: Step<i64>) {
        read_signed_varint(bytes, at)
    }

    proof fn round_trip(&self, m: i64, rest: Seq<u8>) {
        crate::coders::wire::signed_varint_round_trip(m, rest);
    }
}

/// A 32-bit number of the Java SDK.
///
/// It differs from [`VarIntCoder`] only for negative numbers, whose 32 bits are
/// written without carrying the sign into the upper half: `-1` takes five bytes
/// here and ten there. A number beyond 32 bits is refused when read.
#[derive(Debug, Clone, Copy)]
pub struct VarInt32Coder;

impl BeamCoder<i64> for VarInt32Coder {
    type Model = i64;

    open spec fn model(val: i64) -> i64 {
        val
    }

    open spec fn can_encode(&self, m: i64) -> bool {
        i32::MIN <= m <= i32::MAX
    }

    open spec fn fits(&self, m: i64) -> bool {
        true
    }

    open spec fn wire(&self, m: i64) -> Seq<u8> {
        varint(unsigned32(m as i32) as nat)
    }

    open spec fn parse(&self, bytes: Seq<u8>) -> Parse<i64> {
        parse_varint32(bytes)
    }

    fn encode(&self, val: i64, buf: &mut Vec<u8>) {
        encode_varint(to_unsigned32(val as i32) as u64, buf);
    }

    fn read(&self, bytes: &Vec<u8>, at: usize) -> (r: Step<i64>) {
        read_varint32(bytes, at)
    }

    proof fn round_trip(&self, m: i64, rest: Seq<u8>) {
        crate::coders::wire::varint_round_trip(unsigned32(m as i32) as u64, rest);
    }
}

/// The two integer coders write a number that is not negative alike.
pub proof fn varint32_agrees_with_varint(v: i64)
    requires
        0 <= v <= i32::MAX,
    ensures
        VarInt32Coder.wire(v) == VarIntCoder.wire(v),
{
}

/// A truth value: one byte.
#[derive(Debug, Clone, Copy)]
pub struct BoolCoder;

impl BeamCoder<bool> for BoolCoder {
    type Model = bool;

    open spec fn model(val: bool) -> bool {
        val
    }

    open spec fn can_encode(&self, m: bool) -> bool {
        true
    }

    open spec fn fits(&self, m: bool) -> bool {
        true
    }

    open spec fn wire(&self, m: bool) -> Seq<u8> {
        seq![if m { 1u8 } else { 0u8 }]
    }

    open spec fn parse(&self, bytes: Seq<u8>) -> Parse<bool> {
        parse_bool(bytes)
    }

    fn encode(&self, val: bool, buf: &mut Vec<u8>) {
        buf.push(if val { 1 } else { 0 });
    }

    fn read(&self, bytes: &Vec<u8>, at: usize) -> (r: Step<bool>) {
        read_bool(bytes, at)
    }

    proof fn round_trip(&self, m: bool, rest: Seq<u8>) {
        assert((self.wire(m) + rest)[0] == (if m { 1u8 } else { 0u8 }));
    }
}

/// A floating-point number: its 64 bits, greatest byte first. The number is
/// handed over as those bits.
#[derive(Debug, Clone, Copy)]
pub struct DoubleCoder;

impl BeamCoder<u64> for DoubleCoder {
    type Model = u64;

    open spec fn model(val: u64) -> u64 {
        val
    }

    open spec fn can_encode(&self, m: u64) -> bool {
        true
    }

    open spec fn fits(&self, m: u64) -> bool {
        true
    }

    open spec fn wire(&self, m: u64) -> Seq<u8> {
        big_endian(m as nat, 8)
    }

    open spec fn parse(&self, bytes: Seq<u8>) -> Parse<u64> {
        parse_double(bytes)
    }

    fn encode(&self, val: u64, buf: &mut Vec<u8>) {
        put_u64(val, buf);
    }

    fn read(&self, bytes: &Vec<u8>, at: usize) -> (r: Step<u64>) {
        read_double(bytes, at)
    }

    proof fn round_trip(&self, m: u64, rest: Seq<u8>) {
        crate::coders::wire::u64_round_trip(m, rest);
    }
}

/// A list: the number of its items as a 32-bit word, then each item.
///
/// When read, the number may be -1: then chunks of items follow, each behind its
/// own count, up to a count of zero.
#[derive(Debug, Clone)]
pub struct IterableCoder {
    pub element_coder: Box<StandardBeamCoders>,
}

impl IterableCoder {
    pub fn new(element_coder: StandardBeamCoders) -> (r: IterableCoder)
        ensures
            *r.element_coder == element_coder,
    {
        IterableCoder { element_coder: Box::new(element_coder) }
    }
}

impl BeamCoder<Vec<BeamRecord>> for IterableCoder {
    type Model = Seq<RecordV>;

    open spec fn model(val: Vec<BeamRecord>) -> Seq<RecordV> {
        records_model(val@)
    }

    open spec fn can_encode(&self, m: Seq<RecordV>) -> bool {
        can_encode_list(*self.element_coder, m)
    }

    open spec fn fits(&self, m: Seq<RecordV>) -> bool {
        forall|i: int| 0 <= i < m.len() ==> record_fits(#[trigger] m[i])
    }

    open spec fn wire(&self, m: Seq<RecordV>) -> Seq<u8> {
        wire_list(*self.element_coder, m)
    }

    open spec fn parse(&self, bytes: Seq<u8>) -> Parse<Seq<RecordV>> {
        parse_list(*self.element_coder, bytes)
    }

    fn encode(&self, val: Vec<BeamRecord>, buf: &mut Vec<u8>) {
        encode_list(&self.element_coder, &val, buf);
    }

    fn read(&self, bytes: &Vec<u8>, at: usize) -> (r: Step<Vec<BeamRecord>>) {
        read_list(&self.element_coder, bytes, at)
    }

    proof fn round_trip(&self, m: Seq<RecordV>, rest: Seq<u8>) {
        crate::coders::nested::list_round_trip(*self.element_coder, m, rest);
    }
}

/// A tuple: its components in order, each with its own coder, without a length.
#[derive(Debug, Clone)]
pub struct TupleCoder {
    pub component_coders: Vec<StandardBeamCoders>,
}

impl TupleCoder {
    pub fn new(component_coders: Vec<StandardBeamCoders>) -> (r: TupleCoder)
        ensures
            r.component_coders@ == component_coders@,
    {
        TupleCoder { component_coders }
    }

    pub fn component_coders(&self) -> (r: &[StandardBeamCoders])
        ensures
            r@ == self.component_coders@,
    {
        self.component_coders.as_slice()
    }
}

impl BeamCoder<Vec<PrimitiveValue>> for TupleCoder {
    type Model = Seq<PrimitiveV>;

    open spec fn model(val: Vec<PrimitiveValue>) -> Seq<PrimitiveV> {
        primitives_model(val@)
    }

    open spec fn can_encode(&self, m: Seq<PrimitiveV>) -> bool {
        can_encode(StandardBeamCoders::Tuple(*self), RecordV::Tuple(m))
    }

    open spec fn fits(&self, m: Seq<PrimitiveV>) -> bool {
        record_fits(RecordV::Tuple(m))
    }

    open spec fn wire(&self, m: Seq<PrimitiveV>) -> Seq<u8> {
        wire_tuple(*self, m, 0)
    }

    open spec fn parse(&self, bytes: Seq<u8>) -> Parse<Seq<PrimitiveV>> {
        parse_tuple(*self, 0, bytes)
    }

    fn encode(&self, val: Vec<PrimitiveValue>, buf: &mut Vec<u8>) {
        encode_tuple(self, &val, buf);
    }

    fn read(&self, bytes: &Vec<u8>, at: usize) -> (r: Step<Vec<PrimitiveValue>>) {
        read_tuple(self, bytes, at)
    }

    proof fn round_trip(&self, m: Seq<PrimitiveV>, rest: Seq<u8>) {
        crate::coders::nested::record_round_trip(
            StandardBeamCoders::Tuple(*self),
            RecordV::Tuple(m),
            rest,
        );
    }
}

/// A pickled Python value, carried as the bytes it came in, behind their number.
#[derive(Debug, Clone, Copy)]
pub struct PickleCoder;

impl BeamCoder<Vec<u8>> for PickleCoder {
    type Model = Seq<u8>;

    open spec fn model(val: Vec<u8>) -> Seq<u8> {
        val@
    }

    open spec fn can_encode(&self, m: Seq<u8>) -> bool {
        true
    }

    open spec fn fits(&self, m: Seq<u8>) -> bool {
        m.len() <= u64::MAX
    }

    open spec fn wire(&self, m: Seq<u8>) -> Seq<u8> {
        prefixed(m)
    }

    open spec fn parse(&self, bytes: Seq<u8>) -> Parse<Seq<u8>> {
        parse_prefixed(bytes)
    }

    fn encode(&self, val: Vec<u8>, buf: &mut Vec<u8>) {
        put_prefixed(val.as_slice(), buf);
    }

    fn read(&self, bytes: &Vec<u8>, at: usize) -> (r: Step<Vec<u8>>) {
        read_prefixed(bytes, at)
    }

    proof fn round_trip(&self, m: Seq<u8>, rest: Seq<u8>) {
        crate::coders::wire::prefixed_round_trip(m, rest);
    }
}

/// A value that may be missing: the byte 0 for a missing one, which reads as
/// [`PrimitiveValue::Void`], or the byte 1 and the value.
#[derive(Debug, Clone)]
pub struct NullableCoder {
    pub value_coder: Box<StandardBeamCoders>,
}

impl NullableCoder {
    pub fn new(value_coder: StandardBeamCoders) -> (r: NullableCoder)
        ensures
            *r.value_coder == value_coder,
    {
        NullableCoder { value_coder: Box::new(value_coder) }
    }
}

impl BeamCoder<BeamRecord> for NullableCoder {
    type Model = RecordV;

    open spec fn model(val: BeamRecord) -> RecordV {
        record_model(val)
    }

    open spec fn can_encode(&self, m: RecordV) -> bool {
        can_encode(StandardBeamCoders::Nullable(*self), m)
    }

    open spec fn fits(&self, m: RecordV) -> bool {
        record_fits(m)
    }

    open spec fn wire(&self, m: RecordV) -> Seq<u8> {
        wire(StandardBeamCoders::Nullable(*self), m)
    }

    open spec fn parse(&self, bytes: Seq<u8>) -> Parse<RecordV> {
        parse(StandardBeamCoders::Nullable(*self), bytes)
    }

    fn encode(&self, val: BeamRecord, buf: &mut Vec<u8>) {
        crate::coders::nested::encode_nullable(self, &val, buf);
    }

    fn read(&self, bytes: &Vec<u8>, at: usize) -> (r: Step<BeamRecord>) {
        crate::coders::nested::read_nullable(self, bytes, at)
    }

    proof fn round_trip(&self, m: RecordV, rest: Seq<u8>) {
        crate::coders::nested::record_round_trip(StandardBeamCoders::Nullable(*self), m, rest);
    }
}

/// An opaque value as bytes behind their number.
///
/// Several Python coders go by one name and write different forms, so the SDK is
/// asked to put a length in front of them, and their bytes are kept as they are.
#[derive(Debug, Clone, Copy)]
pub struct LengthPrefixCoder;

impl BeamCoder<Vec<u8>> for LengthPrefixCoder {
    type Model = Seq<u8>;

    open spec fn model(val: Vec<u8>) -> Seq<u8> {
        val@
    }

    open spec fn can_encode(&self, m: Seq<u8>) -> bool {
        true
    }

    open spec fn fits(&self, m: Seq<u8>) -> bool {
        m.len() <= u64::MAX
    }

    open spec fn wire(&self, m: Seq<u8>) -> Seq<u8> {
        prefixed(m)
    }

    open spec fn parse(&self, bytes: Seq<u8>) -> Parse<Seq<u8>> {
        parse_prefixed(bytes)
    }

    fn encode(&self, val: Vec<u8>, buf: &mut Vec<u8>) {
        put_prefixed(val.as_slice(), buf);
    }

    fn read(&self, bytes: &Vec<u8>, at: usize) -> (r: Step<Vec<u8>>) {
        read_prefixed(bytes, at)
    }

    proof fn round_trip(&self, m: Seq<u8>, rest: Seq<u8>) {
        crate::coders::wire::prefixed_round_trip(m, rest);
    }
}

/// The empty value: no bytes at all.
#[derive(Debug, Clone, Copy)]
pub struct VoidCoder;

impl BeamCoder<()> for VoidCoder {
    type Model = ();

    open spec fn model(val: ()) -> () {
        val
    }

    open spec fn can_encode(&self, m: ()) -> bool {
        true
    }

    open spec fn fits(&self, m: ()) -> bool {
        true
    }

    open spec fn wire(&self, m: ()) -> Seq<u8> {
        seq![]
    }

    open spec fn parse(&self, bytes: Seq<u8>) -> Parse<()> {
        Parse::Value((), 0)
    }

    fn encode(&self, val: (), buf: &mut Vec<u8>) {
        assert(buf@ =~= buf@ + self.wire(val));
    }

    fn read(&self, bytes: &Vec<u8>, at: usize) -> (r: Step<()>) {
        Step::Value((), at)
    }

    proof fn round_trip(&self, m: (), rest: Seq<u8>) {
    }
}

// ---------------------------------------------------------------------------
// Windowed values
// ---------------------------------------------------------------------------
/// The windows that a value can lie in.
#[derive(Debug, Clone, Copy, PartialEq, Eq, Structural)]
pub enum BeamWindow {
    Global,
}

/// When a pane fired.
#[derive(Debug, Clone, Copy, PartialEq, Eq, Structural)]
pub enum PaneTiming {
    Early,
    OnTime,
    Late,
    Unknown,
}

impl PaneTiming {
    /// The two bits of the timing.
    pub open spec fn bits(self) -> u8 {
        match self {
            PaneTiming::Early => 0,
            PaneTiming::OnTime => 1,
            PaneTiming::Late => 2,
            PaneTiming::Unknown => 3,
        }
    }

    pub fn to_bits(self) -> (r: u8)
        ensures
            r == self.bits(),
    {
        match self {
            PaneTiming::Early => 0,
            PaneTiming::OnTime => 1,
            PaneTiming::Late => 2,
            PaneTiming::Unknown => 3,
        }
    }

    /// The timing with these bits; everything above two is `Unknown`.
    pub open spec fn of_bits(bits: u8) -> PaneTiming {
        if bits == 0 {
            PaneTiming::Early
        } else if bits == 1 {
            PaneTiming::OnTime
        } else if bits == 2 {
            PaneTiming::Late
        } else {
            PaneTiming::Unknown
        }
    }

    pub fn from_bits(bits: u8) -> (r: PaneTiming)
        ensures
            r == PaneTiming::of_bits(bits),
    {
        if bits == 0 {
            PaneTiming::Early
        } else if bits == 1 {
            PaneTiming::OnTime
        } else if bits == 2 {
            PaneTiming::Late
        } else {
            PaneTiming::Unknown
        }
    }
}

/// Which firing of its window a value belongs to.
#[derive(Debug, Clone, Copy, PartialEq, Eq, Structural)]
pub struct PaneInfo {
    pub is_first: bool,
    pub is_last: bool,
    pub timing: PaneTiming,
    pub index: i64,
    pub non_speculative_index: i64,
}

impl PaneInfo {
    /// The pane of a value that no trigger fired.
    pub fn no_firing() -> (r: PaneInfo)
        ensures
            r == no_firing_pane(),
    {
        PaneInfo {
            is_first: true,
            is_last: true,
            timing: PaneTiming::Unknown,
            index: 0,
            non_speculative_index: 0,
        }
    }
}

pub open spec fn no_firing_pane() -> PaneInfo {
    PaneInfo {
        is_first: true,
        is_last: true,
        timing: PaneTiming::Unknown,
        index: 0,
        non_speculative_index: 0,
    }
}

/// A value with its time, its windows and its pane.
#[derive(Debug, Clone)]
pub struct WindowedValue {
    pub value: BeamRecord,
    pub timestamp_millis: i64,
    pub windows: Vec<BeamWindow>,
    pub pane: PaneInfo,
}

/// A windowed value as mathematics sees it.
#[verifier::ext_equal]
pub struct WindowedV {
    pub value: RecordV,
    pub timestamp_millis: i64,
    pub windows: Seq<BeamWindow>,
    pub pane: PaneInfo,
}

impl WindowedValue {
    pub open spec fn model(self) -> WindowedV {
        WindowedV {
            value: record_model(self.value),
            timestamp_millis: self.timestamp_millis,
            windows: self.windows@,
            pane: self.pane,
        }
    }

    /// The value in the global window, at the smallest time.
    pub fn global(value: BeamRecord) -> (r: WindowedValue)
        ensures
            r.value == value,
            r.model() == global_value(record_model(value)),
    {
        let mut windows: Vec<BeamWindow> = Vec::new();
        windows.push(BeamWindow::Global);
        let r = WindowedValue {
            value,
            timestamp_millis: BEAM_MIN_TIMESTAMP_MILLIS,
            windows,
            pane: PaneInfo::no_firing(),
        };
        assert(r.windows@ =~= seq![BeamWindow::Global]);
        r
    }
}

/// The value in the global window, at the smallest time.
pub open spec fn global_value(value: RecordV) -> WindowedV {
    WindowedV {
        value,
        timestamp_millis: BEAM_MIN_TIMESTAMP_MILLIS,
        windows: seq![BeamWindow::Global],
        pane: no_firing_pane(),
    }
}

/// A timestamp shifted so that its order is that of its bytes.
pub open spec fn shifted(timestamp_millis: i64) -> u64 {
    (timestamp_millis + 0x8000_0000_0000_0000) as u64
}

/// The timestamp at the front of `b`.
pub open spec fn parse_timestamp(b: Seq<u8>) -> Parse<i64> {
    parse_u64(b).map(|v: u64| (v - 0x8000_0000_0000_0000) as i64)
}

pub fn encode_timestamp_millis(timestamp_millis: i64, buf: &mut Vec<u8>)
    ensures
        final(buf)@ == old(buf)@ + big_endian(shifted(timestamp_millis) as nat, 8),
{
    let moved: i128 = timestamp_millis as i128 + 0x8000_0000_0000_0000;
    put_u64(moved as u64, buf);
}

/// Reads the timestamp at `at`.
pub fn read_timestamp(bytes: &Vec<u8>, at: usize) -> (r: Step<i64>)
    requires
        at <= bytes@.len(),
    ensures
        step_is(r, parse_timestamp(bytes@.skip(at as int)), |v: i64| v, bytes@, at),
{
    match read_u64(bytes, at) {
        Step::Value(v, next) => {
            let moved: i128 = v as i128 - 0x8000_0000_0000_0000;
            Step::Value(moved as i64, next)
        },
        Step::Fail(m, next) => Step::Fail(m, next),
        Step::Malformed => Step::Malformed,
    }
}

/// Takes a timestamp off the front.
pub fn decode_timestamp_millis(buf: &mut ByteReader) -> (r: i64)
    requires
        old(buf).wf(),
        old(buf)@.len() >= 8,
    ensures
        final(buf).wf(),
        final(buf).bytes@ == old(buf).bytes@,
        parse_timestamp(old(buf)@) == Parse::Value(r, (final(buf).pos - old(buf).pos) as nat),
{
    match read_timestamp(&buf.bytes, buf.pos) {
        Step::Value(v, next) => {
            buf.pos = next;
            v
        },
        _ => 0,
    }
}

/// A written timestamp is read back, whatever follows it.
pub proof fn timestamp_round_trip(t: i64, rest: Seq<u8>)
    ensures
        parse_timestamp(big_endian(shifted(t) as nat, 8) + rest) == Parse::Value(t, 8nat),
{
    crate::coders::wire::u64_round_trip(shifted(t), rest);
}

/// Earlier timestamps are written as smaller words.
pub proof fn timestamp_order(a: i64, b: i64)
    ensures
        a < b <==> shifted(a) < shifted(b),
{
}

/// `n` global windows.
pub open spec fn globals(n: nat) -> Seq<BeamWindow> {
    Seq::new(n, |i: int| BeamWindow::Global)
}

/// The windows at the front of `b`: a count, or a negative count and chunks. The
/// global window itself takes no bytes.
pub open spec fn parse_windows(b: Seq<u8>) -> Parse<Seq<BeamWindow>> {
    match parse_i32(b) {
        Parse::Value(count, n) => if count >= 0 {
            Parse::Value(globals(count as nat), n)
        } else {
            parse_window_chunks(b.skip(n as int)).after(n)
        },
        p => p.failed::<Seq<BeamWindow>>(),
    }
}

/// Counts of windows, up to a count of zero.
pub open spec fn parse_window_chunks(b: Seq<u8>) -> Parse<Seq<BeamWindow>>
    decreases b.len(),
{
    match parse_varint(b) {
        Parse::Value(count, k) => if count == 0 {
            Parse::Value(seq![], k)
        } else if 1 <= k <= b.len() {
            parse_window_chunks(b.skip(k as int)).behind(globals(count as nat), k)
        } else {
            Parse::Malformed
        },
        p => p.failed::<Seq<BeamWindow>>(),
    }
}

/// Appends the number of windows, cut to 32 bits.
pub fn encode_global_windows(windows: &[BeamWindow], buf: &mut Vec<u8>)
    ensures
        final(buf)@ == old(buf)@ + big_endian(windows@.len(), 4),
{
    put_word(windows.len() as u64, 4, buf);
}

/// Adds `count` global windows.
fn push_globals(windows: &mut Vec<BeamWindow>, count: u64)
    ensures
        final(windows)@ == old(windows)@ + globals(count as nat),
{
    let ghost start = windows@;
    let mut i: u64 = 0;
    assert(windows@ =~= start + globals(0));
    while i < count
        invariant
            i <= count,
            windows@ == start + globals(i as nat),
        decreases count - i,
    {
        windows.push(BeamWindow::Global);
        i = i + 1;
        assert(windows@ =~= start + globals(i as nat));
    }
}

/// Reads the windows at `at`.
pub fn read_windows(bytes: &Vec<u8>, at: usize) -> (r: Step<Vec<BeamWindow>>)
    requires
        at <= bytes@.len(),
    ensures
        step_is(
            r,
            parse_windows(bytes@.skip(at as int)),
            |v: Vec<BeamWindow>| v@,
            bytes@,
            at,
        ),
{
    let mut windows: Vec<BeamWindow> = Vec::new();
    let (count, start): (i32, usize) = match read_i32(bytes, at) {
        Step::Value(count, next) => (count, next),
        Step::Fail(m, next) => {
            return Step::Fail(m, next);
        },
        Step::Malformed => {
            return Step::Malformed;
        },
    };
    if count >= 0 {
        push_globals(&mut windows, count as u64);
        assert(windows@ =~= globals(count as nat));
        return Step::Value(windows, start);
    }
    let mut pos: usize = start;
    let ghost whole = parse_window_chunks(bytes@.skip(start as int));
    proof {
        assert(bytes@.skip(at as int).skip(start - at) =~= bytes@.skip(start as int));
        match whole {
            Parse::Value(s, n) => {
                assert(seq![] + s =~= s);
            },
            _ => {},
        }
    }
    loop
        invariant
            at <= start <= pos <= bytes@.len(),
            count < 0,
            parse_i32(bytes@.skip(at as int)) == Parse::Value(count, (start - at) as nat),
            bytes@.skip(at as int).skip(start - at) == bytes@.skip(start as int),
            whole == parse_window_chunks(bytes@.skip(start as int)),
            whole == parse_window_chunks(bytes@.skip(pos as int)).behind(
                windows@,
                (pos - start) as nat,
            ),
        decreases bytes@.len() - pos,
    {
        let ghost here = bytes@.skip(pos as int);
        let ghost before = windows@;
        proof {
            crate::coders::wire::varint_takes(here);
        }
        match read_varint(bytes, pos) {
            Step::Value(chunk, next) => {
                if chunk == 0 {
                    assert(before + seq![] =~= before);
                    return Step::Value(windows, next);
                }
                proof {
                    assert(here.skip(next - pos) =~= bytes@.skip(next as int));
                    match parse_window_chunks(bytes@.skip(next as int)) {
                        Parse::Value(s, n) => {
                            assert(before + (globals(chunk as nat) + s) =~= (before + globals(
                                chunk as nat,
                            )) + s);
                        },
                        _ => {},
                    }
                }
                push_globals(&mut windows, chunk);
                pos = next;
            },
            Step::Fail(m, next) => {
                return Step::Fail(m, next);
            },
            Step::Malformed => {
                return Step::Malformed;
            },
        }
    }
}

/// Takes the windows off the front.
pub fn decode_global_windows(buf: &mut ByteReader) -> (r: Vec<BeamWindow>)
    requires
        old(buf).wf(),
        parse_windows(old(buf)@) is Value,
    ensures
        final(buf).wf(),
        final(buf).bytes@ == old(buf).bytes@,
        parse_windows(old(buf)@) == Parse::Value(r@, (final(buf).pos - old(buf).pos) as nat),
{
    match read_windows(&buf.bytes, buf.pos) {
        Step::Value(v, next) => {
            buf.pos = next;
            v
        },
        _ => Vec::new(),
    }
}

/// Written windows are read back, whatever follows them.
pub proof fn windows_round_trip(windows: Seq<BeamWindow>, rest: Seq<u8>)
    requires
        windows.len() <= i32::MAX,
    ensures
        parse_windows(big_endian(windows.len(), 4) + rest) == Parse::Value(windows, 4nat),
{
    crate::coders::wire::i32_round_trip(windows.len() as i32, rest);
    assert forall|i: int| 0 <= i < windows.len() implies windows[i] == BeamWindow::Global by {
        match windows[i] {
            BeamWindow::Global => {},
        }
    }
    assert(windows =~= globals(windows.len()));
}

/// The non-speculative index that goes without saying.
pub open spec fn derived_index(timing: PaneTiming, index: i64) -> i64 {
    if timing == PaneTiming::Early {
        -1i64
    } else {
        index
    }
}

/// How much of a pane is written: 0 for neither index, 1 for the index, 2 for
/// both.
pub open spec fn pane_encoding(pane: PaneInfo) -> u8 {
    if pane.non_speculative_index != derived_index(pane.timing, pane.index) {
        2
    } else if pane.index != 0 {
        1
    } else {
        0
    }
}

/// The first byte of a pane: what is written, the timing, last, first.
pub open spec fn pane_byte(pane: PaneInfo) -> u8 {
    (16 * pane_encoding(pane) + 4 * pane.timing.bits() + (if pane.is_last {
        2int
    } else {
        0
    }) + (if pane.is_first {
        1int
    } else {
        0
    })) as u8
}

/// The wire form of a pane.
pub open spec fn pane_wire(pane: PaneInfo) -> Seq<u8> {
    let head = seq![pane_byte(pane)];
    if pane_encoding(pane) == 2 {
        head + varint(unsigned64(pane.index) as nat) + varint(
            unsigned64(pane.non_speculative_index) as nat,
        )
    } else if pane_encoding(pane) == 1 {
        head + varint(unsigned64(pane.index) as nat)
    } else {
        head
    }
}

/// The pane with this first byte and these indices.
pub open spec fn pane_of(first_byte: u8, index: i64, non_speculative_index: i64) -> PaneInfo {
    PaneInfo {
        is_first: first_byte % 2 == 1,
        is_last: first_byte / 2 % 2 == 1,
        timing: PaneTiming::of_bits(first_byte / 4 % 4),
        index,
        non_speculative_index,
    }
}

/// The pane at the front of `b`.
pub open spec fn parse_pane(b: Seq<u8>) -> Parse<PaneInfo> {
    if b.len() == 0 {
        Parse::Malformed
    } else {
        let first = b[0];
        let timing = PaneTiming::of_bits(first / 4 % 4);
        if first / 16 == 0 {
            Parse::Value(pane_of(first, 0, derived_index(timing, 0)), 1)
        } else {
            match parse_signed_varint(b.skip(1)) {
                Parse::Value(index, n) => if first / 16 == 1 {
                    Parse::Value(pane_of(first, index, derived_index(timing, index)), 1 + n)
                } else {
                    parse_signed_varint(b.skip((1 + n) as int)).after(1 + n).map(
                        |last: i64| pane_of(first, index, last),
                    )
                },
                p => p.after(1).failed::<PaneInfo>(),
            }
        }
    }
}

pub fn encode_pane_info(pane: &PaneInfo, buf: &mut Vec<u8>)
    ensures
        final(buf)@ == old(buf)@ + pane_wire(*pane),
{
    let ghost start = buf@;
    let derived: i64 = if pane.timing == PaneTiming::Early {
        -1
    } else {
        pane.index
    };
    let has_index: bool = pane.index != 0;
    let has_both: bool = pane.non_speculative_index != derived;
    let kind: u8 = if has_both {
        2
    } else if has_index {
        1
    } else {
        0
    };
    let last: u8 = if pane.is_last {
        2
    } else {
        0
    };
    let first: u8 = if pane.is_first {
        1
    } else {
        0
    };
    let timing: u8 = pane.timing.to_bits();
    buf.push(16 * kind + 4 * timing + last + first);
    if has_both {
        encode_signed_varint(pane.index, buf);
        encode_signed_varint(pane.non_speculative_index, buf);
    } else if has_index {
        encode_signed_varint(pane.index, buf);
    }
    assert(buf@ =~= start + pane_wire(*pane));
}

/// Reads the pane at `at`.
pub fn read_pane(bytes: &Vec<u8>, at: usize) -> (r: Step<PaneInfo>)
    requires
        at <= bytes@.len(),
    ensures
        step_is(r, parse_pane(bytes@.skip(at as int)), |v: PaneInfo| v, bytes@, at),
{
    if at == bytes.len() {
        return Step::Malformed;
    }
    let first_byte: u8 = bytes[at];
    let ghost b = bytes@.skip(at as int);
    assert(b[0] == first_byte);
    let encoding: u8 = first_byte / 16;
    let timing = PaneTiming::from_bits(first_byte / 4 % 4);
    let is_first: bool = first_byte % 2 == 1;
    let is_last: bool = first_byte / 2 % 2 == 1;
    let mut index: i64 = 0;
    let mut pos: usize = at + 1;
    if encoding >= 1 {
        assert(b.skip(1) =~= bytes@.skip(at + 1));
        match read_signed_varint(bytes, pos) {
            Step::Value(v, next) => {
                index = v;
                pos = next;
            },
            Step::Fail(m, next) => {
                return Step::Fail(m, next);
            },
            Step::Malformed => {
                return Step::Malformed;
            },
        }
    }
    let mut non_speculative_index: i64 = if timing == PaneTiming::Early {
        -1
    } else {
        index
    };
    if encoding >= 2 {
        assert(b.skip(pos - at) =~= bytes@.skip(pos as int));
        match read_signed_varint(bytes, pos) {
            Step::Value(v, next) => {
                non_speculative_index = v;
                pos = next;
            },
            Step::Fail(m, next) => {
                return Step::Fail(m, next);
            },
            Step::Malformed => {
                return Step::Malformed;
            },
        }
    }
    Step::Value(PaneInfo { is_first, is_last, timing, index, non_speculative_index }, pos)
}

/// Takes a pane off the front.
pub fn decode_pane_info(buf: &mut ByteReader) -> (r: PaneInfo)
    requires
        old(buf).wf(),
        parse_pane(old(buf)@) is Value,
    ensures
        final(buf).wf(),
        final(buf).bytes@ == old(buf).bytes@,
        parse_pane(old(buf)@) == Parse::Value(r, (final(buf).pos - old(buf).pos) as nat),
{
    match read_pane(&buf.bytes, buf.pos) {
        Step::Value(v, next) => {
            buf.pos = next;
            v
        },
        _ => PaneInfo::no_firing(),
    }
}

/// What the first byte of a pane holds.
#[verifier::spinoff_prover]
proof fn pane_byte_parts(pane: PaneInfo)
    ensures
        pane_byte(pane) / 16 == pane_encoding(pane),
        PaneTiming::of_bits(pane_byte(pane) / 4 % 4) == pane.timing,
        (pane_byte(pane) % 2 == 1) == pane.is_first,
        (pane_byte(pane) / 2 % 2 == 1) == pane.is_last,
{
    assert(pane_byte(pane) / 4 % 4 == pane.timing.bits());
}

/// A written pane is read back, whatever follows it.
pub proof fn pane_round_trip(pane: PaneInfo, rest: Seq<u8>)
    ensures
        parse_pane(pane_wire(pane) + rest) == Parse::Value(pane, pane_wire(pane).len()),
{
    let b = pane_wire(pane) + rest;
    let first = pane_byte(pane);
    let k = pane_encoding(pane);
    assert(b[0] == first);
    pane_byte_parts(pane);
    let w1 = varint(unsigned64(pane.index) as nat);
    let w2 = varint(unsigned64(pane.non_speculative_index) as nat);
    if k == 1 {
        assert(b.skip(1) =~= w1 + rest);
        crate::coders::wire::signed_varint_round_trip(pane.index, rest);
    } else if k == 2 {
        assert(b.skip(1) =~= w1 + (w2 + rest));
        crate::coders::wire::signed_varint_round_trip(pane.index, w2 + rest);
        assert(b.skip((1 + w1.len()) as int) =~= w2 + rest);
        crate::coders::wire::signed_varint_round_trip(pane.non_speculative_index, rest);
    }
}

/// The coder of an element in its windows.
#[derive(Debug, Clone)]
pub struct WindowedValueCoder {
    pub element_coder: StandardBeamCoders,
}

impl WindowedValueCoder {
    pub fn new(element_coder: StandardBeamCoders) -> (r: WindowedValueCoder)
        ensures
            r.element_coder == element_coder,
    {
        WindowedValueCoder { element_coder }
    }

    /// Appends the value in the global window.
    pub fn encode_value(&self, value: BeamRecord, buf: &mut Vec<u8>)
        requires
            can_encode(self.element_coder, record_model(value)),
        ensures
            final(buf)@ == old(buf)@ + self.wire(global_value(record_model(value))),
    {
        let windowed = WindowedValue::global(value);
        self.encode(windowed, buf);
    }
}

impl BeamCoder<WindowedValue> for WindowedValueCoder {
    type Model = WindowedV;

    open spec fn model(val: WindowedValue) -> WindowedV {
        val.model()
    }

    open spec fn can_encode(&self, m: WindowedV) -> bool {
        can_encode(self.element_coder, m.value)
    }

    open spec fn fits(&self, m: WindowedV) -> bool {
        record_fits(m.value) && m.windows.len() <= i32::MAX
    }

    open spec fn wire(&self, m: WindowedV) -> Seq<u8> {
        big_endian(shifted(m.timestamp_millis) as nat, 8) + (big_endian(m.windows.len(), 4) + (
        pane_wire(m.pane) + wire(self.element_coder, m.value)))
    }

    open spec fn parse(&self, bytes: Seq<u8>) -> Parse<WindowedV> {
        match parse_timestamp(bytes) {
            Parse::Value(timestamp_millis, n1) => {
                let b1 = bytes.skip(n1 as int);
                match parse_windows(b1) {
                    Parse::Value(windows, n2) => {
                        let b2 = b1.skip(n2 as int);
                        match parse_pane(b2) {
                            Parse::Value(pane, n3) => parse(
                                self.element_coder,
                                b2.skip(n3 as int),
                            ).after(n1 + n2 + n3).map(
                                |value: RecordV|
                                    WindowedV { value, timestamp_millis, windows, pane },
                            ),
                            p => p.after(n1 + n2).failed::<WindowedV>(),
                        }
                    },
                    p => p.after(n1).failed::<WindowedV>(),
                }
            },
            p => p.failed::<WindowedV>(),
        }
    }

    fn encode(&self, val: WindowedValue, buf: &mut Vec<u8>) {
        let ghost start = buf@;
        encode_timestamp_millis(val.timestamp_millis, buf);
        encode_global_windows(val.windows.as_slice(), buf);
        encode_pane_info(&val.pane, buf);
        encode_record(&self.element_coder, &val.value, buf);
        assert(buf@ =~= start + self.wire(val.model()));
    }

    fn read(&self, bytes: &Vec<u8>, at: usize) -> (r: Step<WindowedValue>) {
        let (timestamp_millis, p1): (i64, usize) = match read_timestamp(bytes, at) {
            Step::Value(v, next) => (v, next),
            Step::Fail(m, next) => {
                return Step::Fail(m, next);
            },
            Step::Malformed => {
                return Step::Malformed;
            },
        };
        assert(bytes@.skip(at as int).skip(p1 - at) =~= bytes@.skip(p1 as int));
        let (windows, p2): (Vec<BeamWindow>, usize) = match read_windows(bytes, p1) {
            Step::Value(v, next) => (v, next),
            Step::Fail(m, next) => {
                return Step::Fail(m, next);
            },
            Step::Malformed => {
                return Step::Malformed;
            },
        };
        assert(bytes@.skip(p1 as int).skip(p2 - p1) =~= bytes@.skip(p2 as int));
        let (pane, p3): (PaneInfo, usize) = match read_pane(bytes, p2) {
            Step::Value(v, next) => (v, next),
            Step::Fail(m, next) => {
                return Step::Fail(m, next);
            },
            Step::Malformed => {
                return Step::Malformed;
            },
        };
        assert(bytes@.skip(p2 as int).skip(p3 - p2) =~= bytes@.skip(p3 as int));
        match read_record(&self.element_coder, bytes, p3) {
            Step::Value(value, next) => Step::Value(
                WindowedValue { value, timestamp_millis, windows, pane },
                next,
            ),
            Step::Fail(m, next) => Step::Fail(m, next),
            Step::Malformed => Step::Malformed,
        }
    }

    proof fn round_trip(&self, m: WindowedV, rest: Seq<u8>) {
        let w0 = wire(self.element_coder, m.value);
        let w1 = pane_wire(m.pane);
        let w2 = big_endian(m.windows.len(), 4);
        let w3 = big_endian(shifted(m.timestamp_millis) as nat, 8);
        let b = self.wire(m) + rest;
        crate::coders::wire::u64_round_trip(
            shifted(m.timestamp_millis),
            w2 + (w1 + (w0 + rest)),
        );
        timestamp_round_trip(m.timestamp_millis, w2 + (w1 + (w0 + rest)));
        crate::coders::wire::big_endian_len(m.windows.len(), 4);
        windows_round_trip(m.windows, w1 + (w0 + rest));
        pane_round_trip(m.pane, w0 + rest);
        crate::coders::nested::record_round_trip(self.element_coder, m.value, rest);
        assert(b =~= w3 + (w2 + (w1 + (w0 + rest))));
        let b1 = b.skip(8);
        assert(b1 =~= w2 + (w1 + (w0 + rest)));
        let b2 = b1.skip(4);
        assert(b2 =~= w1 + (w0 + rest));
        assert(b2.skip(w1.len() as int) =~= w0 + rest);
    }
}

} // verus!
