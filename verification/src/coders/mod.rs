//! The wire coders.
use crate::coders::primitives::{
    BoolCoder, BytesCoder, DoubleCoder, IterableCoder, LengthPrefixCoder, NullableCoder,
    PickleCoder, StringUtf8Coder, TupleCoder, VarInt32Coder, VarIntCoder, VoidCoder,
};
use crate::coders::wire::{ByteReader, Parse, Step};
use crate::store::record::{record_model, BeamRecord};
use crate::utils::errors::CodersError;
use vstd::prelude::*;

pub use crate::coders::resolve::{
    length_prefix_pickled_leaves, length_prefixed_coder_id, length_prefixed_suffix,
    resolve_length_prefixed_coder_id,
};

pub mod copies;
pub mod laws;
pub mod nested;
pub mod prefix;
pub mod primitives;
pub mod reading_laws;
pub mod resolve;
pub mod row;
pub mod row_laws;
pub mod schema;
pub mod wire;
pub mod writable;

verus! {

/// Writes values of `T` to wire bytes and reads them back.
///
/// Coders are composed: composite coders call their components, so a coder used
/// inside another must be self-delimiting: a value that was written is read back
/// whatever follows it. Every coder proves that of itself (`round_trip`).
pub trait BeamCoder<T> {
    /// The mathematical value that a `T` stands for.
    type Model;

    spec fn model(val: T) -> Self::Model;

    /// The values that the coder can write.
    spec fn can_encode(&self, m: Self::Model) -> bool;

    /// The values whose lengths fit the fields in which they are written.
    spec fn fits(&self, m: Self::Model) -> bool;

    /// The wire form of a value.
    spec fn wire(&self, m: Self::Model) -> Seq<u8>;

    /// What the bytes read as.
    spec fn parse(&self, bytes: Seq<u8>) -> Parse<Self::Model>;

    /// Appends the wire form of `val`.
    fn encode(&self, val: T, buf: &mut Vec<u8>)
        requires
            self.can_encode(Self::model(val)),
        ensures
            final(buf)@ == old(buf)@ + self.wire(Self::model(val)),
    ;

    /// Reads the value at `at`, on any bytes.
    fn read(&self, bytes: &Vec<u8>, at: usize) -> (r: Step<T>)
        requires
            at <= bytes@.len(),
        ensures
            match r {
                Step::Value(v, next) => at <= next <= bytes@.len() && self.parse(
                    bytes@.skip(at as int),
                ) == Parse::Value(Self::model(v), (next - at) as nat),
                Step::Fail(m, next) => at <= next <= bytes@.len() && self.parse(
                    bytes@.skip(at as int),
                ) == Parse::<Self::Model>::Fail(m@, (next - at) as nat),
                Step::Malformed => self.parse(bytes@.skip(at as int)) is Malformed,
            },
    ;

    /// Takes a value off the front of bytes that are not malformed.
    fn decode(&self, buf: &mut ByteReader) -> (r: Result<T, CodersError>)
        requires
            old(buf).wf(),
            !(self.parse(old(buf)@) is Malformed),
        ensures
            final(buf).wf(),
            final(buf).bytes@ == old(buf).bytes@,
            final(buf).pos >= old(buf).pos,
            match r {
                Ok(v) => self.parse(old(buf)@) == Parse::Value(
                    Self::model(v),
                    (final(buf).pos - old(buf).pos) as nat,
                ),
                Err(e) => e matches CodersError::WhileDecoding(m) && self.parse(old(buf)@)
                    == Parse::<Self::Model>::Fail(m@, (final(buf).pos - old(buf).pos) as nat),
            },
    {
        match self.read(&buf.bytes, buf.pos) {
            Step::Value(v, next) => {
                buf.pos = next;
                Ok(v)
            },
            Step::Fail(m, next) => {
                buf.pos = next;
                Err(CodersError::WhileDecoding(m))
            },
            Step::Malformed => Err(CodersError::WhileDecoding("malformed".to_owned())),
        }
    }

    /// A written value is read back, whatever follows it.
    proof fn round_trip(&self, m: Self::Model, rest: Seq<u8>)
        requires
            self.can_encode(m),
            self.fits(m),
        ensures
            self.parse(self.wire(m) + rest) == Parse::Value(m, self.wire(m).len()),
    ;
}

/// The coders that a pipeline's collections may use.
///
/// The coders of opaque Python values (`Pickle`, `LengthPrefix`) carry bytes that
/// are never looked into; `Tuple`, `Nullable`, `Iterable`, `Kv` and `Gbk` are
/// made of others.
#[derive(Debug)]
pub enum StandardBeamCoders {
    StringUtf8(StringUtf8Coder),
    Bytes(BytesCoder),
    /// The 64-bit variable-length integer.
    VarInt(VarIntCoder),
    /// The 32-bit variable-length integer of the Java SDK.
    VarInt32(VarInt32Coder),
    Bool(BoolCoder),
    Double(DoubleCoder),
    Void(VoidCoder),
    Iterable(IterableCoder),
    /// A value that may be missing.
    Nullable(NullableCoder),
    /// An opaque value behind its length.
    LengthPrefix(LengthPrefixCoder),
    /// A pickled Python value.
    Pickle(PickleCoder),
    /// A fixed number of components, each with its own coder.
    Tuple(TupleCoder),
    Kv(Box<StandardBeamCoders>, Box<StandardBeamCoders>),
    Gbk(Box<StandardBeamCoders>, IterableCoder),
}

impl StandardBeamCoders {
    /// Whether this is the coder of the empty value.
    ///
    /// Such an element takes no bytes, but the windowed value around it carries a
    /// timestamp, windows and a pane that must be kept as they were written, so
    /// collections with this coder are stored and forwarded as raw bytes.
    pub fn is_void(&self) -> (r: bool)
        ensures
            r == (*self is Void),
    {
        match self {
            StandardBeamCoders::Void(_) => true,
            _ => false,
        }
    }

    /// Appends the wire form of `record`.
    ///
    /// Elements are sent one behind the other, so every form is self-delimiting.
    pub fn encode(&self, record: BeamRecord, buf: &mut Vec<u8>)
        requires
            nested::can_encode(*self, record_model(record)),
        ensures
            final(buf)@ == old(buf)@ + nested::wire(*self, record_model(record)),
    {
        nested::encode_record(self, &record, buf);
    }

    /// Takes a record off the front of bytes that are not malformed.
    pub fn decode(&self, buf: &mut ByteReader) -> (r: Result<BeamRecord, CodersError>)
        requires
            old(buf).wf(),
            !(nested::parse(*self, old(buf)@) is Malformed),
        ensures
            final(buf).wf(),
            final(buf).bytes@ == old(buf).bytes@,
            final(buf).pos >= old(buf).pos,
            match r {
                Ok(v) => nested::parse(*self, old(buf)@) == Parse::Value(
                    record_model(v),
                    (final(buf).pos - old(buf).pos) as nat,
                ),
                Err(e) => e matches CodersError::WhileDecoding(m) && nested::parse(
                    *self,
                    old(buf)@,
                ) == Parse::<crate::store::record::RecordV>::Fail(
                    m@,
                    (final(buf).pos - old(buf).pos) as nat,
                ),
            },
    {
        match nested::read_record(self, &buf.bytes, buf.pos) {
            Step::Value(v, next) => {
                buf.pos = next;
                Ok(v)
            },
            Step::Fail(m, next) => {
                buf.pos = next;
                Err(CodersError::WhileDecoding(m))
            },
            Step::Malformed => Err(CodersError::WhileDecoding("malformed".to_owned())),
        }
    }
}

} // verus!
