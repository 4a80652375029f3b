//! The elements that a stage gives out: from pieces of a byte stream to batches.
use crate::coders::nested::{can_encode, record_fits, SHORT_DOUBLE};
use crate::coders::prefix::{is_cut, settles, windowed_settles};
use crate::coders::primitives::{global_value, WindowedV, WindowedValue, WindowedValueCoder};
use crate::coders::wire::{copy_range, Parse, Step};
use crate::coders::writable::is_writable;
use crate::coders::BeamCoder;
use crate::store::record::{record_model, records_model, BeamRecord, RecordV};
use crate::text::{around_decimal, decimal, join3, same_text};
use crate::utils::errors::CodersError;
use vstd::prelude::*;
use vstd::string::*;

verus! {

// ---------------------------------------------------------------------------
// What a stream holds
// ---------------------------------------------------------------------------
/// What the stream reads as at its front. Where it ends within an element, more is
/// waited for, even if the coder refuses what is there.
#[verifier::opaque]
pub open spec fn front(c: WindowedValueCoder, b: Seq<u8>) -> Parse<WindowedV> {
    if is_cut(c.parse(b)) {
        Parse::Malformed
    } else {
        c.parse(b)
    }
}

/// Whether the stream ends within a floating-point number of its first element.
#[verifier::opaque]
pub open spec fn ends_in_double(c: WindowedValueCoder, b: Seq<u8>) -> bool {
    is_cut(c.parse(b))
}

/// What is at the front of the beginning of a stream is at the front of the whole.
proof fn front_settles(c: WindowedValueCoder, b: Seq<u8>, x: Seq<u8>)
    requires
        settles(front(c, b)),
    ensures
        front(c, b + x) == front(c, b),
        front(c, b) is Value ==> 8 <= front(c, b)->Value_1 <= b.len(),
{
    reveal(front);
    windowed_settles(c, b, x);
}

/// What is left of a stream when its elements are taken off, one after the other.
#[verifier::ext_equal]
pub struct Drained {
    /// The elements.
    pub values: Seq<RecordV>,
    /// The bytes behind the last element.
    pub rest: Seq<u8>,
    /// Why these bytes are refused, where they are.
    pub refusal: Option<Seq<char>>,
}

/// Takes elements off the stream as long as there are complete ones.
pub open spec fn drained(c: WindowedValueCoder, b: Seq<u8>) -> Drained
    decreases b.len(),
{
    if b.len() == 0 {
        Drained { values: seq![], rest: b, refusal: None }
    } else {
        match front(c, b) {
            Parse::Value(m, n) => if 0 < n <= b.len() {
                let d = drained(c, b.skip(n as int));
                Drained { values: seq![m.value] + d.values, ..d }
            } else {
                Drained { values: seq![], rest: b, refusal: None }
            },
            Parse::Fail(reason, _) => Drained { values: seq![], rest: b, refusal: Some(reason) },
            Parse::Malformed => Drained { values: seq![], rest: b, refusal: None },
        }
    }
}

/// Whether the first `n` bytes of the stream are these elements.
pub open spec fn starts_with(
    c: WindowedValueCoder,
    b: Seq<u8>,
    values: Seq<RecordV>,
    n: int,
) -> bool
    decreases values.len(),
{
    if values.len() == 0 {
        n == 0
    } else {
        match front(c, b) {
            Parse::Value(m, k) => 0 < k <= n && k <= b.len() && m.value == values[0]
                && starts_with(c, b.skip(k as int), values.skip(1), n - k),
            _ => false,
        }
    }
}

/// More bytes do not change what the stream starts with.
proof fn starts_stay(
    c: WindowedValueCoder,
    b: Seq<u8>,
    values: Seq<RecordV>,
    n: int,
    x: Seq<u8>,
)
    requires
        starts_with(c, b, values, n),
    ensures
        0 <= n <= b.len(),
        starts_with(c, b + x, values, n),
    decreases values.len(),
{
    if values.len() > 0 {
        let k = front(c, b)->Value_1;
        front_settles(c, b, x);
        starts_stay(c, b.skip(k as int), values.skip(1), n - k, x);
        assert((b + x).skip(k as int) =~= b.skip(k as int) + x);
    }
}

/// One more element behind those that the stream starts with.
proof fn starts_grow(
    c: WindowedValueCoder,
    b: Seq<u8>,
    values: Seq<RecordV>,
    n: int,
    m: WindowedV,
    k: nat,
)
    requires
        starts_with(c, b, values, n),
        0 <= n <= b.len(),
        front(c, b.skip(n)) == Parse::Value(m, k),
        0 < k <= b.len() - n,
    ensures
        starts_with(c, b, values.push(m.value), n + k),
    decreases values.len(),
{
    let all = values.push(m.value);
    if values.len() == 0 {
        assert(b.skip(0) =~= b);
        assert(all.skip(1) =~= seq![]);
        assert(starts_with(c, b.skip(k as int), all.skip(1), 0));
    } else {
        let j = front(c, b)->Value_1;
        assert(b.skip(j as int).skip(n - j) =~= b.skip(n));
        starts_grow(c, b.skip(j as int), values.skip(1), n - j, m, k);
        assert(all.skip(1) =~= values.skip(1).push(m.value));
        assert(all[0] == values[0]);
    }
}

/// Taking elements off a stream goes on behind those that it starts with.
proof fn drained_behind(c: WindowedValueCoder, b: Seq<u8>, values: Seq<RecordV>, n: int)
    requires
        starts_with(c, b, values, n),
        0 <= n <= b.len(),
    ensures
        drained(c, b) == (Drained {
            values: values + drained(c, b.skip(n)).values,
            ..drained(c, b.skip(n))
        }),
    decreases values.len(),
{
    if values.len() == 0 {
        assert(b.skip(0) =~= b);
        assert(values + drained(c, b).values =~= drained(c, b).values);
    } else {
        let k = front(c, b)->Value_1;
        assert(b.skip(k as int).skip(n - k) =~= b.skip(n));
        drained_behind(c, b.skip(k as int), values.skip(1), n - k);
        let d = drained(c, b.skip(n));
        assert(seq![values[0]] + (values.skip(1) + d.values) =~= values + d.values);
    }
}

// ---------------------------------------------------------------------------
// The stream
// ---------------------------------------------------------------------------
/// Whether more is to come.
#[derive(Debug, Clone, Copy, PartialEq, Eq, Structural)]
pub enum StreamState {
    Open,
    /// The last piece has come.
    Ended,
    /// The sender is gone.
    Closed,
}

/// Why a stream cannot be taken.
#[derive(Debug)]
pub enum OutputError {
    /// The coder refused what came.
    Refused(CodersError),
    /// The last piece ends within an element.
    Leftover { bytes: usize },
    /// The sender is gone, and bytes are left.
    Undecoded { bytes: usize, batched: usize },
}

/// What to do with a stream next.
#[derive(Debug)]
pub enum OutputStep {
    /// Write this batch, and say how large the next is to be.
    Write(Vec<BeamRecord>),
    /// Wait for more.
    NeedMore,
    /// All is taken; write what is left, if anything is.
    Finished(Vec<BeamRecord>),
    Failed(OutputError),
}

impl OutputError {
    pub open spec fn message_text(self) -> Option<Seq<char>> {
        match self {
            OutputError::Refused(_) => None,
            OutputError::Leftover { bytes } => Some(
                "decode panic with "@ + decimal(bytes as nat)
                    + " leftover bytes after end of stream"@,
            ),
            OutputError::Undecoded { bytes, batched } => Some(
                ""@ + decimal(bytes as nat)
                    + " leftover bytes remain after end of stream — decoded "@ + (""@ + decimal(
                    batched as nat,
                ) + " elements, "@) + (""@ + decimal(bytes as nat)
                    + " undecoded bytes discarded"@),
            ),
        }
    }

    /// The text of the error; a refusal has that of its coder.
    pub fn message(&self) -> (r: Option<String>)
        ensures
            match r {
                Some(m) => self.message_text() == Some(m@),
                None => self.message_text() is None,
            },
    {
        match self {
            OutputError::Refused(_) => None,
            OutputError::Leftover { bytes } => Some(
                around_decimal(
                    "decode panic with ",
                    *bytes as u64,
                    " leftover bytes after end of stream",
                ),
            ),
            OutputError::Undecoded { bytes, batched } => {
                let a: String = around_decimal(
                    "",
                    *bytes as u64,
                    " leftover bytes remain after end of stream — decoded ",
                );
                let b: String = around_decimal("", *batched as u64, " elements, ");
                let c: String = around_decimal("", *bytes as u64, " undecoded bytes discarded");
                Some(join3(a.as_str(), b.as_str(), c.as_str()))
            },
        }
    }
}

/// The elements of a stage's output as they come in.
pub struct OutputStream {
    pub coder: WindowedValueCoder,
    pub bytes: Vec<u8>,
    pub pos: usize,
    pub batch: Vec<BeamRecord>,
    pub target: usize,
    pub state: StreamState,
    /// All that has come.
    pub received: Ghost<Seq<u8>>,
    /// All that was handed out to be written.
    pub written: Ghost<Seq<RecordV>>,
}

impl OutputStream {
    /// The bytes that are not taken yet.
    pub open spec fn rest(self) -> Seq<u8> {
        self.bytes@.skip(self.pos as int)
    }

    /// The elements that were taken.
    pub open spec fn taken(self) -> Seq<RecordV> {
        self.written@ + records_model(self.batch@)
    }

    /// What was taken is what the stream starts with, and the batch is not full.
    pub open spec fn wf(self) -> bool {
        self.is_sound() && self.batch@.len() < self.target
    }

    /// What was taken is what the stream starts with.
    pub open spec fn is_sound(self) -> bool {
        &&& self.pos <= self.bytes@.len()
        &&& self.received@.len() >= self.rest().len()
        &&& self.received@.skip(self.received@.len() - self.rest().len()) == self.rest()
        &&& starts_with(
            self.coder,
            self.received@,
            self.taken(),
            self.received@.len() - self.rest().len(),
        )
    }

    pub fn new(coder: WindowedValueCoder, target: usize) -> (r: OutputStream)
        requires
            target > 0,
        ensures
            r.wf(),
            r.coder == coder,
            r.target == target,
            r.state == StreamState::Open,
            r.received@ == Seq::<u8>::empty(),
            r.written@ == Seq::<RecordV>::empty(),
            r.batch@.len() == 0,
    {
        let r = OutputStream {
            coder,
            bytes: Vec::new(),
            pos: 0,
            batch: Vec::new(),
            target,
            state: StreamState::Open,
            received: Ghost(Seq::empty()),
            written: Ghost(Seq::empty()),
        };
        proof {
            assert(r.rest() =~= Seq::<u8>::empty());
            assert(r.taken() =~= Seq::<RecordV>::empty());
            assert(r.received@.skip(0) =~= r.rest());
        }
        r
    }

    /// One more piece of the stream.
    pub fn push(&mut self, data: &Vec<u8>, is_last: bool)
        requires
            old(self).wf(),
        ensures
            final(self).wf(),
            final(self).coder == old(self).coder,
            final(self).target == old(self).target,
            final(self).batch == old(self).batch,
            final(self).written == old(self).written,
            final(self).received@ == old(self).received@ + data@,
            final(self).rest() == old(self).rest() + data@,
            final(self).state == (if is_last {
                StreamState::Ended
            } else {
                old(self).state
            }),
    {
        let ghost before = *self;
        let mut bytes: Vec<u8> = copy_range(&self.bytes, self.pos, self.bytes.len());
        let mut more: Vec<u8> = copy_range(data, 0, data.len());
        bytes.append(&mut more);
        self.bytes = bytes;
        self.pos = 0;
        if is_last {
            self.state = StreamState::Ended;
        }
        proof {
            self.received@ = self.received@ + data@;
            let n = before.received@.len() - before.rest().len();
            assert(before.bytes@.subrange(before.pos as int, before.bytes@.len() as int)
                =~= before.rest());
            assert(data@.subrange(0, data@.len() as int) =~= data@);
            assert(self.rest() =~= before.rest() + data@);
            assert(self.received@.len() - self.rest().len() == n);
            assert(self.received@.skip(n) =~= before.received@.skip(n) + data@);
            starts_stay(self.coder, before.received@, before.taken(), n, data@);
        }
    }

    /// The sender is gone.
    pub fn close(&mut self)
        requires
            old(self).wf(),
        ensures
            final(self).wf(),
            final(self).coder == old(self).coder,
            final(self).target == old(self).target,
            final(self).batch == old(self).batch,
            final(self).written == old(self).written,
            final(self).received == old(self).received,
            final(self).rest() == old(self).rest(),
            final(self).state == StreamState::Closed,
    {
        self.state = StreamState::Closed;
    }

    /// How large the next batch is to be; it must have room for what is batched.
    pub fn set_target(&mut self, target: usize)
        requires
            old(self).wf(),
            target > old(self).batch@.len(),
        ensures
            final(self).wf(),
            final(self).coder == old(self).coder,
            final(self).target == target,
            final(self).batch == old(self).batch,
            final(self).written == old(self).written,
            final(self).received == old(self).received,
            final(self).rest() == old(self).rest(),
            final(self).state == old(self).state,
    {
        self.target = target;
    }

    /// Takes one element off the stream, if there is a complete one.
    #[verifier::rlimit(40)]
    fn take_one(&mut self) -> (r: Taken)
        requires
            old(self).is_sound(),
            old(self).pos < old(self).bytes@.len(),
        ensures
            final(self).is_sound(),
            final(self).coder == old(self).coder,
            final(self).target == old(self).target,
            final(self).state == old(self).state,
            final(self).received == old(self).received,
            final(self).written == old(self).written,
            final(self).bytes == old(self).bytes,
            match r {
                Taken::Element => final(self).pos > old(self).pos && final(self).batch@.len() == old(
                    self,
                ).batch@.len() + 1 && took_one(
                    drained(old(self).coder, old(self).rest()),
                    drained(old(self).coder, final(self).rest()),
                    records_model(old(self).batch@),
                    records_model(final(self).batch@),
                ),
                Taken::Refused(m) => *final(self) == *old(self) && drained(
                    old(self).coder,
                    old(self).rest(),
                ) == (Drained { values: seq![], rest: old(self).rest(), refusal: Some(m@) }),
                Taken::Incomplete => *final(self) == *old(self) && !ends_in_double(
                    old(self).coder,
                    old(self).rest(),
                ) && drained(old(self).coder, old(self).rest()) == (Drained {
                    values: seq![],
                    rest: old(self).rest(),
                    refusal: None,
                }),
                Taken::Cut(m) => *final(self) == *old(self) && m@ == SHORT_DOUBLE@
                    && ends_in_double(old(self).coder, old(self).rest()) && drained(
                    old(self).coder,
                    old(self).rest(),
                ) == (Drained { values: seq![], rest: old(self).rest(), refusal: None }),
            },
    {
        let ghost here = *self;
        let ghost b = self.rest();
        let ghost c = self.coder;
        proof {
            reveal(front);
            reveal(ends_in_double);
        }
        match self.coder.read(&self.bytes, self.pos) {
            Step::Value(v, next) => {
                let ghost m = v.model();
                let WindowedValue { value, .. } = v;
                let ghost k = (next - self.pos) as nat;
                proof {
                    front_settles(c, b, seq![]);
                    let n = here.received@.len() - b.len();
                    starts_grow(c, here.received@, here.taken(), n, m, k);
                    assert(here.received@.skip(n + k) =~= here.received@.skip(n).skip(k as int));
                    assert(b.skip(k as int) =~= here.bytes@.skip(next as int));
                }
                self.pos = next;
                self.batch.push(value);
                proof {
                    assert(records_model(self.batch@) =~= records_model(here.batch@).push(m.value));
                    assert(self.taken() =~= here.taken().push(m.value));
                    assert(took_one(
                        drained(c, b),
                        drained(c, self.rest()),
                        records_model(here.batch@),
                        records_model(self.batch@),
                    )) by {
                        assert(drained(c, b).values[0] == m.value);
                    }
                }
                Taken::Element
            },
            Step::Fail(m, _) => if same_text(m.as_str(), SHORT_DOUBLE) {
                Taken::Cut(m)
            } else {
                Taken::Refused(m)
            },
            Step::Malformed => Taken::Incomplete,
        }
    }

    /// Takes elements off the stream until the batch is full or no complete element is
    /// left. An element that the bytes end within is waited for as long as more may
    /// come, and refused behind the last piece.
    #[verifier::rlimit(40)]
    pub fn step(&mut self) -> (r: OutputStep)
        requires
            old(self).wf(),
        ensures
            final(self).coder == old(self).coder,
            final(self).target == old(self).target,
            final(self).state == old(self).state,
            final(self).received == old(self).received,
            ({
                let d = drained(old(self).coder, old(self).rest());
                let batched = records_model(old(self).batch@);
                match r {
                    OutputStep::Write(w) => {
                        let j = old(self).target - old(self).batch@.len();
                        &&& final(self).wf()
                        &&& final(self).batch@.len() == 0
                        &&& j <= d.values.len()
                        &&& w@.len() == old(self).target
                        &&& records_model(w@) == batched + d.values.take(j)
                        &&& final(self).written@ == old(self).written@ + records_model(w@)
                        &&& drained(old(self).coder, final(self).rest()) == (Drained {
                            values: d.values.skip(j),
                            ..d
                        })
                    },
                    OutputStep::NeedMore => {
                        &&& final(self).wf()
                        &&& old(self).state == StreamState::Open
                        &&& d.refusal is None
                        &&& records_model(final(self).batch@) == batched + d.values
                        &&& final(self).rest() == d.rest
                        &&& final(self).written == old(self).written
                    },
                    OutputStep::Finished(w) => {
                        &&& old(self).state != StreamState::Open
                        &&& d.refusal is None
                        &&& d.rest.len() == 0
                        &&& records_model(w@) == batched + d.values
                        &&& w@.len() < old(self).target
                        &&& drained(old(self).coder, old(self).received@).rest.len() == 0
                        &&& drained(old(self).coder, old(self).received@).values == old(
                            self,
                        ).written@ + records_model(w@)
                    },
                    OutputStep::Failed(OutputError::Refused(CodersError::WhileDecoding(m))) =>
                        (d.refusal == Some(m@) || (d.refusal is None && old(self).state
                            == StreamState::Ended && d.rest.len() > 0 && ends_in_double(
                            old(self).coder,
                            d.rest,
                        ) && m@ == SHORT_DOUBLE@)) && batched.len() + d.values.len() < old(
                            self,
                        ).target,
                    OutputStep::Failed(OutputError::Leftover { bytes }) => old(self).state
                        == StreamState::Ended && d.refusal is None && bytes == d.rest.len()
                        && bytes > 0 && !ends_in_double(old(self).coder, d.rest) && batched.len() + d.values.len() < old(self).target,
                    OutputStep::Failed(OutputError::Undecoded { bytes, batched: n }) => old(
                        self,
                    ).state == StreamState::Closed && d.refusal is None && bytes == d.rest.len()
                        && bytes > 0 && n == batched.len() + d.values.len() && n < old(self).target,
                    OutputStep::Failed(_) => false,
                }
            }),
    {
        let ghost start = *self;
        let ghost c = self.coder;
        let ghost d = drained(self.coder, self.rest());
        let ghost batched = records_model(self.batch@);
        let ghost mut done: Seq<RecordV> = seq![];
        proof {
            assert(batched + done =~= batched);
            assert(done + d.values =~= d.values);
        }
        while self.pos < self.bytes.len()
            invariant
                self.wf(),
                start == *old(self),
                start.wf(),
                c == start.coder,
                self.coder == start.coder,
                self.target == start.target,
                self.state == start.state,
                self.received == start.received,
                self.written == start.written,
                d == drained(c, start.rest()),
                batched == records_model(start.batch@),
                records_model(self.batch@) == batched + done,
                is_behind(d, done, drained(c, self.rest())),
            decreases self.bytes@.len() - self.pos,
        {
            let ghost here = *self;
            proof {
                assert(records_model(self.batch@).len() == self.batch@.len());
            }
            match self.take_one() {
                Taken::Element => {
                    proof {
                        let v = drained(c, here.rest()).values[0];
                        let rest = drained(c, self.rest());
                        assert(records_model(self.batch@) =~= batched + done.push(v));
                        assert(done + (seq![v] + rest.values) =~= done.push(v) + rest.values);
                        done = done.push(v);
                        assert(records_model(self.batch@).len() == self.batch@.len());
                    }
                    if self.batch.len() >= self.target {
                        let ghost full = *self;
                        let mut batch: Vec<BeamRecord> = Vec::new();
                        std::mem::swap(&mut batch, &mut self.batch);
                        proof {
                            let j = start.target - start.batch@.len();
                            assert(batched.len() == start.batch@.len());
                            assert(done.len() == j);
                            assert(d.values.take(j) =~= done);
                            assert(d.values.skip(j) =~= drained(c, self.rest()).values);
                            self.written@ = self.written@ + records_model(batch@);
                            assert(records_model(self.batch@) =~= seq![]);
                            assert(self.taken() =~= full.taken());
                        }
                        return OutputStep::Write(batch);
                    }
                },
                Taken::Refused(m) => {
                    assert(d.values =~= done);
                    return OutputStep::Failed(
                        OutputError::Refused(CodersError::WhileDecoding(m)),
                    );
                },
                Taken::Cut(m) => {
                    let bytes: usize = self.bytes.len() - self.pos;
                    assert(d.values =~= done);
                    match self.state {
                        StreamState::Open => {
                            return OutputStep::NeedMore;
                        },
                        StreamState::Ended => {
                            return OutputStep::Failed(
                                OutputError::Refused(CodersError::WhileDecoding(m)),
                            );
                        },
                        StreamState::Closed => {
                            let n: usize = self.batch.len();
                            return OutputStep::Failed(
                                OutputError::Undecoded { bytes, batched: n },
                            );
                        },
                    }
                },
                Taken::Incomplete => {
                    let bytes: usize = self.bytes.len() - self.pos;
                    assert(d.values =~= done);
                    match self.state {
                        StreamState::Open => {
                            return OutputStep::NeedMore;
                        },
                        StreamState::Ended => {
                            return OutputStep::Failed(OutputError::Leftover { bytes });
                        },
                        StreamState::Closed => {
                            let n: usize = self.batch.len();
                            return OutputStep::Failed(
                                OutputError::Undecoded { bytes, batched: n },
                            );
                        },
                    }
                },
            }
        }
        let ghost here = *self;
        proof {
            assert(self.rest() =~= Seq::<u8>::empty());
            assert(d.values =~= done);
            assert(records_model(self.batch@).len() == self.batch@.len());
        }
        match self.state {
            StreamState::Open => OutputStep::NeedMore,
            _ => {
                let mut batch: Vec<BeamRecord> = Vec::new();
                std::mem::swap(&mut batch, &mut self.batch);
                proof {
                    drained_behind(
                        c,
                        here.received@,
                        here.taken(),
                        here.received@.len() - here.rest().len(),
                    );
                    assert(here.taken() + drained(c, here.rest()).values =~= here.taken());
                }
                OutputStep::Finished(batch)
            },
        }
    }
}

/// What came of taking one element off a stream.
enum Taken {
    Element,
    Refused(String),
    Incomplete,
    /// The bytes end within a floating-point number.
    Cut(String),
}

/// Whether one element went from the stream into the batch.
spec fn took_one(
    before: Drained,
    after: Drained,
    batch: Seq<RecordV>,
    more: Seq<RecordV>,
) -> bool {
    &&& before.values.len() > 0
    &&& before == (Drained { values: seq![before.values[0]] + after.values, ..after })
    &&& more == batch.push(before.values[0])
}

/// Whether `d` is what comes of the stream when `done` was taken and `rest` comes of
/// what is left.
spec fn is_behind(d: Drained, done: Seq<RecordV>, rest: Drained) -> bool {
    d == (Drained { values: done + rest.values, ..rest })
}

// ---------------------------------------------------------------------------
// Writing a stream
// ---------------------------------------------------------------------------
/// The stream of some elements, each in the global window.
pub open spec fn stream_of(c: WindowedValueCoder, values: Seq<RecordV>) -> Seq<u8>
    decreases values.len(),
{
    if values.len() == 0 {
        seq![]
    } else {
        c.wire(global_value(values[0])) + stream_of(c, values.skip(1))
    }
}

/// Whether the coder can write all the elements.
pub open spec fn can_stream(c: WindowedValueCoder, values: Seq<RecordV>) -> bool {
    forall|i: int| 0 <= i < values.len() ==> can_encode(c.element_coder, #[trigger] values[i])
}

/// Whether the coder can write all the elements.
pub fn is_streamable(coder: &WindowedValueCoder, elements: &Vec<BeamRecord>) -> (r: bool)
    ensures
        r == can_stream(*coder, records_model(elements@)),
{
    let ghost m = records_model(elements@);
    let n: usize = elements.len();
    let mut i: usize = 0;
    while i < n
        invariant
            n == elements@.len(),
            m == records_model(elements@),
            i <= n,
            forall|k: int| 0 <= k < i ==> can_encode(coder.element_coder, #[trigger] m[k]),
        decreases n - i,
    {
        assert(m[i as int] == record_model(elements@[i as int]));
        if !is_writable(&coder.element_coder, &elements[i]) {
            return false;
        }
        i = i + 1;
    }
    true
}

proof fn stream_grows(c: WindowedValueCoder, values: Seq<RecordV>, v: RecordV)
    ensures
        stream_of(c, values.push(v)) == stream_of(c, values) + c.wire(global_value(v)),
    decreases values.len(),
{
    let all = values.push(v);
    if values.len() == 0 {
        assert(all.skip(1) =~= seq![]);
        assert(all[0] == v);
        assert(c.wire(global_value(v)) + stream_of(c, all.skip(1)) =~= stream_of(c, values) + c.wire(
            global_value(v),
        ));
    } else {
        assert(all[0] == values[0]);
        assert(all.skip(1) =~= values.skip(1).push(v));
        stream_grows(c, values.skip(1), v);
        let w = c.wire(global_value(values[0]));
        assert(w + (stream_of(c, values.skip(1)) + c.wire(global_value(v))) =~= (w + stream_of(
            c,
            values.skip(1),
        )) + c.wire(global_value(v)));
    }
}

/// The stream that a stage is sent.
pub fn encode_elements(coder: &WindowedValueCoder, elements: Vec<BeamRecord>) -> (r: Vec<u8>)
    requires
        can_stream(*coder, records_model(elements@)),
    ensures
        r@ == stream_of(*coder, records_model(elements@)),
{
    let ghost all = elements@;
    let ghost m = records_model(all);
    let mut out: Vec<u8> = Vec::new();
    assert(m.take(0) =~= seq![]);
    for element in it: elements
        invariant
            it.seq() == all,
            m == records_model(all),
            can_stream(*coder, m),
            out@ == stream_of(*coder, m.take(it.index())),
    {
        let ghost i = it.index();
        proof {
            assert(m[i] == record_model(all[i]));
            assert(m.take(i + 1) =~= m.take(i).push(m[i]));
            stream_grows(*coder, m.take(i), m[i]);
        }
        coder.encode_value(element, &mut out);
    }
    assert(m.take(m.len() as int) =~= m);
    out
}

// ---------------------------------------------------------------------------
// Laws
// ---------------------------------------------------------------------------
/// The stream of some elements, each in its own windows.
pub open spec fn windowed_stream(c: WindowedValueCoder, values: Seq<WindowedV>) -> Seq<u8>
    decreases values.len(),
{
    if values.len() == 0 {
        seq![]
    } else {
        c.wire(values[0]) + windowed_stream(c, values.skip(1))
    }
}

/// The elements without their windows.
pub open spec fn values_of(values: Seq<WindowedV>) -> Seq<RecordV> {
    values.map_values(|m: WindowedV| m.value)
}

/// Whether the coder can write all the elements in their windows, and their lengths fit.
pub open spec fn can_stream_windowed(c: WindowedValueCoder, values: Seq<WindowedV>) -> bool {
    forall|i: int| 0 <= i < values.len() ==> c.can_encode(#[trigger] values[i]) && c.fits(values[i])
}

/// A stream that was written gives its elements back, whatever their windows, times
/// and panes are.
pub proof fn windowed_stream_round_trip(c: WindowedValueCoder, values: Seq<WindowedV>)
    requires
        can_stream_windowed(c, values),
    ensures
        drained(c, windowed_stream(c, values)) == (Drained {
            values: values_of(values),
            rest: seq![],
            refusal: None,
        }),
    decreases values.len(),
{
    let b = windowed_stream(c, values);
    if values.len() == 0 {
        assert(drained(c, b).values =~= values_of(values));
    } else {
        let m = values[0];
        let w = c.wire(m);
        let more = values.skip(1);
        assert forall|i: int| 0 <= i < more.len() implies c.can_encode(#[trigger] more[i])
            && c.fits(more[i]) by {
            assert(more[i] == values[i + 1]);
        }
        c.round_trip(m, windowed_stream(c, more));
        assert(front(c, b) == Parse::Value(m, w.len())) by {
            reveal(front);
        }
        front_settles(c, b, seq![]);
        assert(b.skip(w.len() as int) =~= windowed_stream(c, more));
        windowed_stream_round_trip(c, more);
        assert(seq![m.value] + values_of(more) =~= values_of(values));
    }
}

/// The elements, each in the global window.
pub open spec fn in_global_window(values: Seq<RecordV>) -> Seq<WindowedV> {
    values.map_values(|v: RecordV| global_value(v))
}

/// The stream of elements in the global window is one of elements in windows.
proof fn stream_is_windowed(c: WindowedValueCoder, values: Seq<RecordV>)
    ensures
        stream_of(c, values) == windowed_stream(c, in_global_window(values)),
        values_of(in_global_window(values)) == values,
    decreases values.len(),
{
    assert(values_of(in_global_window(values)) =~= values);
    if values.len() > 0 {
        stream_is_windowed(c, values.skip(1));
        assert(in_global_window(values).skip(1) =~= in_global_window(values.skip(1)));
    }
}

/// A stream that was written for a stage gives its elements back.
pub proof fn stream_round_trip(c: WindowedValueCoder, values: Seq<RecordV>)
    requires
        can_stream(c, values),
        forall|i: int| 0 <= i < values.len() ==> record_fits(#[trigger] values[i]),
    ensures
        drained(c, stream_of(c, values)) == (Drained {
            values,
            rest: seq![],
            refusal: None,
        }),
{
    let all = in_global_window(values);
    stream_is_windowed(c, values);
    assert forall|i: int| 0 <= i < all.len() implies c.can_encode(#[trigger] all[i]) && c.fits(
        all[i],
    ) by {
        assert(can_encode(c.element_coder, values[i]) && record_fits(values[i]));
    }
    windowed_stream_round_trip(c, all);
}

/// What is taken off a stream is what it starts with.
proof fn drained_starts(c: WindowedValueCoder, b: Seq<u8>)
    ensures
        ({
            let d = drained(c, b);
            let n = b.len() - d.rest.len();
            &&& 0 <= n <= b.len()
            &&& starts_with(c, b, d.values, n)
            &&& d.rest == b.skip(n)
            &&& match d.refusal {
                Some(reason) => front(c, d.rest) is Fail && front(c, d.rest)->Fail_0 == reason
                    && d.rest.len() > 0,
                None => true,
            }
        }),
    decreases b.len(),
{
    let d = drained(c, b);
    if b.len() == 0 {
        assert(b.skip(0) =~= b);
    } else {
        match front(c, b) {
            Parse::Value(m, k) => {
                front_settles(c, b, seq![]);
                let e = drained(c, b.skip(k as int));
                drained_starts(c, b.skip(k as int));
                assert(d.values.skip(1) =~= e.values);
                assert(b.skip(k as int).skip(b.len() - k - e.rest.len()) =~= b.skip(
                    b.len() - e.rest.len(),
                ));
            },
            _ => {
                assert(b.skip(0) =~= b);
            },
        }
    }
}

/// However a stream is cut, what comes behind its beginning goes on where that ends.
proof fn drained_cut(c: WindowedValueCoder, b: Seq<u8>, x: Seq<u8>, part: Drained, n: int)
    requires
        starts_with(c, b, part.values, n),
        part.rest == b.skip(n),
    ensures
        drained(c, b + x) == (Drained {
            values: part.values + drained(c, part.rest + x).values,
            ..drained(c, part.rest + x)
        }),
{
    starts_stay(c, b, part.values, n, x);
    drained_behind(c, b + x, part.values, n);
    assert((b + x).skip(n) =~= part.rest + x);
}

/// Whether `whole` goes on where `part` ends.
pub open spec fn goes_on(part: Drained, whole: Drained) -> bool {
    part.values.len() <= whole.values.len() && whole.values.take(part.values.len() as int)
        == part.values
}

/// However a stream is cut, what its beginning gives are the first of its elements.
pub proof fn pieces_do_not_matter(c: WindowedValueCoder, b: Seq<u8>, x: Seq<u8>)
    ensures
        goes_on(drained(c, b), drained(c, b + x)),
{
    let part = drained(c, b);
    drained_starts(c, b);
    drained_cut(c, b, x, part, b.len() - part.rest.len());
    first_of(part.values, drained(c, part.rest + x).values);
}

proof fn first_of(a: Seq<RecordV>, b: Seq<RecordV>)
    ensures
        (a + b).take(a.len() as int) == a,
{
    assert((a + b).take(a.len() as int) =~= a);
}

/// The beginning of a stream is not refused unless the whole is: what is cut waits for
/// more.
pub proof fn beginning_is_not_refused(c: WindowedValueCoder, b: Seq<u8>, x: Seq<u8>)
    requires
        drained(c, b + x).refusal is None,
    ensures
        drained(c, b).refusal is None,
{
    let part = drained(c, b);
    drained_starts(c, b);
    drained_cut(c, b, x, part, b.len() - part.rest.len());
    if part.refusal is Some {
        assert(settles(front(c, part.rest))) by {
            reveal(front);
        }
        front_settles(c, part.rest, x);
    }
}

/// However a stream of elements is cut into pieces, none of them is refused: while
/// pieces are still to come, what has come gives the first elements and waits; when
/// the last has come, all elements are there and nothing is left.
pub proof fn written_stream_is_taken(s: OutputStream, values: Seq<WindowedV>, to_come: Seq<u8>)
    requires
        s.wf(),
        can_stream_windowed(s.coder, values),
        s.received@ + to_come == windowed_stream(s.coder, values),
    ensures
        ({
            let d = drained(s.coder, s.rest());
            let all = values_of(values);
            let here = s.taken() + d.values;
            &&& d.refusal is None
            &&& here.len() <= all.len() && all.take(here.len() as int) == here
            &&& to_come.len() == 0 ==> here == all && d.rest.len() == 0
        }),
{
    let c = s.coder;
    let b = s.received@;
    let n = b.len() - s.rest().len();
    windowed_stream_round_trip(c, values);
    beginning_is_not_refused(c, b, to_come);
    pieces_do_not_matter(c, b, to_come);
    drained_behind(c, b, s.taken(), n);
    if to_come.len() == 0 {
        assert(b + to_come =~= b);
    }
}

} // verus!
