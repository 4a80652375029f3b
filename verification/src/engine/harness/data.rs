//! Where the elements from a worker go.
use crate::shared::{
    new_streams, stream_get, stream_insert, stream_key, streams_clear, streams_in, streams_len,
};
use dashmap::DashMap;
use vstd::prelude::*;
use vstd::string::*;

verus! {

/// The elements of one transform under one instruction.
#[derive(Debug, Clone, PartialEq, Eq, Hash)]
pub struct DataKey {
    pub instruction_id: String,
    pub transform_id: String,
}

/// The timers under one instruction.
#[derive(Debug, Clone, PartialEq, Eq, Hash)]
pub struct TimersKey {
    pub instruction_id: String,
}

impl DataKey {
    /// A copy.
    pub fn duplicate(&self) -> (r: DataKey)
        ensures
            r.instruction_id@ == self.instruction_id@,
            r.transform_id@ == self.transform_id@,
    {
        DataKey {
            instruction_id: self.instruction_id.as_str().to_owned(),
            transform_id: self.transform_id.as_str().to_owned(),
        }
    }
}

impl TimersKey {
    /// A copy.
    pub fn duplicate(&self) -> (r: TimersKey)
        ensures
            r.instruction_id@ == self.instruction_id@,
    {
        TimersKey { instruction_id: self.instruction_id.as_str().to_owned() }
    }
}

/// What a stream carries: elements or timers.
#[derive(Debug, Clone, PartialEq, Eq, Hash)]
pub enum ElementKey {
    Data(DataKey),
    Timers(TimersKey),
}

/// Encoded elements on their way from a worker.
#[derive(Debug, Clone, PartialEq, Eq, Hash)]
pub struct DataChunk {
    pub key: DataKey,
    pub data: Vec<u8>,
    pub is_last: bool,
}

/// Encoded timers on their way from a worker.
#[derive(Debug, Clone, PartialEq, Eq, Hash)]
pub struct TimerChunk {
    pub key: TimersKey,
    pub transform_id: String,
    pub timer_family_id: String,
    pub timers: Vec<u8>,
    pub is_last: bool,
}

/// What goes through a stream.
#[derive(Debug, Clone)]
pub enum ElementStreamPayload {
    Data(DataChunk),
    Timers(TimerChunk),
}

/// The key of elements.
pub open spec fn data_key(instruction: Seq<char>, transform: Seq<char>) -> (
    Seq<char>,
    Option<Seq<char>>,
) {
    (instruction, Some(transform))
}

/// The key of timers.
pub open spec fn timers_key(instruction: Seq<char>) -> (Seq<char>, Option<Seq<char>>) {
    (instruction, None)
}

/// The keys of a message: those of its elements, then those of its timers.
pub open spec fn message_keys(data: Seq<DataChunk>, timers: Seq<TimerChunk>) -> Seq<
    (Seq<char>, Option<Seq<char>>),
> {
    Seq::new(
        data.len() + timers.len(),
        |i: int|
            if i < data.len() {
                data_key(data[i].key.instruction_id@, data[i].key.transform_id@)
            } else {
                timers_key(timers[i - data.len()].key.instruction_id@)
            },
    )
}

/// The numbers of streams once some more keys were asked for: a new key has the next
/// number.
pub open spec fn numbered(
    numbers: Map<(Seq<char>, Option<Seq<char>>), usize>,
    asked: Seq<(Seq<char>, Option<Seq<char>>)>,
) -> Map<(Seq<char>, Option<Seq<char>>), usize>
    decreases asked.len(),
{
    if asked.len() == 0 {
        numbers
    } else {
        let before = numbered(numbers, asked.drop_last());
        if before.contains_key(asked.last()) {
            before
        } else {
            before.insert(asked.last(), before.dom().len() as usize)
        }
    }
}

impl ElementKey {
    pub open spec fn model(self) -> (Seq<char>, Option<Seq<char>>) {
        match self {
            ElementKey::Data(k) => data_key(k.instruction_id@, k.transform_id@),
            ElementKey::Timers(k) => timers_key(k.instruction_id@),
        }
    }

    /// The key as plain values.
    fn plain(&self) -> (r: (String, Option<String>))
        ensures
            stream_key(r) == self.model(),
    {
        match self {
            ElementKey::Data(k) => (k.instruction_id.clone(), Some(k.transform_id.clone())),
            ElementKey::Timers(k) => (k.instruction_id.clone(), None),
        }
    }
}

/// The streams by their keys: each has a number, from zero on, in the order in which
/// they were first asked for.
pub struct ElementStreamMultiplexer {
    streams: DashMap<(String, Option<String>), usize>,
}

impl ElementStreamMultiplexer {
    /// The numbers of the streams.
    pub closed spec fn numbers(self) -> Map<(Seq<char>, Option<Seq<char>>), usize> {
        streams_in(self.streams)
    }

    /// No two keys have one number, and no number is left out.
    pub open spec fn wf(self) -> bool {
        &&& self.numbers().dom().finite()
        &&& forall|k: (Seq<char>, Option<Seq<char>>)| #[trigger]
            self.numbers().contains_key(k) ==> self.numbers()[k] < self.numbers().dom().len()
        &&& forall|a: (Seq<char>, Option<Seq<char>>), b: (Seq<char>, Option<Seq<char>>)|
            #[trigger] self.numbers().contains_key(a) && #[trigger] self.numbers().contains_key(b)
                && self.numbers()[a] == self.numbers()[b] ==> a == b
    }

    /// Whether these are the streams after some keys were asked for, and `streams` says
    /// where the stream of each of them is.
    pub open spec fn routed(
        self,
        before: ElementStreamMultiplexer,
        asked: Seq<(Seq<char>, Option<Seq<char>>)>,
        streams: Seq<usize>,
    ) -> bool {
        &&& self.wf()
        &&& self.numbers() == numbered(before.numbers(), asked)
        &&& streams.len() == asked.len()
        &&& forall|i: int|
            0 <= i < streams.len() ==> (#[trigger] streams[i]) == self.numbers()[asked[i]]
                && self.numbers().contains_key(asked[i])
    }

    pub fn new() -> (r: ElementStreamMultiplexer)
        ensures
            r.wf(),
            r.numbers() == Map::<(Seq<char>, Option<Seq<char>>), usize>::empty(),
    {
        ElementStreamMultiplexer { streams: new_streams() }
    }

    /// How many streams there are.
    pub fn len(&self) -> (r: usize)
        ensures
            r == self.numbers().dom().len(),
    {
        streams_len(&self.streams)
    }

    /// Where the stream of a key is.
    pub fn find(&self, key: &ElementKey) -> (r: Option<usize>)
        ensures
            match r {
                Some(i) => self.numbers().contains_key(key.model()) && self.numbers()[key.model()]
                    == i,
                None => !self.numbers().contains_key(key.model()),
            },
    {
        stream_get(&self.streams, &key.plain())
    }

    /// The stream of a key; a new one where there is none. Says also whether it is new.
    pub fn get_or_create_stream(&mut self, key: ElementKey) -> (r: (usize, bool))
        requires
            old(self).wf(),
        ensures
            final(self).wf(),
            if old(self).numbers().contains_key(key.model()) {
                &&& !r.1
                &&& r.0 == old(self).numbers()[key.model()]
                &&& final(self).numbers() == old(self).numbers()
            } else {
                &&& r.1
                &&& r.0 == old(self).numbers().dom().len()
                &&& final(self).numbers() == old(self).numbers().insert(key.model(), r.0)
            },
    {
        match self.find(&key) {
            Some(i) => (i, false),
            None => {
                let ghost before = self.numbers();
                let n: usize = streams_len(&self.streams);
                stream_insert(&mut self.streams, key.plain(), n);
                proof {
                    assert(self.numbers().dom() =~= before.dom().insert(key.model()));
                    assert(self.numbers().dom().len() == before.dom().len() + 1);
                }
                (n, true)
            },
        }
    }

    /// The stream of each part of a message, those of its elements first.
    pub fn route(&mut self, data: &Vec<DataChunk>, timers: &Vec<TimerChunk>) -> (r: Vec<usize>)
        requires
            old(self).wf(),
        ensures
            final(self).routed(*old(self), message_keys(data@, timers@), r@),
    {
        let ghost all = message_keys(data@, timers@);
        let ghost first = *self;
        let n: usize = data.len();
        let m: usize = timers.len();
        let mut streams: Vec<usize> = Vec::new();
        let mut i: usize = 0;
        assert(all.take(0) =~= Seq::empty());
        while i < n
            invariant
                n == data@.len(),
                i <= n,
                all == message_keys(data@, timers@),
                self.routed(first, all.take(i as int), streams@),
            decreases n - i,
        {
            let key = ElementKey::Data(data[i].key.duplicate());
            let ghost asked = key.model();
            self.route_one(key, Ghost(first), Ghost(all.take(i as int)), &mut streams);
            assert(all.take(i as int).push(asked) =~= all.take(i + 1));
            i = i + 1;
        }
        let mut j: usize = 0;
        while j < m
            invariant
                n == data@.len(),
                m == timers@.len(),
                j <= m,
                all == message_keys(data@, timers@),
                self.routed(first, all.take(n + j), streams@),
            decreases m - j,
        {
            let key = ElementKey::Timers(timers[j].key.duplicate());
            let ghost asked = key.model();
            self.route_one(key, Ghost(first), Ghost(all.take(n + j)), &mut streams);
            assert(all.take(n + j).push(asked) =~= all.take(n + j + 1));
            j = j + 1;
        }
        assert(all.take(n + m) =~= all);
        streams
    }

    fn route_one(
        &mut self,
        key: ElementKey,
        first: Ghost<ElementStreamMultiplexer>,
        asked: Ghost<Seq<(Seq<char>, Option<Seq<char>>)>>,
        streams: &mut Vec<usize>,
    )
        requires
            old(self).routed(first@, asked@, old(streams)@),
        ensures
            final(self).routed(first@, asked@.push(key.model()), final(streams)@),
    {
        let ghost before = self.numbers();
        let ghost given = streams@;
        let found = self.get_or_create_stream(key);
        streams.push(found.0);
        proof {
            let more = asked@.push(key.model());
            assert(more.drop_last() =~= asked@);
            assert(more.last() == key.model());
            assert(numbered(first@.numbers(), more.drop_last()) == before);
            if !before.contains_key(key.model()) {
                assert(before.dom().len() as usize == found.0);
            }
            assert(self.numbers() == numbered(first@.numbers(), more));
            assert forall|i: int| 0 <= i < streams@.len() implies (#[trigger] streams@[i])
                == self.numbers()[more[i]] && self.numbers().contains_key(more[i]) by {
                if i < given.len() {
                    assert(given[i] == before[asked@[i]]);
                    assert(streams@[i] == given[i]);
                    assert(more[i] == asked@[i]);
                }
            }
            assert(self.routed(first@, more, streams@));
        }
    }

    /// Forgets all streams.
    pub fn clear(&mut self)
        ensures
            final(self).wf(),
            final(self).numbers() == Map::<(Seq<char>, Option<Seq<char>>), usize>::empty(),
    {
        streams_clear(&mut self.streams);
    }
}

/// Two keys have one stream just where they are the same.
pub proof fn streams_are_distinct(
    m: ElementStreamMultiplexer,
    a: (Seq<char>, Option<Seq<char>>),
    b: (Seq<char>, Option<Seq<char>>),
)
    requires
        m.wf(),
        m.numbers().contains_key(a),
        m.numbers().contains_key(b),
    ensures
        m.numbers()[a] == m.numbers()[b] <==> a == b,
{
}

/// Two parts of a message go to one stream just where their keys are the same.
pub proof fn parts_stay_apart(
    before: ElementStreamMultiplexer,
    after: ElementStreamMultiplexer,
    asked: Seq<(Seq<char>, Option<Seq<char>>)>,
    streams: Seq<usize>,
    i: int,
    j: int,
)
    requires
        after.routed(before, asked, streams),
        0 <= i < asked.len(),
        0 <= j < asked.len(),
    ensures
        streams[i] == streams[j] <==> asked[i] == asked[j],
{
    assert(after.numbers()[asked[i]] == streams[i]);
    assert(after.numbers()[asked[j]] == streams[j]);
    streams_are_distinct(after, asked[i], asked[j]);
}

/// A stream that is known stays where it is, whatever is asked for.
pub proof fn known_streams_stay(
    numbers: Map<(Seq<char>, Option<Seq<char>>), usize>,
    asked: Seq<(Seq<char>, Option<Seq<char>>)>,
    key: (Seq<char>, Option<Seq<char>>),
)
    requires
        numbers.contains_key(key),
    ensures
        numbered(numbers, asked).contains_key(key),
        numbered(numbers, asked)[key] == numbers[key],
    decreases asked.len(),
{
    if asked.len() > 0 {
        known_streams_stay(numbers, asked.drop_last(), key);
    }
}

} // verus!
