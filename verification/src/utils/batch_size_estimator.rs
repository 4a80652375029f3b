//! Batch sizes that adapt to what batches cost.
//!
//! A number with a fraction is held as the 64 bits of its IEEE 754 form.
use crate::utils::errors::BatchConfigError;
use std::collections::HashMap;
use std::time::Instant;
use vstd::prelude::*;

verus! {

/// So many observations are kept at most.
pub const MAX_DATA_POINTS: usize = 100;

/// A batch is at most so many times the last one.
pub const MAX_GROWTH_FACTOR: usize = 2;

/// So many batches of a size are run before one is timed.
pub const WARMUP_BATCH_COUNT: usize = 1;

/// The bits of infinity: what lies above, up to the sign, is no number.
pub const INFINITY_BITS: u64 = 0x7ff0_0000_0000_0000;

/// The bits of one.
pub const ONE_BITS: u64 = 0x3ff0_0000_0000_0000;

/// The bit of the sign.
pub const SIGN_BIT: u64 = 0x8000_0000_0000_0000;

/// Whether the number is a positive one that is at most one. Positive numbers
/// are in the order of their bits.
pub open spec fn is_fraction(bits: u64) -> bool {
    0 < bits <= ONE_BITS
}

/// Whether the number is zero or below.
pub open spec fn is_at_most_zero(bits: u64) -> bool {
    bits == 0 || SIGN_BIT <= bits <= SIGN_BIT + INFINITY_BITS
}

/// How batch sizes are chosen.
#[derive(Debug, Clone, Copy, PartialEq, Eq, Structural)]
pub struct BatchConfig {
    pub min_batch_size: usize,
    pub max_batch_size: usize,
    /// The share of the fixed cost in a batch that is aimed at.
    pub target_batch_overhead: u64,
    /// The seconds of a batch without its fixed cost that are aimed at.
    pub target_batch_duration_secs: u64,
    /// The seconds of a batch with its fixed cost that are aimed at, if any.
    pub target_batch_duration_secs_with_fixed_cost: Option<u64>,
    /// How far sizes are spread.
    pub variance: u64,
}

impl Default for BatchConfig {
    fn default() -> (r: BatchConfig)
        ensures
            r == default_config(),
    {
        BatchConfig {
            min_batch_size: 1,
            max_batch_size: 10_000,
            target_batch_overhead: 0x3fa9_9999_9999_999a,
            target_batch_duration_secs: 0x4024_0000_0000_0000,
            target_batch_duration_secs_with_fixed_cost: None,
            variance: 0x3fd0_0000_0000_0000,
        }
    }
}

/// The choice where nothing is said: sizes from 1 to 10000, an overhead of 0.05,
/// ten seconds for a batch, spread by 0.25.
pub open spec fn default_config() -> BatchConfig {
    BatchConfig {
        min_batch_size: 1,
        max_batch_size: 10_000,
        target_batch_overhead: 0x3fa9_9999_9999_999a,
        target_batch_duration_secs: 0x4024_0000_0000_0000,
        target_batch_duration_secs_with_fixed_cost: None,
        variance: 0x3fd0_0000_0000_0000,
    }
}

impl BatchConfig {
    pub fn builder() -> (r: BatchConfigBuilder)
        ensures
            r.inner == default_config(),
    {
        BatchConfigBuilder { inner: BatchConfig::default() }
    }
}

/// Puts a configuration together.
#[derive(Debug, Clone)]
pub struct BatchConfigBuilder {
    pub inner: BatchConfig,
}

impl Default for BatchConfigBuilder {
    fn default() -> (r: BatchConfigBuilder)
        ensures
            r.inner == default_config(),
    {
        BatchConfigBuilder { inner: BatchConfig::default() }
    }
}

impl BatchConfigBuilder {
    pub fn min_batch_size(self, v: usize) -> (r: BatchConfigBuilder)
        ensures
            r.inner == (BatchConfig { min_batch_size: v, ..self.inner }),
    {
        BatchConfigBuilder { inner: BatchConfig { min_batch_size: v, ..self.inner } }
    }

    pub fn max_batch_size(self, v: usize) -> (r: BatchConfigBuilder)
        ensures
            r.inner == (BatchConfig { max_batch_size: v, ..self.inner }),
    {
        BatchConfigBuilder { inner: BatchConfig { max_batch_size: v, ..self.inner } }
    }

    pub fn target_batch_overhead(self, v: u64) -> (r: BatchConfigBuilder)
        ensures
            r.inner == (BatchConfig { target_batch_overhead: v, ..self.inner }),
    {
        BatchConfigBuilder { inner: BatchConfig { target_batch_overhead: v, ..self.inner } }
    }

    pub fn target_batch_duration_secs(self, v: u64) -> (r: BatchConfigBuilder)
        ensures
            r.inner == (BatchConfig { target_batch_duration_secs: v, ..self.inner }),
    {
        BatchConfigBuilder { inner: BatchConfig { target_batch_duration_secs: v, ..self.inner } }
    }

    pub fn target_batch_duration_secs_with_fixed_cost(self, v: u64) -> (r: BatchConfigBuilder)
        ensures
            r.inner == (BatchConfig {
                target_batch_duration_secs_with_fixed_cost: Some(v),
                ..self.inner
            }),
    {
        BatchConfigBuilder {
            inner: BatchConfig {
                target_batch_duration_secs_with_fixed_cost: Some(v),
                ..self.inner
            },
        }
    }

    pub fn variance(self, v: u64) -> (r: BatchConfigBuilder)
        ensures
            r.inner == (BatchConfig { variance: v, ..self.inner }),
    {
        BatchConfigBuilder { inner: BatchConfig { variance: v, ..self.inner } }
    }

    /// The configuration, if it can be meant: the sizes are in order, the
    /// overhead is a share, and the durations are not zero or below.
    pub fn build(self) -> (r: Result<BatchConfig, BatchConfigError>)
        ensures
            ({
                let c = self.inner;
                if c.min_batch_size > c.max_batch_size {
                    r == Err::<BatchConfig, BatchConfigError>(
                        BatchConfigError::MinExceedsMax(c.min_batch_size, c.max_batch_size),
                    )
                } else if !is_fraction(c.target_batch_overhead) {
                    r == Err::<BatchConfig, BatchConfigError>(
                        BatchConfigError::InvalidOverhead(c.target_batch_overhead),
                    )
                } else if is_at_most_zero(c.target_batch_duration_secs) {
                    r == Err::<BatchConfig, BatchConfigError>(
                        BatchConfigError::InvalidDuration(c.target_batch_duration_secs),
                    )
                } else {
                    match c.target_batch_duration_secs_with_fixed_cost {
                        Some(v) => if is_at_most_zero(v) {
                            r == Err::<BatchConfig, BatchConfigError>(
                                BatchConfigError::InvalidFixedCostDuration(v),
                            )
                        } else {
                            r == Ok::<BatchConfig, BatchConfigError>(c)
                        },
                        None => r == Ok::<BatchConfig, BatchConfigError>(c),
                    }
                }
            }),
    {
        let c = self.inner;
        if c.min_batch_size > c.max_batch_size {
            return Err(BatchConfigError::MinExceedsMax(c.min_batch_size, c.max_batch_size));
        }
        if !(0 < c.target_batch_overhead && c.target_batch_overhead <= ONE_BITS) {
            return Err(BatchConfigError::InvalidOverhead(c.target_batch_overhead));
        }
        if at_most_zero(c.target_batch_duration_secs) {
            return Err(BatchConfigError::InvalidDuration(c.target_batch_duration_secs));
        }
        match c.target_batch_duration_secs_with_fixed_cost {
            Some(v) => {
                if at_most_zero(v) {
                    return Err(BatchConfigError::InvalidFixedCostDuration(v));
                }
            },
            None => {},
        }
        Ok(c)
    }
}

/// Whether the number is zero or below.
fn at_most_zero(bits: u64) -> (r: bool)
    ensures
        r == is_at_most_zero(bits),
{
    bits == 0 || (SIGN_BIT <= bits && bits - SIGN_BIT <= INFINITY_BITS)
}

/// What a batch of a size took.
#[derive(Debug, Clone, Copy, PartialEq, Eq, Structural)]
pub struct Observation {
    pub batch_size: usize,
    pub elapsed_nanos: u64,
}

/// How the next batch size is found.
#[derive(Debug, Clone, Copy, PartialEq, Eq, Structural)]
pub enum SizePlan {
    /// It is this one.
    Settled(usize),
    /// It is estimated from what was observed, and lies between these two.
    Estimated { floor: usize, cap: usize },
}

/// The smaller of two numbers.
pub open spec fn smaller(a: int, b: int) -> int {
    if a <= b {
        a
    } else {
        b
    }
}

/// The larger of two numbers.
pub open spec fn larger(a: int, b: int) -> int {
    if a >= b {
        a
    } else {
        b
    }
}

/// How the next batch size is found from what was observed: without a choice, or
/// without a past, it is settled; with a single observation it is twice the
/// least; else it is estimated.
pub open spec fn plan_of(config: BatchConfig, data: Seq<Observation>) -> SizePlan {
    if config.min_batch_size == config.max_batch_size || data.len() == 0 {
        SizePlan::Settled(config.min_batch_size)
    } else if data.len() < 2 {
        SizePlan::Settled(
            larger(
                smaller(
                    config.min_batch_size * MAX_GROWTH_FACTOR,
                    config.max_batch_size as int,
                ),
                smaller(config.min_batch_size + 1, usize::MAX as int),
            ) as usize,
        )
    } else {
        SizePlan::Estimated {
            floor: smaller(
                config.min_batch_size + data.len() as int % 2,
                usize::MAX as int,
            ) as usize,
            cap: smaller(
                data.last().batch_size * MAX_GROWTH_FACTOR,
                config.max_batch_size as int,
            ) as usize,
        }
    }
}

/// The batch size of a plan, given an estimate.
pub open spec fn size_of(plan: SizePlan, estimate: usize) -> usize {
    match plan {
        SizePlan::Settled(size) => size,
        SizePlan::Estimated { floor, cap } => larger(
            smaller(estimate as int, cap as int),
            floor as int,
        ) as usize,
    }
}

/// Twice a size, and no more than a bound.
fn grown(size: usize, bound: usize) -> (r: usize)
    ensures
        r == smaller(size * MAX_GROWTH_FACTOR, bound as int),
{
    match size.checked_mul(MAX_GROWTH_FACTOR) {
        Some(twice) => if twice <= bound {
            twice
        } else {
            bound
        },
        None => bound,
    }
}

/// A size and a little more, as far as there are larger ones.
fn above(size: usize, more: usize) -> (r: usize)
    ensures
        r == smaller(size + more, usize::MAX as int),
{
    match size.checked_add(more) {
        Some(sum) => sum,
        None => usize::MAX,
    }
}

// Thinning.

/// `rand::random_range` over the numbers from zero up to a bound: one of them.
/// Which one is left to chance.
#[verifier::external_body]
fn random_below(n: usize) -> (r: usize)
    requires
        n > 0,
    ensures
        r < n,
{
    rand::random_range(0..n)
}

/// Some observations without those at two places, the second counted once the
/// first is gone.
pub open spec fn thinned_at(data: Seq<Observation>, first: int, second: int) -> Seq<Observation> {
    data.remove(first).remove(second)
}

/// Whether the one comes from the other by thinning: an observation of the first
/// quarter is gone, and one of the first half of what was left.
pub open spec fn is_thinned(data: Seq<Observation>, after: Seq<Observation>) -> bool {
    exists|first: int, second: int|
        0 <= first < data.len() / 4 && 0 <= second < (data.len() - 1) / 2 && after
            == #[trigger] thinned_at(data, first, second)
}

/// Takes out the observations at two places.
pub fn thin_at(data: &mut Vec<Observation>, first: usize, second: usize)
    requires
        first < old(data)@.len(),
        second < old(data)@.len() - 1,
    ensures
        final(data)@ == thinned_at(old(data)@, first as int, second as int),
{
    data.remove(first);
    data.remove(second);
}

/// Takes out an observation of the first quarter, and one of the first half of
/// what is left.
fn thin_data(data: &mut Vec<Observation>)
    requires
        old(data)@.len() >= 4,
    ensures
        is_thinned(old(data)@, final(data)@),
{
    let n: usize = data.len();
    let first = random_below(n / 4);
    let second = random_below((n - 1) / 2);
    thin_at(data, first, second);
}

// Trimming.

/// Where an observation goes among sorted ones: behind those of its size.
pub open spec fn place_among(sorted: Seq<Observation>, size: usize) -> int
    decreases sorted.len(),
{
    if sorted.len() == 0 || sorted.last().batch_size <= size {
        sorted.len() as int
    } else {
        place_among(sorted.drop_last(), size)
    }
}

/// The observations by their batch size; those of one size stay in their order.
pub open spec fn by_size(data: Seq<Observation>) -> Seq<Observation>
    decreases data.len(),
{
    if data.len() == 0 {
        Seq::empty()
    } else {
        let rest = by_size(data.drop_last());
        rest.insert(place_among(rest, data.last().batch_size), data.last())
    }
}

/// How many observations are looked at: four fifths, but not fewer than twenty,
/// where there are as many.
pub open spec fn trim_size(n: int) -> int {
    smaller(larger(n * 4 / 5, 20), n)
}

proof fn place_is_inside(sorted: Seq<Observation>, size: usize)
    ensures
        0 <= place_among(sorted, size) <= sorted.len(),
    decreases sorted.len(),
{
    if sorted.len() > 0 && sorted.last().batch_size > size {
        place_is_inside(sorted.drop_last(), size);
    }
}

proof fn place_divides(sorted: Seq<Observation>, size: usize)
    requires
        is_sorted(sorted),
    ensures
        forall|i: int|
            0 <= i < sorted.len() ==> ((#[trigger] sorted[i]).batch_size <= size <==> i
                < place_among(sorted, size)),
    decreases sorted.len(),
{
    place_is_inside(sorted, size);
    if sorted.len() > 0 {
        if sorted.last().batch_size > size {
            place_divides(sorted.drop_last(), size);
            place_is_inside(sorted.drop_last(), size);
            assert forall|i: int| 0 <= i < sorted.len() implies ((
            #[trigger] sorted[i]).batch_size <= size <==> i < place_among(sorted, size)) by {
                if i < sorted.len() - 1 {
                    assert(sorted[i] == sorted.drop_last()[i]);
                }
            }
        } else {
            assert forall|i: int| 0 <= i < sorted.len() implies ((
            #[trigger] sorted[i]).batch_size <= size <==> i < place_among(sorted, size)) by {
                assert(sorted[i].batch_size <= sorted[sorted.len() - 1].batch_size);
            }
        }
    }
}

/// Whether the sizes do not get smaller.
pub open spec fn is_sorted(data: Seq<Observation>) -> bool {
    forall|i: int, j: int|
        0 <= i <= j < data.len() ==> (#[trigger] data[i]).batch_size <= (
        #[trigger] data[j]).batch_size
}

/// Observations by their size are in order, and none is lost or made up.
pub proof fn by_size_sorts(data: Seq<Observation>)
    ensures
        is_sorted(by_size(data)),
        by_size(data).len() == data.len(),
        by_size(data).to_multiset() == data.to_multiset(),
    decreases data.len(),
{
    if data.len() > 0 {
        by_size_sorts(data.drop_last());
        let rest = by_size(data.drop_last());
        let x = data.last();
        let at = place_among(rest, x.batch_size);
        place_is_inside(rest, x.batch_size);
        place_divides(rest, x.batch_size);
        let all = rest.insert(at, x);
        assert forall|i: int, j: int| 0 <= i <= j < all.len() implies (
        #[trigger] all[i]).batch_size <= (#[trigger] all[j]).batch_size by {
            if i < at {
                assert(all[i] == rest[i]);
            }
            if i > at {
                assert(all[i] == rest[i - 1]);
            }
            if j < at {
                assert(all[j] == rest[j]);
            }
            if j > at {
                assert(all[j] == rest[j - 1]);
            }
        }
        vstd::seq_lib::to_multiset_insert(rest, at, x);
        assert(data =~= data.drop_last().push(x));
        vstd::seq_lib::to_multiset_build(data.drop_last(), x);
    } else {
        assert(data =~= Seq::<Observation>::empty());
    }
}

/// Puts an observation among sorted ones, behind those of its size.
fn insert_by_size(sorted: &mut Vec<Observation>, x: Observation)
    ensures
        final(sorted)@ == old(sorted)@.insert(place_among(old(sorted)@, x.batch_size), x),
{
    let ghost whole = sorted@;
    let mut at: usize = sorted.len();
    assert(whole.take(at as int) =~= whole);
    while at > 0 && sorted[at - 1].batch_size > x.batch_size
        invariant
            sorted@ == whole,
            at <= whole.len(),
            place_among(whole, x.batch_size) == place_among(
                whole.take(at as int),
                x.batch_size,
            ),
        decreases at,
    {
        assert(whole.take(at as int).drop_last() =~= whole.take(at - 1));
        at = at - 1;
    }
    sorted.insert(at, x);
}

// The estimator.

/// Finds batch sizes that amortize a fixed cost, from what batches of other sizes
/// took.
pub struct BatchSizeEstimator {
    pub config: BatchConfig,
    pub data: Vec<Observation>,
    pub replay_last_batch_size: Option<usize>,
    pub batch_size_num_seen: HashMap<usize, usize>,
    pub ignore_next_timing: bool,
}

/// How often a size was chosen.
pub open spec fn times_seen(seen: Map<usize, usize>, size: usize) -> int {
    if seen.contains_key(size) {
        seen[size] as int
    } else {
        0
    }
}

/// Whether an estimator becomes the other one when it observes what a batch took:
/// while the timing is passed over, the size comes again; else the observation is
/// kept, and all are thinned where they are too many.
pub open spec fn is_recorded(
    before: BatchSizeEstimator,
    batch_size: usize,
    elapsed_nanos: u64,
    after: BatchSizeEstimator,
) -> bool {
    let observed = before.data@.push(Observation { batch_size, elapsed_nanos });
    &&& after.config == before.config
    &&& after.batch_size_num_seen == before.batch_size_num_seen
    &&& !after.ignore_next_timing
    &&& if before.ignore_next_timing {
        &&& after.data == before.data
        &&& after.replay_last_batch_size == Some(
            smaller(batch_size as int, before.config.max_batch_size as int) as usize,
        )
    } else {
        &&& after.replay_last_batch_size == before.replay_last_batch_size
        &&& if observed.len() >= MAX_DATA_POINTS {
            is_thinned(observed, after.data@)
        } else {
            after.data@ == observed
        }
    }
}

/// The next batch size: the one that comes again, else the one of the plan.
pub open spec fn next_size(before: BatchSizeEstimator, estimate: usize) -> usize {
    match before.replay_last_batch_size {
        Some(size) => size,
        None => size_of(plan_of(before.config, before.data@), estimate),
    }
}

/// Whether an estimator becomes the other one when it chooses a size: it counts
/// the size, and the first batches of a size only warm up.
pub open spec fn is_chosen(
    before: BatchSizeEstimator,
    size: usize,
    after: BatchSizeEstimator,
) -> bool {
    let seen = times_seen(before.batch_size_num_seen@, size);
    &&& after.config == before.config
    &&& after.data == before.data
    &&& after.replay_last_batch_size is None
    &&& after.batch_size_num_seen@ == before.batch_size_num_seen@.insert(
        size,
        smaller(seen + 1, usize::MAX as int) as usize,
    )
    &&& after.ignore_next_timing == (before.ignore_next_timing || seen < WARMUP_BATCH_COUNT)
}

/// A point in time, as std knows it.
#[verifier::external_type_specification]
#[verifier::external_body]
pub struct ExInstant(Instant);

/// The present, from `std::time::Instant::now`. Nothing is claimed of it: it depends on
/// the clock.
#[verifier::external_body]
fn now() -> (r: Instant) {
    Instant::now()
}

/// The nanoseconds since then, from `std::time::Instant::elapsed`. Nothing is claimed of
/// them: they depend on the clock.
#[verifier::external_body]
fn nanos_since(start: &Instant) -> (r: u128) {
    start.elapsed().as_nanos()
}

impl BatchSizeEstimator {
    /// An estimator that has observed nothing.
    pub fn new(config: BatchConfig) -> (r: BatchSizeEstimator)
        ensures
            r.config == config,
            r.data@ == Seq::<Observation>::empty(),
            r.replay_last_batch_size is None,
            r.batch_size_num_seen@ == Map::<usize, usize>::empty(),
            !r.ignore_next_timing,
    {
        BatchSizeEstimator {
            config,
            data: Vec::new(),
            replay_last_batch_size: None,
            batch_size_num_seen: HashMap::new(),
            ignore_next_timing: false,
        }
    }

    /// Observes what a batch took. The first batch of a size only warms up: what it
    /// took is passed over, and its size comes again.
    pub fn record(&mut self, batch_size: usize, elapsed_nanos: u64)
        ensures
            is_recorded(*old(self), batch_size, elapsed_nanos, *final(self)),
    {
        if self.ignore_next_timing {
            self.ignore_next_timing = false;
            let size = if batch_size <= self.config.max_batch_size {
                batch_size
            } else {
                self.config.max_batch_size
            };
            self.replay_last_batch_size = Some(size);
        } else {
            self.data.push(Observation { batch_size, elapsed_nanos });
            if self.data.len() >= MAX_DATA_POINTS {
                thin_data(&mut self.data);
            }
        }
    }

    /// Runs a function on a batch of that size, observes what it took and returns its
    /// result.
    pub fn time<T>(&mut self, batch_size: usize, f: impl FnOnce() -> T) -> (r: T)
        requires
            call_requires(f, ()),
        ensures
            call_ensures(f, (), r),
            exists|elapsed_nanos: u64|
                #[trigger]
                is_recorded(*old(self), batch_size, elapsed_nanos, *final(self)),
    {
        let start = now();
        let result = f();
        let took: u128 = nanos_since(&start);
        let elapsed_nanos: u64 = if took <= u64::MAX as u128 {
            took as u64
        } else {
            u64::MAX
        };
        self.record(batch_size, elapsed_nanos);
        result
    }

    /// Passes over what the next batch takes.
    pub fn ignore_next_timing(&mut self)
        ensures
            final(self).ignore_next_timing,
            final(self).config == old(self).config,
            final(self).data == old(self).data,
            final(self).replay_last_batch_size == old(self).replay_last_batch_size,
            final(self).batch_size_num_seen == old(self).batch_size_num_seen,
    {
        self.ignore_next_timing = true;
    }

    /// The observations that an estimate rests on: the fifth with the largest
    /// sizes is passed over.
    pub fn trimmed(&self) -> (r: Vec<Observation>)
        ensures
            r@ == by_size(self.data@).take(trim_size(self.data@.len() as int)),
    {
        let n: usize = self.data.len();
        let mut sorted: Vec<Observation> = Vec::new();
        let mut i: usize = 0;
        while i < n
            invariant
                n == self.data@.len(),
                i <= n,
                sorted@ == by_size(self.data@.take(i as int)),
            decreases n - i,
        {
            assert(self.data@.take(i + 1).drop_last() =~= self.data@.take(i as int));
            insert_by_size(&mut sorted, self.data[i]);
            i = i + 1;
        }
        assert(self.data@.take(n as int) =~= self.data@);
        proof {
            by_size_sorts(self.data@);
        }
        let kept: usize = n - n / 5 - (if n % 5 == 0 {
            0usize
        } else {
            1usize
        });
        assert(kept == n as int * 4 / 5);
        let wanted: usize = if kept >= 20 {
            kept
        } else {
            20
        };
        let m: usize = if wanted <= n {
            wanted
        } else {
            n
        };
        let ghost all = sorted@;
        sorted.truncate(m);
        assert(sorted@ =~= all.take(m as int));
        sorted
    }

    /// How the next batch size is found.
    pub fn calculate_next_batch_size(&self) -> (r: SizePlan)
        ensures
            r == plan_of(self.config, self.data@),
    {
        let config = &self.config;
        let n: usize = self.data.len();
        if config.min_batch_size == config.max_batch_size || n == 0 {
            return SizePlan::Settled(config.min_batch_size);
        }
        if n < 2 {
            let twice = grown(config.min_batch_size, config.max_batch_size);
            let more = above(config.min_batch_size, 1);
            return SizePlan::Settled(
                if twice >= more {
                    twice
                } else {
                    more
                },
            );
        }
        SizePlan::Estimated {
            floor: above(config.min_batch_size, n % 2),
            cap: grown(self.data[n - 1].batch_size, config.max_batch_size),
        }
    }

    /// The next batch size. A size that only warmed up comes again; else the
    /// estimate counts, as far as the plan leaves room for it.
    pub fn next_batch_size(&mut self, estimate: usize) -> (r: usize)
        ensures
            r == next_size(*old(self), estimate),
            is_chosen(*old(self), r, *final(self)),
    {
        broadcast use vstd::std_specs::hash::group_hash_axioms;

        let result = match self.replay_last_batch_size {
            Some(size) => size,
            None => match self.calculate_next_batch_size() {
                SizePlan::Settled(size) => size,
                SizePlan::Estimated { floor, cap } => {
                    let at_most = if estimate <= cap {
                        estimate
                    } else {
                        cap
                    };
                    if at_most >= floor {
                        at_most
                    } else {
                        floor
                    }
                },
            },
        };
        self.replay_last_batch_size = None;
        let before: usize = match self.batch_size_num_seen.get(&result) {
            Some(count) => *count,
            None => 0,
        };
        let seen = above(before, 1);
        self.batch_size_num_seen.insert(result, seen);
        if seen <= WARMUP_BATCH_COUNT {
            self.ignore_next_timing();
        }
        result
    }
}

/// A size that is chosen without a replay is never above what the configuration
/// and the last batch allow, but for the least size, and never below that.
pub proof fn sizes_stay_in_bounds(config: BatchConfig, data: Seq<Observation>, estimate: usize)
    requires
        config.min_batch_size <= config.max_batch_size,
    ensures
        ({
            let size = size_of(plan_of(config, data), estimate);
            &&& config.min_batch_size <= size
            &&& size <= config.max_batch_size
            &&& data.len() >= 2 ==> size <= larger(
                data.last().batch_size * MAX_GROWTH_FACTOR,
                config.min_batch_size + 1,
            )
        }),
{
}

/// The first batch of a size leaves no observation, and its size comes again, as
/// far as the configuration allows it.
pub proof fn warmup_comes_again(
    start: BatchSizeEstimator,
    size: usize,
    chosen: BatchSizeEstimator,
    elapsed_nanos: u64,
    recorded: BatchSizeEstimator,
    estimate: usize,
)
    requires
        times_seen(start.batch_size_num_seen@, size) == 0,
        is_chosen(start, size, chosen),
        is_recorded(chosen, size, elapsed_nanos, recorded),
    ensures
        recorded.data == start.data,
        next_size(recorded, estimate) == smaller(
            size as int,
            start.config.max_batch_size as int,
        ),
{
}

// Batches.

/// Whether the result is one that the function gives for a batch of these items.
pub open spec fn is_processed<T, F, R>(process: F, items: Seq<T>, result: R) -> bool where
    F: FnOnce(&[T]) -> R,
 {
    exists|b: &[T]| #![trigger call_ensures(process, (b,), result)]
        b@ == items && call_ensures(process, (b,), result)
}

/// Whether a batch of that size was observed, whatever it took, and the next size
/// chosen after that.
pub open spec fn is_retargeted<E>(
    before: BatchSizeEstimator,
    batch_size: usize,
    estimate: E,
    target: usize,
    after: BatchSizeEstimator,
) -> bool where E: FnOnce(&BatchSizeEstimator) -> usize {
    exists|elapsed_nanos: u64, observed: BatchSizeEstimator, chosen: usize|
        #![trigger is_recorded(before, batch_size, elapsed_nanos, observed), call_ensures(estimate, (&observed,), chosen)]
        {
            &&& is_recorded(before, batch_size, elapsed_nanos, observed)
            &&& call_ensures(estimate, (&observed,), chosen)
            &&& target == next_size(observed, chosen)
            &&& is_chosen(observed, target, after)
        }
}

/// Collects items until there are as many as a batch wants.
pub struct AdaptiveBatcher<T> {
    pub estimator: BatchSizeEstimator,
    pub buffer: Vec<T>,
    pub target: usize,
}

impl<T> AdaptiveBatcher<T> {
    /// A batcher without items. Its first batches have the least size.
    pub fn new(config: BatchConfig) -> (r: AdaptiveBatcher<T>)
        ensures
            r.buffer@ == Seq::<T>::empty(),
            r.target == config.min_batch_size,
            r.estimator.config == config,
            r.estimator.data@ == Seq::<Observation>::empty(),
            r.estimator.ignore_next_timing,
            r.estimator.replay_last_batch_size is None,
    {
        let mut estimator = BatchSizeEstimator::new(config);
        let target = estimator.next_batch_size(0);
        AdaptiveBatcher { estimator, buffer: Vec::new(), target }
    }

    /// Takes an item. Once there are enough, all of them are processed as a batch, and
    /// the result is returned.
    pub fn push<F, R, E>(&mut self, item: T, process: F, estimate: E) -> (r: Option<R>) where
        F: FnOnce(&[T]) -> R,
        E: FnOnce(&BatchSizeEstimator) -> usize,

        requires
            forall|b: &[T]|
                #![trigger call_requires(process, (b,))]
                b@ == old(self).buffer@.push(item) ==> call_requires(process, (b,)),
            forall|e: &BatchSizeEstimator| #[trigger] call_requires(estimate, (e,)),
        ensures
            match r {
                Some(result) => {
                    &&& old(self).buffer@.len() + 1 >= old(self).target
                    &&& final(self).buffer@ == Seq::<T>::empty()
                    &&& is_processed(process, old(self).buffer@.push(item), result)
                    &&& is_retargeted(
                        old(self).estimator,
                        (old(self).buffer@.len() + 1) as usize,
                        estimate,
                        final(self).target,
                        final(self).estimator,
                    )
                },
                None => {
                    &&& old(self).buffer@.len() + 1 < old(self).target
                    &&& final(self).buffer@ == old(self).buffer@.push(item)
                    &&& final(self).target == old(self).target
                    &&& final(self).estimator == old(self).estimator
                },
            },
    {
        self.buffer.push(item);
        if self.buffer.len() >= self.target {
            self.flush(process, estimate)
        } else {
            None
        }
    }

    /// Processes the items that there are, if any, as a batch. What that took is
    /// observed, and the size of the next batch is chosen anew, where it rests on an
    /// estimate by the one that is given.
    pub fn flush<F, R, E>(&mut self, process: F, estimate: E) -> (r: Option<R>) where
        F: FnOnce(&[T]) -> R,
        E: FnOnce(&BatchSizeEstimator) -> usize,

        requires
            forall|b: &[T]|
                #![trigger call_requires(process, (b,))]
                b@ == old(self).buffer@ ==> call_requires(process, (b,)),
            forall|e: &BatchSizeEstimator| #[trigger] call_requires(estimate, (e,)),
        ensures
            final(self).buffer@ == Seq::<T>::empty(),
            match r {
                Some(result) => {
                    &&& old(self).buffer@.len() > 0
                    &&& is_processed(process, old(self).buffer@, result)
                    &&& is_retargeted(
                        old(self).estimator,
                        old(self).buffer@.len() as usize,
                        estimate,
                        final(self).target,
                        final(self).estimator,
                    )
                },
                None => {
                    &&& old(self).buffer@.len() == 0
                    &&& final(self).target == old(self).target
                    &&& final(self).estimator == old(self).estimator
                },
            },
    {
        if self.buffer.len() == 0 {
            return None;
        }
        let mut batch: Vec<T> = Vec::new();
        std::mem::swap(&mut batch, &mut self.buffer);
        let batch_size: usize = batch.len();
        let ghost before = self.estimator;
        let items: &[T] = batch.as_slice();
        let run = || -> (r: R)
            requires
                call_requires(process, (items,)),
            ensures
                call_ensures(process, (items,), r),
        { process(items) };
        let result = self.estimator.time(batch_size, run);
        let ghost observed = self.estimator;
        let chosen: usize = estimate(&self.estimator);
        self.target = self.estimator.next_batch_size(chosen);
        Some(result)
    }

    /// How many items wait.
    pub fn pending(&self) -> (r: usize)
        ensures
            r == self.buffer@.len(),
    {
        self.buffer.len()
    }
}

} // verus!
