//! What holds of the sizes of batches.
use crate::utils::batch_size_estimator::{
    default_config, is_at_most_zero, is_chosen, is_fraction, is_recorded, is_thinned, next_size,
    plan_of, size_of, thinned_at, times_seen, trim_size, BatchConfig, BatchSizeEstimator,
    Observation,
};
use vstd::prelude::*;

verus! {

/// Without a choice and without a past, a batch is as small as may be. With one observation
/// it is twice as large, as far as that is allowed. With more, an estimate is followed, but
/// never above twice the last size.
pub proof fn sizes_follow_the_past(config: BatchConfig, data: Seq<Observation>, estimate: usize)
    requires
        0 < config.min_batch_size <= config.max_batch_size,
    ensures
        ({
            let size = size_of(plan_of(config, data), estimate);
            let (least, most) = (config.min_batch_size, config.max_batch_size);
            let last = data.last().batch_size;
            &&& least == most || data.len() == 0 ==> size == least
            &&& least < most && data.len() == 1 && 2 * least <= most ==> size == 2 * least
            &&& least < most && data.len() == 1 && 2 * least > most ==> size == most
            &&& least < most && data.len() >= 2 && least < estimate <= most && estimate <= 2 * last
                ==> size == estimate
            &&& least < most && data.len() >= 2 && estimate > 2 * last && least < 2 * last <= most
                ==> size == 2 * last
            &&& least < most && data.len() >= 2 && estimate > most && most <= 2 * last ==> size
                == most
            &&& least < most && data.len() >= 2 && estimate <= least ==> size == least + (
            data.len() % 2)
        }),
{
}

/// The first batch of a size warms up; what a later one took is observed, behind what was
/// observed before. From a hundred observations on, two are given up.
pub proof fn timings_are_observed(
    start: BatchSizeEstimator,
    size: usize,
    chosen: BatchSizeEstimator,
    elapsed_nanos: u64,
    after: BatchSizeEstimator,
)
    requires
        is_chosen(start, size, chosen),
        is_recorded(chosen, size, elapsed_nanos, after),
    ensures
        after.config == start.config,
        !after.ignore_next_timing,
        chosen.ignore_next_timing <==> start.ignore_next_timing || times_seen(
            start.batch_size_num_seen@,
            size,
        ) == 0,
        times_seen(start.batch_size_num_seen@, size) < usize::MAX ==> times_seen(
            chosen.batch_size_num_seen@,
            size,
        ) == times_seen(start.batch_size_num_seen@, size) + 1,
        forall|other: usize|
            other != size ==> #[trigger] times_seen(after.batch_size_num_seen@, other)
                == times_seen(start.batch_size_num_seen@, other),
        chosen.ignore_next_timing ==> after.data@ == start.data@,
        !chosen.ignore_next_timing && start.data@.len() + 1 < 100 ==> after.data@.len()
            == start.data@.len() + 1 && after.data@.last() == (Observation {
            batch_size: size,
            elapsed_nanos,
        }) && after.data@.drop_last() == start.data@,
        !chosen.ignore_next_timing && start.data@.len() + 1 >= 100 ==> after.data@.len()
            == start.data@.len() - 1,
{
    if !chosen.ignore_next_timing {
        let observed = start.data@.push(Observation { batch_size: size, elapsed_nanos });
        assert(observed.drop_last() =~= start.data@);
        if observed.len() >= 100 {
            thinning_gives_up_two(observed, after.data@);
        }
    }
}

/// Thinning gives up two observations, keeps the order of the others, and keeps the last.
pub proof fn thinning_gives_up_two(data: Seq<Observation>, after: Seq<Observation>)
    requires
        is_thinned(data, after),
        data.len() >= 4,
    ensures
        after.len() == data.len() - 2,
        after.last() == data.last(),
        exists|i: int, j: int|
            0 <= i < j < data.len() && after == #[trigger] data.remove(j).remove(i),
{
    let (first, second) = choose|first: int, second: int|
        0 <= first < data.len() / 4 && 0 <= second < (data.len() - 1) / 2 && after
            == #[trigger] thinned_at(data, first, second);
    if second < first {
        assert(after =~= data.remove(first).remove(second));
    } else {
        assert(after =~= data.remove(second + 1).remove(first));
    }
}

/// A size that came in while its timing was passed over comes again, whatever is estimated.
pub proof fn passed_over_comes_again(
    before: BatchSizeEstimator,
    size: usize,
    elapsed_nanos: u64,
    after: BatchSizeEstimator,
    estimate: usize,
)
    requires
        is_recorded(before, size, elapsed_nanos, after),
        before.ignore_next_timing,
        size <= before.config.max_batch_size,
    ensures
        next_size(after, estimate) == size,
{
}

/// At least four fifths of the observations are looked at, all of them where there are no
/// more than twenty, and never fewer than twenty of more.
pub proof fn most_are_looked_at(n: int)
    requires
        0 <= n,
    ensures
        0 <= n <= 20 ==> trim_size(n) == n,
        20 < n < 25 ==> trim_size(n) == 20,
        25 <= n ==> trim_size(n) == 4 * n / 5,
{
}

/// Where nothing is said, batches have from one to ten thousand elements.
pub proof fn defaults_are_these()
    ensures
        default_config().min_batch_size == 1,
        default_config().max_batch_size == 10000,
        default_config().target_batch_duration_secs_with_fixed_cost is None,
        is_fraction(default_config().target_batch_overhead),
        is_fraction(default_config().variance),
        !is_at_most_zero(default_config().target_batch_duration_secs),
{
}

} // verus!
