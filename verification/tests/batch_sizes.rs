use flaredb::utils::batch_size_estimator::{
    thin_at, AdaptiveBatcher, BatchConfig, BatchSizeEstimator, Observation, SizePlan,
};
use flaredb::utils::errors::BatchConfigError;
use std::time::{Duration, Instant};

const MILLI: u64 = 1_000_000;

#[test]
fn fixed_batch_size_when_min_equals_max() {
    let config = BatchConfig::builder()
        .min_batch_size(50)
        .max_batch_size(50)
        .build()
        .unwrap();
    let mut est = BatchSizeEstimator::new(config);
    for _ in 0..5 {
        assert_eq!(est.next_batch_size(0), 50);
        est.record(50, MILLI);
    }
}

#[test]
fn grows_from_cold_start() {
    let config = BatchConfig::builder()
        .min_batch_size(1)
        .max_batch_size(1000)
        .build()
        .unwrap();
    let mut est = BatchSizeEstimator::new(config);
    let first = est.next_batch_size(0);
    assert_eq!(first, 1);
    est.record(first, MILLI / 2);
    let second = est.next_batch_size(0);
    assert!(second >= first);
}

#[test]
fn adaptive_batcher_flushes_and_reports_size() {
    let config = BatchConfig::builder()
        .min_batch_size(4)
        .max_batch_size(4)
        .build()
        .unwrap();
    let mut batcher = AdaptiveBatcher::new(config);

    let mut flushed_sizes = Vec::new();
    for i in 0..10u32 {
        if let Some(size) = batcher.push(i, |batch: &[u32]| batch.len(), |_| 0) {
            flushed_sizes.push(size);
        }
    }
    let tail = batcher.flush(|batch: &[u32]| batch.len(), |_| 0);

    assert_eq!(flushed_sizes, vec![4, 4]);
    assert_eq!(tail, Some(2));
    assert_eq!(batcher.pending(), 0);
}

#[test]
fn wires_around_a_real_function_call() {
    // Stands in for "any service/function": e.g. a batched RPC call.
    fn downstream_call(batch: &[u32]) -> u32 {
        let start = Instant::now();
        while start.elapsed() < Duration::from_micros(200) {}
        batch.iter().sum()
    }

    let config = BatchConfig::builder()
        .min_batch_size(1)
        .max_batch_size(200)
        .target_batch_duration_secs((0.01f64).to_bits())
        .build()
        .unwrap();
    let mut batcher = AdaptiveBatcher::new(config);

    let mut total = 0u32;
    for i in 0..500u32 {
        if let Some(sum) = batcher.push(i, downstream_call, |_| 60) {
            total += sum;
        }
    }
    if let Some(sum) = batcher.flush(downstream_call, |_| 60) {
        total += sum;
    }

    assert_eq!(total, (0..500u32).sum::<u32>());
}

#[test]
fn a_flush_observes_and_retargets() {
    let config = BatchConfig::builder().max_batch_size(1000).build().unwrap();
    let mut batcher = AdaptiveBatcher::new(config);
    assert_eq!(batcher.flush(|batch: &[u32]| batch.len(), |_| 7), None);
    // the first batch only warms up, and its size comes again
    assert_eq!(batcher.push(1u32, |batch: &[u32]| batch.len(), |_| 7), Some(1));
    assert!(batcher.estimator.data.is_empty());
    assert_eq!(batcher.target, 1);
    // the second is observed, and the least size is doubled
    assert_eq!(batcher.push(2u32, |batch: &[u32]| batch.len(), |_| 7), Some(1));
    assert_eq!(batcher.estimator.data.len(), 1);
    assert_eq!(batcher.estimator.data[0].batch_size, 1);
    assert_eq!(batcher.target, 2);
}

#[test]
fn a_timed_function_is_observed() {
    let config = BatchConfig::builder().max_batch_size(1000).build().unwrap();
    let mut est = BatchSizeEstimator::new(config);
    let sum = est.time(3, || {
        let start = Instant::now();
        while start.elapsed() < Duration::from_micros(50) {}
        1 + 2
    });
    assert_eq!(sum, 3);
    assert_eq!(est.data.len(), 1);
    assert_eq!(est.data[0].batch_size, 3);
    assert!(est.data[0].elapsed_nanos >= 50_000);
}

#[test]
fn the_first_batch_of_a_size_warms_up() {
    let config = BatchConfig::builder().max_batch_size(1000).build().unwrap();
    let mut est = BatchSizeEstimator::new(config);
    assert_eq!(est.next_batch_size(0), 1);
    est.record(1, MILLI);
    assert!(est.data.is_empty());
    // the same size again, and now it is timed
    assert_eq!(est.next_batch_size(0), 1);
    est.record(1, MILLI);
    assert_eq!(
        est.data,
        vec![Observation {
            batch_size: 1,
            elapsed_nanos: MILLI
        }]
    );
    // a single observation doubles the least size
    assert_eq!(est.calculate_next_batch_size(), SizePlan::Settled(2));
}

#[test]
fn estimates_are_kept_in_bounds() {
    let config = BatchConfig::builder().max_batch_size(1000).build().unwrap();
    let mut est = BatchSizeEstimator::new(config);
    est.record(10, MILLI);
    est.record(30, MILLI);
    assert_eq!(
        est.calculate_next_batch_size(),
        SizePlan::Estimated { floor: 1, cap: 60 }
    );
    assert_eq!(est.next_batch_size(45), 45);
    assert_eq!(est.next_batch_size(5000), 60);
    assert_eq!(est.next_batch_size(0), 1);
    est.record(700, MILLI);
    assert!(est.ignore_next_timing == false && est.replay_last_batch_size == Some(700));
    est.replay_last_batch_size = None;
    est.record(700, MILLI);
    assert_eq!(
        est.calculate_next_batch_size(),
        SizePlan::Estimated {
            floor: 2,
            cap: 1000
        }
    );
}

#[test]
fn a_replayed_size_is_capped() {
    let config = BatchConfig::builder().max_batch_size(20).build().unwrap();
    let mut est = BatchSizeEstimator::new(config);
    est.ignore_next_timing();
    est.record(70, MILLI);
    assert_eq!(est.next_batch_size(3), 20);
}

#[test]
fn observations_are_thinned() {
    let config = BatchConfig::default();
    let mut est = BatchSizeEstimator::new(config);
    for i in 0..100usize {
        est.record(i, i as u64);
    }
    assert_eq!(est.data.len(), 98);
    // the second half stays as it was
    assert_eq!(
        est.data[97],
        Observation {
            batch_size: 99,
            elapsed_nanos: 99
        }
    );
    assert!(est.data.windows(2).all(|w| w[0].batch_size < w[1].batch_size));
    assert!(est.data.iter().filter(|o| o.batch_size < 25).count() <= 24);

    let mut points: Vec<Observation> = (0..4usize)
        .map(|i| Observation {
            batch_size: i,
            elapsed_nanos: 0,
        })
        .collect();
    thin_at(&mut points, 0, 1);
    let sizes: Vec<usize> = points.iter().map(|o| o.batch_size).collect();
    assert_eq!(sizes, vec![1, 3]);
}

#[test]
fn the_largest_sizes_are_trimmed() {
    let mut est = BatchSizeEstimator::new(BatchConfig::default());
    for i in 0..30usize {
        est.record(30 - i, i as u64);
    }
    let kept = est.trimmed();
    assert_eq!(kept.len(), 24);
    assert_eq!(kept[0].batch_size, 1);
    assert_eq!(kept[23].batch_size, 24);

    // those of one size stay in their order, and a few are all kept
    let mut est = BatchSizeEstimator::new(BatchConfig::default());
    est.record(5, 1);
    est.record(3, 2);
    est.record(5, 3);
    let nanos: Vec<u64> = est.trimmed().iter().map(|o| o.elapsed_nanos).collect();
    assert_eq!(nanos, vec![2, 1, 3]);
}

#[test]
fn configurations_that_cannot_be_meant_are_refused() {
    let c = BatchConfig::default();
    assert_eq!(c.target_batch_overhead, 0.05f64.to_bits());
    assert_eq!(c.target_batch_duration_secs, 10.0f64.to_bits());
    assert_eq!(c.variance, 0.25f64.to_bits());
    assert_eq!((c.min_batch_size, c.max_batch_size), (1, 10_000));

    let e = BatchConfig::builder().min_batch_size(3).max_batch_size(2).build();
    assert_eq!(e, Err(BatchConfigError::MinExceedsMax(3, 2)));

    for bad in [0.0f64, -0.1, 1.5, f64::NAN, -0.0, f64::INFINITY] {
        let e = BatchConfig::builder().target_batch_overhead(bad.to_bits()).build();
        assert_eq!(e, Err(BatchConfigError::InvalidOverhead(bad.to_bits())));
    }
    assert!(BatchConfig::builder().target_batch_overhead(1.0f64.to_bits()).build().is_ok());

    for bad in [0.0f64, -0.0, -1.0, f64::NEG_INFINITY] {
        let e = BatchConfig::builder().target_batch_duration_secs(bad.to_bits()).build();
        assert_eq!(e, Err(BatchConfigError::InvalidDuration(bad.to_bits())));
        let e = BatchConfig::builder()
            .target_batch_duration_secs_with_fixed_cost(bad.to_bits())
            .build();
        assert_eq!(e, Err(BatchConfigError::InvalidFixedCostDuration(bad.to_bits())));
    }
    let ok = BatchConfig::builder()
        .target_batch_duration_secs(0.05f64.to_bits())
        .target_batch_duration_secs_with_fixed_cost(2.0f64.to_bits())
        .variance(0.0f64.to_bits())
        .build()
        .unwrap();
    assert_eq!(ok.target_batch_duration_secs_with_fixed_cost, Some(2.0f64.to_bits()));
}

/// The line through the observations, and from it the size that takes as long as is
/// aimed at.
fn estimate(est: &BatchSizeEstimator) -> usize {
    if let SizePlan::Settled(size) = est.calculate_next_batch_size() {
        return size;
    }
    let points: Vec<(f64, f64)> = est
        .trimmed()
        .iter()
        .map(|o| (o.batch_size as f64, o.elapsed_nanos as f64 / 1e6))
        .collect();
    let n = points.len() as f64;
    let xbar = points.iter().map(|p| p.0).sum::<f64>() / n;
    let ybar = points.iter().map(|p| p.1).sum::<f64>() / n;
    let (a, b) = if points.iter().all(|p| p.0 == points[0].0) {
        (0.0, ybar / xbar)
    } else {
        let num: f64 = points.iter().map(|p| (p.0 - xbar) * (p.1 - ybar)).sum();
        let den: f64 = points.iter().map(|p| (p.0 - xbar) * (p.0 - xbar)).sum();
        (ybar - num / den * xbar, num / den)
    };
    let (a, b) = (a.max(1e-10), b.max(1e-20));
    let seconds = f64::from_bits(est.config.target_batch_duration_secs);
    let overhead = f64::from_bits(est.config.target_batch_overhead);
    (est.config.max_batch_size as f64)
        .min(seconds * 1000.0 / b)
        .min((a / b) * (1.0 / overhead - 1.0)) as usize
}

/// A fixed cost of 5ms and 0.1ms for each element, with batches of 50ms aimed at: the
/// sizes settle where a batch takes that long.
#[test]
fn converges_toward_target_duration() {
    let config = BatchConfig::builder()
        .min_batch_size(1)
        .max_batch_size(100_000)
        .target_batch_duration_secs(0.05_f64.to_bits())
        .target_batch_overhead(0.05_f64.to_bits())
        .variance(0.0_f64.to_bits())
        .build()
        .unwrap();
    let mut est = BatchSizeEstimator::new(config);

    let mut last_size = 0;
    for _ in 0..60 {
        let guess = estimate(&est);
        let size = est.next_batch_size(guess);
        last_size = size;
        let simulated_ms = 5.0 + size as f64 * 0.1;
        est.record(size, (simulated_ms * 1e6) as u64);
    }

    assert!(
        last_size > 200 && last_size < 900,
        "expected convergence near ~500, got {last_size}"
    );
}
