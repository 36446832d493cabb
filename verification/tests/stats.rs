use bench_rs::mean::Mean;
use bench_rs::{BenchError, Stats, Step};

#[test]
fn no_steps_is_an_error() {
    let steps: Vec<Step> = Vec::new();
    assert_eq!(Stats::from(&steps), Err(BenchError::NoSteps));
}

#[test]
fn one_step_is_its_own_summary() {
    let steps = vec![Step { time: 17, mem: 5 }];
    assert_eq!(
        Stats::from(&steps),
        Ok(Stats {
            times_average: 17,
            times_min: 17,
            times_max: 17,
            mem_average: 5,
            mem_min: 5,
            mem_max: 5,
        })
    );
}

#[test]
fn averages_round_down() {
    let steps = vec![
        Step { time: 10, mem: 4 },
        Step { time: 21, mem: 8 },
        Step { time: 3, mem: 1 },
    ];
    let stats = Stats::from(&steps).unwrap();
    assert_eq!(stats.times_average, 11);
    assert_eq!(stats.times_min, 3);
    assert_eq!(stats.times_max, 21);
    assert_eq!(stats.mem_average, 4);
    assert_eq!(stats.mem_min, 1);
    assert_eq!(stats.mem_max, 8);
}

#[test]
fn average_lies_between_minimum_and_maximum() {
    let mut seed: u64 = 0x2545_f491_4f6c_dd1d;
    for len in 1..40usize {
        let mut steps = Vec::new();
        for _ in 0..len {
            seed ^= seed << 13;
            seed ^= seed >> 7;
            seed ^= seed << 17;
            steps.push(Step { time: (seed % 1_000_003) as u128, mem: (seed % 4099) as usize });
        }
        let stats = Stats::from(&steps).unwrap();
        assert!(stats.times_min <= stats.times_average);
        assert!(stats.times_average <= stats.times_max);
        assert!(stats.mem_min <= stats.mem_average);
        assert!(stats.mem_average <= stats.mem_max);
        let total: u128 = steps.iter().map(|s| s.time).sum();
        assert_eq!(stats.times_average, total / len as u128);
        let total_mem: u128 = steps.iter().map(|s| s.mem as u128).sum();
        assert_eq!(stats.mem_average as u128, total_mem / len as u128);
    }
}

#[test]
fn sums_beyond_the_integer_range_do_not_overflow() {
    let steps = vec![
        Step { time: u128::MAX, mem: usize::MAX },
        Step { time: u128::MAX, mem: usize::MAX },
        Step { time: u128::MAX - 3, mem: usize::MAX - 3 },
    ];
    let stats = Stats::from(&steps).unwrap();
    assert_eq!(stats.times_average, u128::MAX - 1);
    assert_eq!(stats.times_min, u128::MAX - 3);
    assert_eq!(stats.times_max, u128::MAX);
    assert_eq!(stats.mem_average, usize::MAX - 1);
    assert_eq!(stats.mem_min, usize::MAX - 3);
    assert_eq!(stats.mem_max, usize::MAX);
}

#[test]
fn half_of_the_largest_time() {
    let steps = vec![Step { time: u128::MAX, mem: 0 }, Step { time: 0, mem: 1 }];
    let stats = Stats::from(&steps).unwrap();
    assert_eq!(stats.times_average, u128::MAX / 2);
    assert_eq!(stats.mem_average, 0);
}

#[test]
fn running_mean_is_the_floor_of_sum_by_divisor() {
    let mut mean = Mean::new(4, 100);
    assert_eq!(mean.mean(), 0);
    mean.add(7);
    assert_eq!(mean.mean(), 1);
    mean.add(9);
    assert_eq!(mean.mean(), 4);
    mean.add(100);
    assert_eq!(mean.mean(), 29);
    mean.add(3);
    assert_eq!(mean.mean(), 29);
}

#[test]
fn running_mean_carries_remainders() {
    let mut mean = Mean::new(3, u128::MAX);
    mean.add(2);
    mean.add(2);
    mean.add(2);
    assert_eq!(mean.mean(), 2);
    let mut large = Mean::new(2, u128::MAX);
    large.add(u128::MAX);
    large.add(u128::MAX);
    assert_eq!(large.mean(), u128::MAX);
}
