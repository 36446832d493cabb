use rand::Rng;

use bench_rs::Bencher;
use bench_rs::TrackAllocator;

#[test]
fn test_bencher() {
    let data = rand::thread_rng().sample_iter(rand::distributions::Alphanumeric).take(1000).collect::<String>();

    let mut bencher = Bencher::new("test_bencher", 1000, data.len(), TrackAllocator::new());
    bencher.iter(|| {
        let _ = rcnb_rs::encode(&data);
    });
    let stats = bencher.finish();

    assert_eq!(bencher.name, "test_bencher");
    assert_eq!(bencher.bytes, 1000);
    assert_eq!(bencher.steps.len(), 1000);
    assert!(bencher.n >= 1 && bencher.n <= 1_000_000);
    let stats = stats.unwrap();
    assert!(stats.times_min <= stats.times_average && stats.times_average <= stats.times_max);
}
