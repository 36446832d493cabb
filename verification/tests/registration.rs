use bench_rs::registration::DEFAULT_COUNT;
use bench_rs::BenchArgs;

#[test]
fn a_bare_annotation_uses_the_functions_name_and_a_thousand_batches() {
    let args = BenchArgs { name: None, count: None, no_test: false };
    let registration = args.resolve("test_base64");
    assert_eq!(registration.name, "test_base64");
    assert_eq!(registration.count, 1000);
    assert_eq!(DEFAULT_COUNT, 1000);
    assert!(registration.test);
}

#[test]
fn the_annotation_overrides_name_and_count() {
    let args = BenchArgs { name: Some(String::from("test_rcnb_encoding")), count: Some(100), no_test: false };
    let registration = args.resolve("test_rcnb");
    assert_eq!(registration.name, "test_rcnb_encoding");
    assert_eq!(registration.count, 100);
    assert!(registration.test);
}

#[test]
fn no_test_keeps_the_benchmark_out_of_the_tests() {
    let args = BenchArgs { name: None, count: Some(0), no_test: true };
    let registration = args.resolve("test_no_run");
    assert_eq!(registration.name, "test_no_run");
    assert_eq!(registration.count, 0);
    assert!(!registration.test);
}
