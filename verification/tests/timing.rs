use std::time::{Duration, Instant};

use bench_rs::TimingFuture;

fn spin(duration: Duration) {
    let start = Instant::now();
    while start.elapsed() < duration {}
}

#[test]
fn a_new_timer_has_not_started() {
    let timer = TimingFuture::new();
    assert!(!timer.is_started());
    assert_eq!(timer.resumptions(), 0);
}

#[test]
fn three_suspensions_make_four_resumptions() {
    let mut timer = TimingFuture::new();
    let mut suspensions_left = 3;
    let mut rounds = 0;
    let result = loop {
        rounds += 1;
        let polled = timer.poll(|| {
            if suspensions_left > 0 {
                suspensions_left -= 1;
                None
            } else {
                Some("done")
            }
        });
        if let Some(result) = polled {
            break result;
        }
        assert!(timer.is_started());
        assert_eq!(timer.resumptions(), rounds);
    };
    assert_eq!(rounds, 4);
    assert_eq!(result.poll, 4);
    assert_eq!(result.output, "done");
    assert_eq!(timer.resumptions(), 4);
}

#[test]
fn a_computation_that_is_ready_at_once_is_resumed_once() {
    let mut timer = TimingFuture::new();
    let result = timer.poll(|| Some(7u32)).unwrap();
    assert_eq!(result.poll, 1);
    assert_eq!(result.output, 7);
}

#[test]
fn a_pending_computation_yields_nothing() {
    let mut timer = TimingFuture::new();
    assert!(timer.poll(|| None::<u8>).is_none());
    assert!(timer.poll(|| None::<u8>).is_none());
    assert_eq!(timer.resumptions(), 2);
}

#[test]
fn time_counts_from_the_first_resumption() {
    let mut timer = TimingFuture::new();
    spin(Duration::from_millis(60));
    let quick = timer.poll(|| Some(())).unwrap();
    assert!(quick.elapsed_time < Duration::from_millis(60));

    let mut slow = TimingFuture::new();
    assert!(slow.poll(|| None::<()>).is_none());
    spin(Duration::from_millis(30));
    let late = slow.poll(|| Some(())).unwrap();
    assert!(late.elapsed_time >= Duration::from_millis(30));
    assert_eq!(late.poll, 2);
}
