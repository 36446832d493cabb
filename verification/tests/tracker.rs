use bench_rs::{AllocEvent, TrackAllocator, Tracker};

#[test]
fn a_new_tracker_has_seen_nothing() {
    let tracker = TrackAllocator::new();
    assert_eq!(tracker.get(), 0);
    assert_eq!(tracker.counter(), 0);
    assert_eq!(tracker.peak(), 0);
}

#[test]
fn reset_reports_zero_at_once() {
    let mut tracker = TrackAllocator::new();
    tracker.on_alloc(4096, true);
    assert_eq!(tracker.get(), 4096);
    tracker.reset();
    assert_eq!(tracker.get(), 0);
    assert_eq!(tracker.peak(), 4096);
}

#[test]
fn outstanding_is_allocated_minus_freed() {
    let mut tracker = TrackAllocator::new();
    tracker.on_alloc(100, true);
    tracker.reset();
    tracker.on_alloc(64, true);
    tracker.on_alloc(32, true);
    tracker.on_dealloc(64);
    tracker.on_alloc_zeroed(8, true);
    tracker.on_dealloc(8);
    assert_eq!(tracker.get(), 32);
    assert_eq!(tracker.counter(), 32);
    assert_eq!(tracker.peak(), 100);
}

#[test]
fn releases_stop_at_zero() {
    let mut tracker = TrackAllocator::new();
    tracker.on_dealloc(10);
    assert_eq!(tracker.get(), 0);
    tracker.on_alloc(5, true);
    tracker.on_dealloc(10);
    assert_eq!(tracker.get(), 0);
    tracker.on_alloc(3, true);
    assert_eq!(tracker.get(), 3);
    tracker.on_dealloc(3);
    assert_eq!(tracker.get(), 0);
}

#[test]
fn failed_requests_are_not_counted() {
    let mut tracker = TrackAllocator::new();
    tracker.on_alloc(64, false);
    tracker.on_alloc_zeroed(64, false);
    assert_eq!(tracker.get(), 0);
    assert_eq!(tracker.peak(), 0);
    tracker.on_alloc(16, true);
    tracker.on_realloc(16, 1024, false);
    assert_eq!(tracker.get(), 16);
    assert_eq!(tracker.peak(), 16);
}

#[test]
fn resizing_counts_the_difference() {
    let mut tracker = TrackAllocator::new();
    tracker.on_alloc(16, true);
    tracker.on_realloc(16, 48, true);
    assert_eq!(tracker.get(), 48);
    tracker.on_realloc(48, 48, true);
    assert_eq!(tracker.get(), 48);
    tracker.on_realloc(48, 8, true);
    assert_eq!(tracker.get(), 8);
    tracker.on_realloc(100, 0, true);
    assert_eq!(tracker.get(), 0);
    assert_eq!(tracker.peak(), 48);
}

#[test]
fn peak_never_falls_below_outstanding_and_never_decreases() {
    let events = [
        AllocEvent::Alloc(10),
        AllocEvent::Alloc(20),
        AllocEvent::Free(25),
        AllocEvent::Resize { from: 5, to: 50 },
        AllocEvent::Free(1000),
        AllocEvent::Alloc(7),
        AllocEvent::Resize { from: 7, to: 2 },
    ];
    let expected = [(10, 10), (30, 30), (5, 30), (50, 50), (0, 50), (7, 50), (2, 50)];
    let mut tracker = TrackAllocator::new();
    let mut last_peak = 0;
    for (event, (outstanding, peak)) in events.iter().zip(expected.iter()) {
        tracker.apply(*event);
        assert_eq!(tracker.get(), *outstanding);
        assert_eq!(tracker.peak(), *peak);
        assert!(tracker.peak() >= tracker.get());
        assert!(tracker.peak() >= last_peak);
        last_peak = tracker.peak();
    }
    tracker.reset();
    assert_eq!(tracker.peak(), 50);
    assert!(tracker.peak() >= tracker.get());
}

#[test]
fn the_peak_is_lowered_only_by_its_own_reset() {
    let mut tracker = TrackAllocator::new();
    tracker.add(80);
    tracker.sub(50);
    assert_eq!(tracker.peak(), 80);
    tracker.reset_peak();
    assert_eq!(tracker.peak(), 30);
    assert_eq!(tracker.get(), 30);
    tracker.add(1);
    assert_eq!(tracker.peak(), 31);
}

#[test]
fn the_outstanding_count_wraps_like_the_machine() {
    let mut tracker = TrackAllocator::new();
    tracker.add(usize::MAX);
    assert_eq!(tracker.get(), usize::MAX);
    tracker.add(2);
    assert_eq!(tracker.get(), 1);
    assert_eq!(tracker.peak(), usize::MAX);
}

#[test]
fn the_tracker_serves_as_the_engines_tracker() {
    let mut tracker = TrackAllocator::new();
    tracker.add(12);
    assert_eq!(Tracker::get(&tracker), 12);
    Tracker::reset(&mut tracker);
    assert_eq!(Tracker::get(&tracker), 0);
    assert_eq!(tracker.peak(), 12);
}
