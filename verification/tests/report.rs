use bench_rs::{Bencher, Report, Stats, Step, TrackAllocator};

fn summary() -> Stats {
    Stats {
        times_average: 1_234_567,
        times_min: 1_000_000,
        times_max: 1_500_042,
        mem_average: 4096,
        mem_min: 4000,
        mem_max: 4999,
    }
}

#[test]
fn a_report_groups_its_figures_by_thousands() {
    let mut bencher = Bencher::new("encode", 1000, 64, TrackAllocator::new());
    bencher.n = 21;
    let report = Report::new(&summary(), &bencher);
    assert_eq!(report.name, "encode");
    assert_eq!(report.time, "1,234,567");
    assert_eq!(report.time_spread, "500,042");
    assert_eq!(report.mem, "4,096");
    assert_eq!(report.mem_spread, "999");
    assert_eq!(report.polls, "");
    assert_eq!(report.count, 1000);
    assert_eq!(report.n, 21);
}

#[test]
fn a_report_mentions_resumptions_only_where_there_were_any() {
    let mut bencher = Bencher::new("wait", 100, 0, TrackAllocator::new());
    bencher.poll = 3;
    assert_eq!(Report::new(&summary(), &bencher).polls, "@avg 3 polls ");
    bencher.poll = 1200;
    assert_eq!(Report::new(&summary(), &bencher).polls, "@avg 1200 polls ");
    bencher.poll = 0;
    assert_eq!(Report::new(&summary(), &bencher).polls, "");
}

#[test]
fn a_report_of_recorded_steps() {
    let mut bencher = Bencher::new("steps", 2, 0, TrackAllocator::new());
    bencher.calibrate(1_000_000);
    bencher.record(2_000_000, 3000);
    bencher.record(1_000, 1000);
    let stats = bencher.finish().unwrap();
    let report = Report::new(&stats, &bencher);
    assert_eq!(report.time, "1,000,500");
    assert_eq!(report.time_spread, "1,999,000");
    assert_eq!(report.mem, "2,000");
    assert_eq!(report.mem_spread, "2,000");
    assert_eq!(report.n, 1);
    assert_eq!(bencher.steps, vec![Step { time: 2_000_000, mem: 3000 }, Step { time: 1_000, mem: 1000 }]);
}

#[test]
fn a_report_renders_times_beyond_the_machine_word() {
    let bencher = Bencher::new("wide", 1, 0, TrackAllocator::new());
    let stats = Stats {
        times_average: u128::MAX,
        times_min: 0,
        times_max: u128::MAX,
        mem_average: 0,
        mem_min: 0,
        mem_max: 0,
    };
    let report = Report::new(&stats, &bencher);
    assert_eq!(report.time, "340282366920938463463374607431,768,211,455");
    assert_eq!(report.time_spread, "340282366920938463463374607431,768,211,455");
    assert_eq!(report.mem, "0");
}
