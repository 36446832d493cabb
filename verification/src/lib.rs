//! A micro-benchmarking engine: calibrated measurement batches, allocation
//! tracking, resumption counting for asynchronous work, and summary statistics.

pub mod async_run;
pub mod bencher;
pub mod clock;
pub mod mean;
pub mod registration;
pub mod report;
pub mod stats;
pub mod thousands;
pub mod timing_future;
pub mod track_allocator;

pub use async_run::{AsyncRun, Next};
pub use bencher::Bencher;
pub use registration::{BenchArgs, Registration};
pub use report::Report;
pub use stats::{BenchError, Stats, Step};
pub use thousands::{fmt_thousands_sep, fmt_thousands_sep_wide};
pub use timing_future::{TimingFuture, TimingResult};
pub use track_allocator::{AllocEvent, Counters, TrackAllocator, Tracker};
