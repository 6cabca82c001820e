//! A load-generation core: a request dispatcher that keeps at most `C` of `R`
//! work units in flight, outcome counters, and a latency histogram offering
//! percentile, maximum and bucket queries.

pub mod dispatch;
pub mod fib;
pub mod histogram;
pub mod outcome;
