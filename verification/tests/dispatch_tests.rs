use loadgen::dispatch::Dispatcher;
use loadgen::histogram::LatencyHistogram;
use loadgen::outcome::classify_response;
use loadgen::outcome::Outcome;

fn ok(latency_us: u64) -> Outcome {
    Outcome::Responded { latency_us, success: true }
}

fn http_error(latency_us: u64) -> Outcome {
    Outcome::Responded { latency_us, success: false }
}

#[test]
fn scenario_all_success() {
    // R = 10, C = 5, every request succeeds with status 200 in under 1 ms.
    let outcomes: Vec<Outcome> = (0..10).map(|i| ok(100 + i * 50)).collect();
    let d = Dispatcher::replay(10, 5, &outcomes);
    assert_eq!(d.successes, 10);
    assert_eq!(d.failures, 0);
    assert_eq!(d.samples.len(), 10);
    let h = LatencyHistogram::aggregate(&d.samples);
    assert!(h.percentile(50) < 1000);
    assert!(h.percentile(90) < 1000);
    assert!(h.percentile(99) < 1000);
    assert!(h.max_value() < 1000);
}

#[test]
fn scenario_all_unreachable() {
    // R = 20, C = 1, every request's target is unreachable.
    let outcomes: Vec<Outcome> = (0..20).map(|_| Outcome::TransportFailed).collect();
    let d = Dispatcher::replay(20, 1, &outcomes);
    assert_eq!(d.successes, 0);
    assert_eq!(d.failures, 20);
    assert_eq!(d.samples.len(), 0);
    // Queries on the empty histogram return the zero sentinel, not an error.
    let h = LatencyHistogram::aggregate(&d.samples);
    assert_eq!(h.percentile(50), 0);
    assert_eq!(h.percentile(90), 0);
    assert_eq!(h.percentile(99), 0);
    assert_eq!(h.max_value(), 0);
    assert!(h.log_buckets().is_empty());
    assert!(h.linear_buckets(1000).is_empty());
}

#[test]
fn scenario_mixed_statuses() {
    // R = 100, C = 20, 95 requests return status 200 and 5 return status 500.
    let mut outcomes: Vec<Outcome> = Vec::new();
    for i in 0..95 {
        outcomes.push(ok(200 + i));
    }
    for i in 0..5 {
        outcomes.push(http_error(900 + i));
    }
    let d = Dispatcher::replay(100, 20, &outcomes);
    assert_eq!(d.successes, 95);
    assert_eq!(d.failures, 5);
    // Every request responded, so every request contributed a sample.
    assert_eq!(d.samples.len(), 100);
}

#[test]
fn scenario_single_request_high_limit() {
    // R = 1, C = 100: exactly one request is issued, with no over-admission.
    let mut d = Dispatcher::new(1, 100);
    assert!(d.can_begin());
    let unit = d.begin_unit();
    assert_eq!(unit, 0);
    assert_eq!(d.in_flight(), 1);
    // The only work unit is in flight; nothing more may begin.
    assert!(!d.can_begin());
    d.settle(ok(42));
    assert!(d.is_done());
    assert_eq!(d.in_flight(), 0);
    assert_eq!(d.successes, 1);
    assert_eq!(d.failures, 0);
    assert!(!d.can_begin());
}

#[test]
fn in_flight_never_exceeds_limit() {
    let mut d = Dispatcher::new(10, 2);
    let mut max_in_flight = 0;
    while !d.is_done() {
        while d.can_begin() {
            d.begin_unit();
            max_in_flight = max_in_flight.max(d.in_flight());
        }
        assert!(d.in_flight() <= 2);
        d.settle(ok(7));
    }
    assert_eq!(max_in_flight, 2);
    assert_eq!(d.successes + d.failures, 10);
}

#[test]
fn counters_sum_to_total() {
    let outcomes = vec![
        ok(10),
        Outcome::TransportFailed,
        http_error(20),
        ok(30),
        Outcome::TransportFailed,
    ];
    let d = Dispatcher::replay(5, 3, &outcomes);
    assert_eq!(d.successes, 2);
    assert_eq!(d.failures, 3);
    assert_eq!(d.successes + d.failures, 5);
}

#[test]
fn sample_count_shortfall_is_transport_failures() {
    // 4 responded outcomes and 3 transport failures: 4 samples out of 7.
    let outcomes = vec![
        ok(10),
        Outcome::TransportFailed,
        http_error(20),
        Outcome::TransportFailed,
        ok(30),
        Outcome::TransportFailed,
        ok(40),
    ];
    let d = Dispatcher::replay(7, 2, &outcomes);
    assert_eq!(d.successes + d.failures, 7);
    assert_eq!(d.samples.len(), 7 - 3);
    assert_eq!(d.samples, vec![10, 20, 30, 40]);
}

#[test]
fn zero_requests_run() {
    let d = Dispatcher::replay(0, 4, &Vec::new());
    assert!(d.is_done());
    assert_eq!(d.successes + d.failures, 0);
    assert_eq!(d.samples.len(), 0);
}

#[test]
fn classify_success_and_error_statuses() {
    assert_eq!(classify_response(200, 5), ok(5));
    assert_eq!(classify_response(204, 6), ok(6));
    assert_eq!(classify_response(299, 7), ok(7));
    assert_eq!(classify_response(199, 8), http_error(8));
    assert_eq!(classify_response(300, 9), http_error(9));
    assert_eq!(classify_response(404, 10), http_error(10));
    assert_eq!(classify_response(500, 11), http_error(11));
}
