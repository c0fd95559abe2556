use circuit_telemetry::uart::{
    DEFAULT_REOPEN_ATTEMPTS, DEFAULT_REOPEN_DELAY, MAX_REOPEN_DELAY, READ_TIMEOUT, UART_UNAVAILABLE,
};
use circuit_telemetry::{Cadence, ConfigError, Interval, Reopen, ReopenStep, Step};

#[test]
fn an_interval_is_at_least_a_second() {
    assert_eq!(Interval::new(0).unwrap_err(), ConfigError::InvalidInterval);
    for seconds in 1..=255u8 {
        assert_eq!(Interval::new(seconds).unwrap().seconds(), seconds);
    }
}

#[test]
fn a_consumer_is_due_at_once() {
    let mut cadence = Cadence::new(Interval::new(5).unwrap());
    assert_eq!(cadence.poll(0), Step::Run);
    assert_eq!(cadence.poll(0), Step::Wait(5000));
}

#[test]
fn a_consumer_runs_once_in_each_period() {
    let mut cadence = Cadence::new(Interval::new(5).unwrap());
    assert_eq!(cadence.poll(3), Step::Run);
    assert_eq!(cadence.poll(3), Step::Wait(4997));
    assert_eq!(cadence.poll(4999), Step::Wait(1));
    assert_eq!(cadence.poll(5000), Step::Run);
    assert_eq!(cadence.poll(5001), Step::Wait(4999));
    assert_eq!(cadence.poll(10000), Step::Run);
    assert_eq!(cadence.poll(10000), Step::Wait(5000));
}

#[test]
fn a_consumer_that_is_late_does_not_catch_up() {
    let mut cadence = Cadence::new(Interval::new(2).unwrap());
    assert_eq!(cadence.poll(0), Step::Run);
    assert_eq!(cadence.poll(9500), Step::Run);
    assert_eq!(cadence.poll(9600), Step::Wait(400));
    assert_eq!(cadence.poll(10000), Step::Run);
}

#[test]
fn a_clock_that_goes_back_makes_the_consumer_wait() {
    let mut cadence = Cadence::new(Interval::new(1).unwrap());
    assert_eq!(cadence.poll(5000), Step::Run);
    assert_eq!(cadence.poll(100), Step::Wait(900));
    assert_eq!(cadence.poll(5999), Step::Wait(1));
    assert_eq!(cadence.poll(6000), Step::Run);
}

#[test]
fn the_end_of_time_is_no_trouble() {
    let mut cadence = Cadence::new(Interval::new(255).unwrap());
    assert_eq!(cadence.poll(u64::MAX), Step::Run);
    let wait = 255_000 - (u64::MAX % 255_000) as u32;
    assert_eq!(cadence.poll(u64::MAX), Step::Wait(wait));
}

#[test]
fn runs_over_a_duration() {
    for (seconds, duration) in [(5u8, 60_000u64), (5, 61_234), (2, 9_999), (1, 1_000), (7, 0)] {
        let period = seconds as u64 * 1000;
        let mut cadence = Cadence::new(Interval::new(seconds).unwrap());
        let mut now = 0;
        let mut runs = 0;
        loop {
            match cadence.poll(now) {
                Step::Run => runs += 1,
                Step::Wait(wait) => {
                    if now + wait as u64 > duration {
                        break;
                    }
                    now += wait as u64;
                },
            }
        }
        assert_eq!(runs, duration / period + 1);
    }
}

#[test]
fn a_port_is_tried_again_a_few_times() {
    let mut reopen = Reopen::new(3, 1);
    assert_eq!(reopen.on_failure(), ReopenStep::RetryAfter(1));
    assert_eq!(reopen.on_failure(), ReopenStep::RetryAfter(2));
    assert_eq!(reopen.on_failure(), ReopenStep::RetryAfter(4));
    assert_eq!(reopen.on_failure(), ReopenStep::GiveUp);
    assert_eq!(reopen.on_failure(), ReopenStep::GiveUp);
}

#[test]
fn the_time_between_tries_has_a_limit() {
    let mut reopen = Reopen::new(8, 10);
    let mut delays = Vec::new();
    while let ReopenStep::RetryAfter(delay) = reopen.on_failure() {
        delays.push(delay);
    }
    assert_eq!(delays, vec![10, 20, 40, 60, 60, 60, 60, 60]);
    let mut reopen = Reopen::new(2, 200);
    assert_eq!(reopen.on_failure(), ReopenStep::RetryAfter(60));
    assert_eq!(reopen.on_failure(), ReopenStep::RetryAfter(60));
    assert_eq!(reopen.on_failure(), ReopenStep::GiveUp);
    let mut reopen = Reopen::new(2, 0);
    assert_eq!(reopen.on_failure(), ReopenStep::RetryAfter(1));
    assert_eq!(reopen.on_failure(), ReopenStep::RetryAfter(2));
}

#[test]
fn a_port_without_tries_is_given_up_at_once() {
    assert_eq!(Reopen::new(0, 1).on_failure(), ReopenStep::GiveUp);
}

#[test]
fn port_defaults() {
    assert_eq!(DEFAULT_REOPEN_ATTEMPTS, 5);
    assert_eq!(DEFAULT_REOPEN_DELAY, 1);
    assert_eq!(MAX_REOPEN_DELAY, 60);
    assert_eq!(READ_TIMEOUT, 1);
    assert_eq!(UART_UNAVAILABLE, "UART unavailable");
}
