use rust_columns::timer::Timer;
use std::time::Duration;

#[test]
fn test_timer() {
    let mut timer = Timer::from_millis(1000);
    assert!(!timer.ready);
    timer.update(Duration::from_millis(500));
    assert!(!timer.ready);
    timer.update(Duration::from_millis(501));
    assert!(timer.ready);
    timer.reset();
    assert!(!timer.ready);
    timer.finish();
    assert!(timer.ready);
}

#[test]
fn timer_is_ready_exactly_when_the_interval_has_passed() {
    let mut timer = Timer::from_millis(1000);
    timer.update(Duration::from_millis(999));
    assert!(!timer.is_ready());
    timer.update(Duration::from_nanos(999_999));
    assert!(!timer.is_ready());
    timer.update(Duration::from_nanos(1));
    assert!(timer.is_ready());
}

#[test]
fn timer_stays_ready_when_more_time_passes() {
    let mut timer = Timer::from_millis(10);
    timer.update(Duration::from_secs(5));
    assert!(timer.is_ready());
    timer.update(Duration::from_millis(0));
    assert!(timer.is_ready());
}

#[test]
fn timer_of_no_length_is_not_ready_before_it_is_advanced() {
    let mut timer = Timer::from_millis(0);
    assert!(!timer.is_ready());
    timer.update(Duration::from_millis(0));
    assert!(timer.is_ready());
}

#[test]
fn reset_starts_the_full_interval_again() {
    let mut timer = Timer::from_millis(100);
    timer.update(Duration::from_millis(60));
    timer.reset();
    timer.update(Duration::from_millis(60));
    assert!(!timer.is_ready());
    timer.update(Duration::from_millis(40));
    assert!(timer.is_ready());
}

#[test]
fn an_advance_after_finish_keeps_the_timer_ready() {
    let mut timer = Timer::from_millis(100);
    timer.finish();
    assert!(timer.is_ready());
    timer.update(Duration::from_millis(1));
    assert!(timer.is_ready());
}
