use mqtt_client::keep_alive::KeepAlive;
use mqtt_client::Error;

#[test]
fn keep_alive_pings_after_half_the_interval() {
    let mut timer = KeepAlive::new(100, 10);
    assert_eq!(timer.should_ping(104).unwrap(), false);
    assert!(!timer.is_ping_outstanding());
    assert_eq!(timer.should_ping(105).unwrap(), true);
    assert!(timer.is_ping_outstanding());
    assert_eq!(timer.should_ping(106).unwrap(), false);
}

#[test]
fn keep_alive_times_out_after_the_interval() {
    let mut timer = KeepAlive::new(0, 10);
    assert_eq!(timer.timed_out(50).unwrap(), false);
    assert_eq!(timer.should_ping(5).unwrap(), true);
    assert_eq!(timer.timed_out(9).unwrap(), false);
    assert_eq!(timer.timed_out(10).unwrap(), true);
}

#[test]
fn keep_alive_receipt_clears_ping_and_timeout() {
    let mut timer = KeepAlive::new(0, 10);
    assert_eq!(timer.should_ping(5).unwrap(), true);
    timer.on_receive(10);
    assert!(!timer.is_ping_outstanding());
    assert_eq!(timer.last_activity_at(), 10);
    assert_eq!(timer.timed_out(10).unwrap(), false);
    assert_eq!(timer.timed_out(30).unwrap(), false);
    assert_eq!(timer.should_ping(10).unwrap(), false);
    assert_eq!(timer.should_ping(15).unwrap(), true);
}

#[test]
fn keep_alive_send_moves_activity_only() {
    let mut timer = KeepAlive::new(0, 10);
    assert_eq!(timer.should_ping(5).unwrap(), true);
    timer.on_send(6);
    assert!(timer.is_ping_outstanding());
    assert_eq!(timer.last_activity_at(), 6);
    assert_eq!(timer.timed_out(15).unwrap(), false);
    assert_eq!(timer.timed_out(16).unwrap(), true);
    timer.update(20);
    assert!(timer.is_ping_outstanding());
    assert_eq!(timer.elapsed(25).unwrap(), 5);
}

#[test]
fn keep_alive_zero_interval_is_off() {
    let mut timer = KeepAlive::new(0, 0);
    assert_eq!(timer.should_ping(1_000_000).unwrap(), false);
    assert_eq!(timer.timed_out(1_000_000).unwrap(), false);
    assert!(!timer.is_ping_outstanding());
}

#[test]
fn keep_alive_odd_interval_halves_down() {
    let mut timer = KeepAlive::new(0, 7);
    assert_eq!(timer.should_ping(2).unwrap(), false);
    assert_eq!(timer.should_ping(3).unwrap(), true);
}

#[test]
fn keep_alive_clock_going_back_is_an_error() {
    let mut timer = KeepAlive::new(100, 10);
    assert!(matches!(timer.elapsed(99), Err(Error::TimeError)));
    assert!(matches!(timer.should_ping(99), Err(Error::TimeError)));
    assert!(!timer.is_ping_outstanding());
    assert_eq!(timer.should_ping(105).unwrap(), true);
    assert!(matches!(timer.timed_out(99), Err(Error::TimeError)));
}
