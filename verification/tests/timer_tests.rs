use kayrx::connect::ConnectError;
use kayrx::delay::delay_until;
use kayrx::driver::{Registration, TimerDriver, TimerError};
use kayrx::interval::{interval, interval_at};
use kayrx::poll::Poll;
use kayrx::time::{ms, Duration, Instant, Round};
use kayrx::timeout::{flatten_error, resolve_race, TimeoutError, TimeoutService};

#[test]
fn ms_rounds_up_and_down() {
    let d = Duration::new(1, 1);
    assert_eq!(ms(d, Round::Up), 1_001);
    assert_eq!(ms(d, Round::Down), 1_000);
    let e = Duration::new(0, 999_999_999);
    assert_eq!(ms(e, Round::Up), 1_000);
    assert_eq!(ms(e, Round::Down), 999);
    assert_eq!(ms(Duration::from_millis(3_000), Round::Up), 3_000);
}

#[test]
fn ms_saturates() {
    let d = Duration::new(u64::MAX, 999_999_999);
    assert_eq!(ms(d, Round::Up), u64::MAX);
    assert_eq!(ms(d, Round::Down), u64::MAX);
}

#[test]
fn entry_fires_exactly_at_deadline() {
    let mut driver = TimerDriver::new();
    let reg = Registration::new(&mut driver, Instant::from_millis(1_000));
    assert_eq!(reg.deadline().millis, 1_000);
    driver.advance(999);
    assert!(!reg.is_elapsed(&driver));
    assert!(matches!(reg.poll_elapsed(&driver), Poll::Pending));
    driver.advance(1_000);
    assert!(reg.is_elapsed(&driver));
    assert!(matches!(reg.poll_elapsed(&driver), Poll::Ready(Ok(()))));
}

#[test]
fn cancel_is_idempotent() {
    let mut driver = TimerDriver::new();
    let reg = Registration::new(&mut driver, Instant::from_millis(1_000));
    reg.cancel(&mut driver);
    // Cancelling again — e.g. a drop after an explicit cancel — is a
    // no-op: no panic, no change of state.
    reg.cancel(&mut driver);
    driver.advance(2_000);
    assert!(!reg.is_elapsed(&driver));
    assert!(matches!(reg.poll_elapsed(&driver), Poll::Pending));
}

#[test]
fn cancel_after_fire_is_noop() {
    let mut driver = TimerDriver::new();
    let reg = Registration::new(&mut driver, Instant::from_millis(10));
    driver.advance(10);
    reg.cancel(&mut driver);
    reg.cancel(&mut driver);
    assert!(reg.is_elapsed(&driver));
}

#[test]
fn shutdown_surfaces_error() {
    let mut driver = TimerDriver::new();
    let reg = Registration::new(&mut driver, Instant::from_millis(10));
    driver.shutdown();
    assert!(matches!(
        reg.poll_elapsed(&driver),
        Poll::Ready(Err(TimerError::Shutdown))
    ));
}

#[test]
fn delay_reset_moves_deadline() {
    let mut driver = TimerDriver::new();
    let mut delay = delay_until(&mut driver, Instant::from_millis(100));
    driver.advance(100);
    assert!(delay.is_elapsed(&driver));
    delay.reset(&mut driver, Instant::from_millis(250));
    assert!(!delay.is_elapsed(&driver));
    assert_eq!(delay.deadline().millis, 250);
    driver.advance(250);
    assert!(delay.is_elapsed(&driver));
}

#[test]
fn interval_ticks_without_drift() {
    let mut driver = TimerDriver::new();
    let mut iv = interval_at(&mut driver, Instant::from_millis(100), Duration::from_millis(50));
    assert!(matches!(iv.poll_tick(&mut driver), Poll::Pending));
    driver.advance(100);
    match iv.poll_tick(&mut driver) {
        Poll::Ready(t) => assert_eq!(t.millis, 100),
        Poll::Pending => panic!("first tick was due"),
    }
    // The driver overshoots; the next tick still lands one period after
    // the one that fired, not one period after "now".
    driver.advance(163);
    match iv.poll_tick(&mut driver) {
        Poll::Ready(t) => assert_eq!(t.millis, 150),
        Poll::Pending => panic!("second tick was due"),
    }
    driver.advance(200);
    match iv.poll_tick(&mut driver) {
        Poll::Ready(t) => assert_eq!(t.millis, 200),
        Poll::Pending => panic!("third tick was due"),
    }
}

#[test]
fn interval_cancel_is_idempotent() {
    let mut driver = TimerDriver::new();
    let mut iv = interval_at(&mut driver, Instant::from_millis(100), Duration::from_millis(50));
    iv.cancel(&mut driver);
    iv.cancel(&mut driver);
    driver.advance(500);
    assert!(matches!(iv.poll_tick(&mut driver), Poll::Pending));
}

#[test]
fn interval_first_tick_immediate() {
    let mut driver = TimerDriver::new();
    driver.advance(40);
    let mut iv = interval(&mut driver, Duration::from_millis(10));
    driver.advance(40);
    match iv.poll_tick(&mut driver) {
        Poll::Ready(t) => assert_eq!(t.millis, 40),
        Poll::Pending => panic!("the first tick completes immediately"),
    }
}

#[test]
fn timeout_race_inner_first() {
    let r: Poll<Result<u32, TimeoutError<ConnectError>>> =
        resolve_race(Poll::Ready(Ok(5)), true);
    assert!(matches!(r, Poll::Ready(Ok(5))));
    let r: Poll<Result<u32, TimeoutError<ConnectError>>> =
        resolve_race(Poll::Ready(Err(ConnectError::Disconnected)), false);
    assert!(matches!(
        r,
        Poll::Ready(Err(TimeoutError::Service(ConnectError::Disconnected)))
    ));
}

#[test]
fn timeout_race_deadline_first() {
    let mut driver = TimerDriver::new();
    let service = TimeoutService::new(Duration::from_secs(1));
    let delay = service.start(&mut driver, Instant::from_millis(0));
    assert_eq!(delay.deadline().millis, 1_000);

    driver.advance(999);
    let r: Poll<Result<u32, TimeoutError<ConnectError>>> =
        resolve_race(Poll::Pending, delay.is_elapsed(&driver));
    assert!(matches!(r, Poll::Pending));

    // A transport that never resolves is forced to fail exactly at the
    // configured deadline.
    driver.advance(1_000);
    let r: Poll<Result<u32, TimeoutError<ConnectError>>> =
        resolve_race(Poll::Pending, delay.is_elapsed(&driver));
    match r {
        Poll::Ready(Err(e)) => assert!(flatten_error(e).is_timeout()),
        _ => panic!("expected the deadline to decide the race"),
    }
}

#[test]
fn flatten_keeps_service_error() {
    let e = flatten_error(TimeoutError::Service(ConnectError::Disconnected));
    assert!(matches!(e, ConnectError::Disconnected));
    assert!(!e.is_timeout());
}

#[test]
fn instant_plus_saturates() {
    let i = Instant::from_millis(u64::MAX - 10);
    let j = i.plus(Duration::from_millis(100));
    assert_eq!(j.millis, u64::MAX);
    let k = Instant::from_millis(100).plus(Duration::from_millis(50));
    assert_eq!(k.millis, 150);
}

#[test]
fn duration_parts() {
    let d = Duration::from_millis(1_234);
    assert_eq!(d.secs(), 1);
    assert_eq!(d.subsec_nanos(), 234_000_000);
    assert!(!d.is_zero());
    assert!(Duration::from_secs(0).is_zero());
}

#[test]
fn poll_observers() {
    let r: Poll<u8> = Poll::Ready(3);
    assert!(r.is_ready());
    assert!(!r.is_pending());
    let p: Poll<u8> = Poll::Pending;
    assert!(p.is_pending());
    assert!(!p.is_ready());
}
