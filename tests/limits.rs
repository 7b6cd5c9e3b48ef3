use hath::limiter::{Bucket, RateLimiter, NANOS_PER_SEC};
use hath::speedtest::SpeedTest;

#[test]
fn bucket_refill_is_capped_at_a_tenth_of_a_second() {
    let mut b = Bucket::new(0, 1000);
    b.refill(10 * NANOS_PER_SEC);
    assert_eq!(b.volume, 100);
    assert_eq!(b.updated_at, 10 * NANOS_PER_SEC);
}

#[test]
fn bucket_consume_within_volume_has_no_delay() {
    let mut b = Bucket::new(0, 1000);
    b.refill(NANOS_PER_SEC);
    assert_eq!(b.consume(60), 0);
    assert_eq!(b.volume, 40);
}

#[test]
fn bucket_consume_into_debt_waits_for_repayment() {
    let mut b = Bucket::new(0, 1000);
    // 500 bytes of debt at 1000 B/s: 0.1 s + 0.5 s
    assert_eq!(b.consume(500), 600_000_000);
    assert_eq!(b.volume, -500);
    b.refill(NANOS_PER_SEC / 2);
    assert_eq!(b.volume, 0);
}

#[test]
fn limiter_unlimited_never_waits() {
    let mut l = RateLimiter::new(0, None);
    assert_eq!(l.consume(5, 1 << 30), 0);
    l.set_speed_limit(Some(1000));
    assert!(!l.unlimited);
    assert_eq!(l.consume(NANOS_PER_SEC, 100), 0);
    assert_eq!(l.consume(NANOS_PER_SEC, 100), 200_000_000);
}

#[test]
fn limiter_steady_state_tracks_the_rate() {
    // A sender that always waits the returned delay moves about rate * window bytes.
    let rate: u64 = 10_000;
    let mut l = RateLimiter::new(0, Some(rate));
    let mut now: u64 = 0;
    let mut moved: u64 = 0;
    let window = 4 * NANOS_PER_SEC;
    while now < window {
        let d = l.consume(now, 500);
        moved += 500;
        now += d as u64 + 1;
    }
    let expected = rate * 4;
    assert!(moved <= expected + rate / 10 + 500, "moved {moved}");
    assert!(moved + rate / 10 + 500 >= expected, "moved {moved}");
}

#[test]
fn speed_test_of_a_million_bytes() {
    let mut t = SpeedTest::new(1_000_000);
    assert_eq!(t.size_hint(), 1_000_000);
    let mut total = 0usize;
    let mut frames = 0;
    loop {
        let n = t.next_frame();
        if n == 0 {
            break;
        }
        assert!(n <= 65535);
        total += n;
        frames += 1;
    }
    assert!(t.is_end_stream());
    assert_eq!(total, 1_000_000);
    assert_eq!(frames, 16);
}

#[test]
fn speed_test_empty_body() {
    let mut t = SpeedTest::new(0);
    assert!(t.is_end_stream());
    assert_eq!(t.next_frame(), 0);
}
