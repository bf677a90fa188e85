use led_platform::shared_clock::{calibrate_offset, SharedClock};

#[test]
fn calibrate_offset_positive_when_behind() {
    assert_eq!(calibrate_offset(1000, 998), 2);
}

#[test]
fn calibrate_offset_negative_when_ahead() {
    assert_eq!(calibrate_offset(998, 1000), -2);
}

#[test]
fn calibrate_offset_zero_when_synchronized() {
    assert_eq!(calibrate_offset(1000, 1000), 0);
}

#[test]
fn zero_offset_returns_wall_time() {
    let mut clock = SharedClock::new();
    assert_eq!(clock.offset_ms(), 0);
    let _ = clock.now_ms();
}

#[test]
fn negative_offset_is_bounded_to_zero() {
    let mut clock = SharedClock::with_offset(-1_000_000);
    let t = clock.now_ms();
    assert_eq!(t, 0, "large negative offset saturates to 0");
}

#[test]
fn monotonic_even_with_negative_offset_change() {
    let mut clock = SharedClock::with_offset(1000);
    let t0 = clock.now_ms();
    clock.set_offset_ms(-500);
    let t1 = clock.now_ms();
    assert!(t1 >= t0, "clock must not go backward on offset change: t0={t0} t1={t1}");
}

#[test]
fn monotonic_under_rapid_polling() {
    let mut clock = SharedClock::new();
    let mut prev = clock.now_ms();
    for _ in 0..10_000 {
        let curr = clock.now_ms();
        assert!(curr >= prev, "monotonicity violated: {prev} → {curr}");
        prev = curr;
    }
}

#[test]
fn reading_at_a_given_wall_time_adds_the_offset() {
    let mut clock = SharedClock::with_offset(100);
    assert_eq!(clock.now_ms_at(40), 140);
    clock.set_offset_ms(-30);
    assert_eq!(clock.now_ms_at(100), 140, "70 would go backwards: the previous 140 holds");
    assert_eq!(clock.now_ms_at(200), 170);
}

#[test]
fn positive_offset_saturates_at_the_top() {
    let mut clock = SharedClock::with_offset(i64::MAX);
    assert_eq!(clock.now_ms_at(u64::MAX - 3), u64::MAX);
}

#[test]
fn calibration_of_wrapped_timestamps_follows_signed_reading() {
    assert_eq!(calibrate_offset(u64::MAX, u64::MAX), 0);
    assert_eq!(calibrate_offset(0, u64::MAX), 1);
}

#[test]
fn calibrated_follower_reads_the_reference_time() {
    let reference = 1_000u64;
    let local = 998u64;
    let mut follower = SharedClock::new();
    follower.set_offset_ms(calibrate_offset(reference, local));
    assert_eq!(follower.now_ms_at(local), reference);
}

/// Waits, without sleeping the thread, until `ms` milliseconds have passed.
fn spin_for(ms: u64) {
    let t = std::time::Instant::now();
    while t.elapsed() < std::time::Duration::from_millis(ms) {}
}

#[test]
fn clock_backwards_correction_mid_show_stays_monotonic() {
    let mut clock = SharedClock::with_offset(0);
    spin_for(5);
    let before = clock.now_ms();

    // NTP yanks the clock 1 full second into the past, mid-show.
    clock.set_offset_ms(-1000);

    let mut last = before;
    for _ in 0..1000 {
        let now = clock.now_ms();
        assert!(now >= last, "clock went backward: {now} < {last} after -1000ms offset");
        last = now;
    }
    assert!(last >= before, "monotonicity held across the backward correction");
}

#[test]
fn backward_offset_drops_raw_value_but_not_now_ms() {
    let mut clock = SharedClock::with_offset(0);
    spin_for(5);
    let guarded_before = clock.now_ms();
    clock.set_offset_ms(-1_000_000);
    let guarded_after = clock.now_ms();
    assert!(guarded_after >= guarded_before, "guarded now_ms must not rewind even on a -1000s offset");
}

#[test]
fn now_ms_increases_over_time() {
    let mut clock = SharedClock::new();
    let t0 = clock.now_ms();
    spin_for(5);
    let t1 = clock.now_ms();
    assert!(t1 >= t0, "clock must not go backward");
    assert!(t1 > 0 || t0 == 0, "clock must advance");
}

#[test]
fn positive_offset_adds_to_reading() {
    let mut clock = SharedClock::with_offset(100);
    spin_for(2);
    let t = clock.now_ms();
    assert!(t >= 100, "positive offset must increase reading: got {t}");
}

#[test]
fn set_offset_updates_reading() {
    let mut clock = SharedClock::new();
    clock.set_offset_ms(500);
    assert_eq!(clock.offset_ms(), 500);
    spin_for(2);
    let t = clock.now_ms();
    assert!(t >= 500, "updated offset must be reflected: got {t}");
}

#[test]
fn the_most_negative_offset_saturates_to_zero_and_is_kept() {
    let mut c = SharedClock::with_offset(i64::MIN);
    assert_eq!(c.offset_ms(), i64::MIN);
    assert_eq!(c.now_ms(), 0, "an offset of i64::MIN saturates the reading to 0");
    assert_eq!(c.now_ms_at(u64::MAX), (1u64 << 63) - 1, "u64::MAX - 2^63");
    let mut d = SharedClock::new();
    d.set_offset_ms(i64::MIN);
    assert_eq!(d.offset_ms(), i64::MIN);
    assert_eq!(d.now_ms(), 0);
}
