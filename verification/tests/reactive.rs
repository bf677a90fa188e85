use led_platform::reactive::FlashState;

#[test]
fn a_new_beat_starts_a_flash() {
    let mut s = FlashState::new();
    assert_eq!(s.elapsed_ms(100, 200), None, "nothing before the first beat");
    assert!(s.observe(true, 50, 100));
    assert_eq!(s, FlashState { last_beat_ts: 50, flash_start_ms: 100, ever: true });
    assert_eq!(s.elapsed_ms(100, 200), Some(0));
    assert_eq!(s.elapsed_ms(250, 200), Some(150));
}

#[test]
fn a_repeated_beat_never_restarts_the_flash() {
    let mut s = FlashState::new();
    assert!(s.observe(true, 1000, 0));
    // Same beat (same timestamp) seen again later: no retrigger, the flash keeps decaying.
    assert!(!s.observe(true, 1000, 50));
    assert_eq!(s.flash_start_ms, 0);
    assert_eq!(s.elapsed_ms(50, 100), Some(50));
    // A new beat restarts it.
    assert!(s.observe(true, 1100, 60));
    assert_eq!(s.elapsed_ms(60, 100), Some(0));
}

#[test]
fn no_beat_changes_nothing_and_zero_decay_shows_nothing() {
    let mut s = FlashState::new();
    assert!(!s.observe(false, 7, 10));
    assert_eq!(s, FlashState::new());
    assert!(s.observe(true, 7, 10));
    assert_eq!(s.elapsed_ms(20, 0), None, "a zero decay never lights");
    assert_eq!(s.elapsed_ms(5, 100), Some(0), "a clock behind the flash start reads zero");
}
