use led_platform::stream::{
    playback_report, simulate_drift_ms, PaceAction, Pacing, PacingPolicy, StreamPacer, StreamReport,
};

#[test]
fn absolute_pacing_does_not_accumulate_error() {
    let d = simulate_drift_ms(PacingPolicy::Absolute, 9600, 25, 1, 1);
    assert!(d.unsigned_abs() <= 25, "absoluto tem de ficar dentro de UM quadro (25 ms); ficou {d} ms");
}

#[test]
fn negative_control_current_incremental_pacing_fails_the_same_gate() {
    let frames = 9600;
    let incremental = simulate_drift_ms(PacingPolicy::Incremental, frames, 25, 1, 1);
    let absolute = simulate_drift_ms(PacingPolicy::Absolute, frames, 25, 1, 1);
    assert!(incremental.unsigned_abs() > 25, "deu {incremental} ms");
    assert!(incremental > absolute * 100, "incremental {incremental} ms vs absoluto {absolute} ms");
}

#[test]
fn incremental_error_grows_with_the_show_length() {
    let short = simulate_drift_ms(PacingPolicy::Incremental, 100, 25, 1, 1);
    let long = simulate_drift_ms(PacingPolicy::Incremental, 10_000, 25, 1, 1);
    assert!(long > short * 50, "curto {short} ms, longo {long} ms");
    let a_short = simulate_drift_ms(PacingPolicy::Absolute, 100, 25, 1, 1);
    let a_long = simulate_drift_ms(PacingPolicy::Absolute, 10_000, 25, 1, 1);
    assert_eq!(a_short, a_long);
}

#[test]
fn with_a_perfect_scheduler_both_policies_agree() {
    assert_eq!(
        simulate_drift_ms(PacingPolicy::Incremental, 5000, 25, 0, 0),
        simulate_drift_ms(PacingPolicy::Absolute, 5000, 25, 0, 0)
    );
}

#[test]
fn the_drift_formulas_on_concrete_values() {
    // Incremental: (n − 1) × (send + slop).
    assert_eq!(simulate_drift_ms(PacingPolicy::Incremental, 9600, 25, 1, 1), 9599 * 2);
    assert_eq!(simulate_drift_ms(PacingPolicy::Incremental, 1, 25, 7, 9), 0);
    assert_eq!(simulate_drift_ms(PacingPolicy::Incremental, 0, 25, 7, 9), 0);
    // Absolute: one slop from the second frame on, when send + slop < period.
    assert_eq!(simulate_drift_ms(PacingPolicy::Absolute, 9600, 25, 1, 1), 1);
    assert_eq!(simulate_drift_ms(PacingPolicy::Absolute, 2, 25, 3, 4), 4);
    assert_eq!(simulate_drift_ms(PacingPolicy::Absolute, 1, 25, 3, 4), 0);
    // A send as long as the period: still bounded by one slop.
    let d = simulate_drift_ms(PacingPolicy::Absolute, 1000, 10, 10, 3);
    assert!((0..=3).contains(&d), "{d}");
}

#[test]
fn max_pacing_sends_every_frame_without_sleeping() {
    let mut p = StreamPacer::new();
    for ts in [0u64, 25, 50] {
        assert_eq!(p.on_frame(Pacing::Max, ts, 1_000_000), PaceAction::Send);
        p.on_sent(true);
    }
    let r = p.report(7, 64);
    assert_eq!(
        r,
        StreamReport {
            frames_played: 3,
            frames_failed: 0,
            duration_ms: 7,
            pixel_count: 64,
            frames_late: 0,
            worst_late_ms: 0
        }
    );
}

#[test]
fn absolute_pacing_sleeps_until_the_target() {
    let mut p = StreamPacer::new();
    assert_eq!(p.on_frame(Pacing::Absolute { epoch_ms: 100 }, 25, 110), PaceAction::SleepThenSend(15));
    assert_eq!(p.on_frame(Pacing::Absolute { epoch_ms: 100 }, 50, 150), PaceAction::Send);
    assert_eq!(p.frames_late, 0);
}

#[test]
fn a_frame_late_by_less_than_one_period_is_still_shown() {
    let mut p = StreamPacer::new();
    let pacing = Pacing::Absolute { epoch_ms: 0 };
    assert_eq!(p.on_frame(pacing, 0, 10), PaceAction::Send);
    assert_eq!(p.on_frame(pacing, 1000, 1010), PaceAction::Send);
    assert_eq!(p.frames_late, 2);
    assert_eq!(p.worst_late_ms, 10);
}

#[test]
fn an_overtaken_frame_is_dropped_and_the_first_never_is() {
    let mut p = StreamPacer::new();
    let pacing = Pacing::Absolute { epoch_ms: 0 };
    assert_eq!(p.on_frame(pacing, 0, 60_000), PaceAction::Send, "no period known yet");
    assert_eq!(p.on_frame(pacing, 25, 60_000), PaceAction::Skip);
    assert_eq!(p.on_frame(pacing, 50, 60_001), PaceAction::Skip);
    assert_eq!(p.frames_late, 3);
    assert_eq!(p.worst_late_ms, 60_000);
    assert_eq!(p.period_ms, 25);
}

#[test]
fn a_failed_send_is_counted_and_the_show_goes_on() {
    let mut p = StreamPacer::new();
    p.on_sent(false);
    p.on_sent(true);
    p.on_sent(false);
    assert_eq!(p.played, 1);
    assert_eq!(p.failed, 2);
}

#[test]
fn a_playback_report_counts_outcomes_and_spans_the_show() {
    let r = playback_report(&vec![1_000, 1_040, 1_080, 1_120], &vec![true, false, true, true], 170, 0xabc);
    assert_eq!(r.frames_played, 3);
    assert_eq!(r.frames_failed, 1);
    assert_eq!(r.duration_ms, 120);
    assert_eq!(r.pixel_count, 170);
    assert_eq!(r.manifest_hash, 0xabc);
}

#[test]
fn an_empty_or_backwards_show_spans_no_time() {
    let empty = playback_report(&vec![], &vec![], 0, 0);
    assert_eq!((empty.frames_played, empty.frames_failed, empty.duration_ms), (0, 0, 0));
    let backwards = playback_report(&vec![500, 100], &vec![false, false], 1, 2);
    assert_eq!(backwards.duration_ms, 0);
    assert_eq!(backwards.frames_failed, 2);
}
