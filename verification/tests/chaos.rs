use led_platform::chaos::{crash_error, ChaosAction, ChaosHarness, FaultConfig};

fn run(h: &mut ChaosHarness, n: u64) -> Vec<ChaosAction> {
    (0..n).map(|_| h.decide()).collect()
}

#[test]
fn baseline_no_faults_all_frames_reach_device() {
    let mut h = ChaosHarness::new(FaultConfig::baseline());
    assert!(run(&mut h, 100).iter().all(|a| *a == ChaosAction::Forward));
    assert_eq!(h.frame_count(), 100);
    assert_eq!(h.drop_count(), 0);
    assert_eq!(FaultConfig::default(), FaultConfig::baseline());
}

#[test]
fn packet_loss_50pct_drops_approximately_half() {
    let mut h = ChaosHarness::new(FaultConfig::packet_loss(50, 12345));
    run(&mut h, 1000);
    let rate = h.drop_count() as f32 / h.frame_count() as f32 * 100.0;
    assert!(rate > 30.0 && rate < 70.0, "{rate:.1}%");
}

#[test]
fn packet_loss_100pct_drops_all() {
    let mut h = ChaosHarness::new(FaultConfig::packet_loss(100, 0));
    assert!(run(&mut h, 100).iter().all(|a| *a == ChaosAction::Drop));
    assert_eq!(h.drop_count(), 100);
}

#[test]
fn packet_loss_0pct_drops_none() {
    assert_eq!(FaultConfig::packet_loss(250, 1).packet_loss_pct, 100);
    let mut h = ChaosHarness::new(FaultConfig::packet_loss(0, 0));
    run(&mut h, 100);
    assert_eq!(h.drop_count(), 0);
}

#[test]
fn crash_after_n_first_n_frames_succeed() {
    let mut h = ChaosHarness::new(FaultConfig::crash_after(5));
    let acts = run(&mut h, 10);
    assert!(acts[..4].iter().all(|a| *a == ChaosAction::Forward));
    assert_eq!(acts[4], ChaosAction::Crash { frames: 5 });
    assert_eq!(acts[9], ChaosAction::Crash { frames: 10 });
    assert!(crash_error(5).contains("crash"));
    assert_eq!(crash_error(12), "chaos: simulated crash after 12 frames");
}

#[test]
fn latency_does_not_corrupt_data() {
    let mut h = ChaosHarness::new(FaultConfig::latency_us(100));
    assert!(run(&mut h, 5)
        .iter()
        .all(|a| *a == ChaosAction::DelayThenForward { latency_us: 100 }));
}

#[test]
fn disable_makes_harness_transparent() {
    let mut h = ChaosHarness::new(FaultConfig::packet_loss(100, 0));
    h.disable();
    assert!(run(&mut h, 10).iter().all(|a| *a == ChaosAction::Forward));
    assert_eq!(h.drop_count(), 0);
    h.enable();
    run(&mut h, 10);
    assert_eq!(h.drop_count(), 10);
    assert_eq!(h.frame_count(), 20);
}

#[test]
fn same_seed_same_drop_pattern() {
    let mut a = ChaosHarness::new(FaultConfig::packet_loss(30, 42));
    let mut b = ChaosHarness::new(FaultConfig::packet_loss(30, 42));
    assert_eq!(run(&mut a, 200), run(&mut b, 200));
    let mut c = ChaosHarness::new(FaultConfig::packet_loss(30, 43));
    assert_ne!(run(&mut c, 200), run(&mut a, 200));
}

#[test]
fn crash_after_n_returns_error() {
    let mut h = ChaosHarness::new(FaultConfig::crash_after(10));
    let acts = run(&mut h, 20);
    let errored = acts.iter().filter(|a| matches!(a, ChaosAction::Crash { .. })).count();
    assert!(errored > 0, "must have errors after crash");
    let first = acts.iter().find_map(|a| match a {
        ChaosAction::Crash { frames } => Some(crash_error(*frames)),
        _ => None,
    });
    assert!(first.unwrap().contains("crash"), "error must mention 'crash'");
}

#[test]
fn enable_re_activates_faults() {
    let mut h = ChaosHarness::new(FaultConfig::packet_loss(100, 0));
    h.disable();
    h.enable();
    run(&mut h, 10);
    assert_eq!(h.drop_count(), 10, "re-enabled harness drops again");
}

#[test]
fn system_survives_50pct_packet_loss_and_recovers() {
    let mut h = ChaosHarness::new(FaultConfig::packet_loss(50, 999));
    let during = run(&mut h, 100);
    let dropped_during_chaos = h.drop_count();
    assert!(dropped_during_chaos > 0);
    let delivered_during = during.iter().filter(|a| **a == ChaosAction::Forward).count();
    h.disable();
    let after = run(&mut h, 50);
    assert!(after.iter().all(|a| *a == ChaosAction::Forward), "recovery: every frame reaches the device");
    assert_eq!(h.drop_count(), dropped_during_chaos);
    assert_eq!(delivered_during as u64 + dropped_during_chaos, 100);
}
