use led_platform::triple::triple_buffer;

#[test]
fn single_thread_latest_value_semantics() {
    let (mut p, mut c, mut slot) = triple_buffer(0u32, 0, 0);
    assert!(!c.update(&mut slot), "nothing published yet");

    *p.input() = 1;
    p.publish(&mut slot);
    *p.input() = 2;
    p.publish(&mut slot);

    assert!(c.update(&mut slot), "fresh data available");
    assert_eq!(*c.output(), 2, "consumer gets the LATEST, skipping the stale one");
    assert!(!c.update(&mut slot), "no new data after consuming");
}

#[test]
fn permutation_invariant_producer_consumer_never_same_slot() {
    let (mut prod, mut cons, mut slot) = triple_buffer(0u64, 0u64, 0u64);
    for i in 0..10_000u64 {
        *prod.input() = i;
        prod.publish(&mut slot);
        assert!(cons.update(&mut slot));
        assert_eq!(*cons.output(), i);
    }
}

#[test]
fn triple_buffer_1m_cycles_no_torn_frame() {
    let (mut prod, mut cons, mut slot) = triple_buffer([0u8; 512], [0u8; 512], [0u8; 512]);
    for i in 0..1_000_000u32 {
        let marker = (i % 256) as u8;
        prod.input().fill(marker);
        prod.publish(&mut slot);
        if cons.update(&mut slot) {
            let out = cons.output();
            let first = out[0];
            assert!(out.iter().all(|&b| b == first), "torn frame at i={i}");
            assert_eq!(first, marker);
        }
    }
}

#[test]
fn triple_buffer_no_publish_consumer_sees_initial() {
    let (_, mut cons, mut slot) = triple_buffer(42u32, 0u32, 0u32);
    assert!(!cons.update(&mut slot));
    assert_eq!(*cons.output(), 0u32, "consumer starts on the second buffer");
}

#[test]
fn the_stale_frame_goes_back_to_the_producer() {
    let (mut p, mut c, mut slot) = triple_buffer(1u8, 2u8, 3u8);
    p.publish(&mut slot); // producer now holds 3, slot holds 1 (fresh)
    assert_eq!(*p.input(), 3);
    *p.input() = 9;
    p.publish(&mut slot); // producer takes back 1, slot holds 9
    assert_eq!(*p.input(), 1);
    assert!(c.update(&mut slot));
    assert_eq!(*c.output(), 9);
}

#[test]
fn triple_buffer_publish_latency_sub_microsecond() {
    let (mut prod, _cons, mut slot) = triple_buffer([0u8; 512], [0u8; 512], [0u8; 512]);
    let mut total_ns = 0u128;
    let runs = 10_000;
    for i in 0..runs {
        prod.input().fill(i as u8);
        let t0 = std::time::Instant::now();
        prod.publish(&mut slot);
        total_ns += t0.elapsed().as_nanos();
    }
    let avg_ns = total_ns / runs;
    assert!(avg_ns < 10_000, "publish avg {}ns exceeds 10µs budget", avg_ns);
}

#[test]
fn after_many_publishes_the_consumer_gets_the_last_one_once() {
    let (mut p, mut c, mut slot) = triple_buffer(0u32, 0u32, 0u32);
    for k in 1..=7u32 {
        *p.input() = k;
        p.publish(&mut slot);
    }
    assert!(c.update(&mut slot), "a publish happened since the last update");
    assert_eq!(*c.output(), 7, "the last frame published, never an older one");
    assert!(!c.update(&mut slot), "nothing new after it");
    assert_eq!(*c.output(), 7);
}
