use led_platform::noise::{hash24, mix64};

/// A value in `[0, 1)` from the 24 high bits of the hash.
fn hash01(key: u64, seed: u64) -> f32 {
    const SCALE: f32 = 1.0 / (1u32 << 24) as f32;
    hash24(key, seed) as f32 * SCALE
}

#[test]
fn mix64_decorrelates_sequential_keys() {
    let vals: Vec<f32> = (0..64).map(|i| hash01(i, 7)).collect();
    assert!(vals.iter().all(|v| (0.0..1.0).contains(v)), "sempre em [0,1)");

    let above = vals.iter().filter(|&&v| v >= 0.5).count();
    assert!((16..=48).contains(&above), "distribuição enviesada: {above}/64 acima de 0.5");
}

#[test]
fn hash01_is_pure() {
    assert_eq!(hash01(42, 1), hash01(42, 1), "mesma entrada ⇒ mesma saída, sempre");
    assert_ne!(hash01(42, 1), hash01(42, 2), "a semente separa fluxos");
    assert_ne!(hash01(42, 1), hash01(43, 1), "a chave separa pixels");
}

#[test]
fn mix64_matches_the_splitmix64_finaliser() {
    assert_eq!(mix64(0), 0, "zero is a fixed point of the finaliser");
    assert_eq!(mix64(1), 0x5692_161d_100b_05e5);
}

#[test]
fn hash24_takes_the_top_24_bits_of_the_keyed_mix() {
    assert_eq!(hash24(1, 7), 6_449_374);
    assert_eq!(hash24(42, 1), 12_756_718);
    assert_eq!(hash24(1, 7) as u64, mix64(1 ^ mix64(7)) >> 40);
    for k in 0..1000u64 {
        assert!(hash24(k, 3) < (1 << 24));
    }
}

#[test]
fn sequential_keys_never_collide() {
    let mut seen: Vec<u64> = (0..4096u64).map(mix64).collect();
    seen.sort_unstable();
    seen.dedup();
    assert_eq!(seen.len(), 4096, "the mixer is a bijection: distinct keys, distinct values");
}
