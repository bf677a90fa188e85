use led_platform::calibration::{Calibration, CalibrationLut};
use led_platform::color::{Gamma, PixelColor};

/// The correction table for a gamma and a brightness: `((i / 255)^gamma × brightness × 255)`
/// rounded, an absurd gamma taken as linear and brightness clamped to `0..=1`.
fn new_lut(gamma: f32, brightness: f32) -> CalibrationLut {
    let g = if gamma.is_finite() && gamma > 0.0 { gamma } else { 1.0 };
    let b = if brightness.is_finite() { brightness.clamp(0.0, 1.0) } else { 1.0 };
    let mut table = [0u8; 256];
    for (i, slot) in table.iter_mut().enumerate() {
        let v = (i as f32 / 255.0).powf(g) * b;
        *slot = (v * 255.0 + 0.5) as u8;
    }
    CalibrationLut::from_table(table)
}

#[test]
fn identity_lut_changes_nothing() {
    let lut = CalibrationLut::identity();
    let mut bytes: Vec<u8> = (0..=255).collect();
    let before = bytes.clone();
    lut.apply_in_place(&mut bytes);
    assert_eq!(bytes, before, "a identidade não pode alterar byte algum");
}

#[test]
fn gamma_one_brightness_one_is_the_identity() {
    let lut = new_lut(1.0, 1.0);
    for i in 0..=255u8 {
        assert_eq!(lut.map(i), i, "gamma=1, brightness=1 deve ser transparente (byte {i})");
    }
}

#[test]
fn gamma_preserves_the_endpoints_and_darkens_the_middle() {
    let lut = new_lut(2.2, 1.0);
    assert_eq!(lut.map(0), 0, "preto continua preto");
    assert_eq!(lut.map(255), 255, "branco continua branco");
    assert!(lut.map(128) < 128, "gamma 2.2 escurece o meio-tom");
}

#[test]
fn gamma_is_monotonic() {
    let lut = new_lut(2.2, 1.0);
    for i in 1..=255u8 {
        assert!(lut.map(i) >= lut.map(i - 1), "a correção não pode inverter a rampa em {i}");
    }
}

#[test]
fn brightness_scales_the_top_of_the_range() {
    let half = new_lut(1.0, 0.5);
    assert_eq!(half.map(0), 0);
    assert_eq!(half.map(255), 128, "255 * 0.5 = 127.5 → 128");
    let off = new_lut(1.0, 0.0);
    assert_eq!(off.map(255), 0, "brightness 0 apaga");
}

#[test]
fn absurd_values_are_sanitised_not_panicking() {
    for (g, b) in [(0.0, 1.0), (-3.0, 1.0), (f32::NAN, 1.0), (2.2, 5.0), (2.2, f32::NAN)] {
        let lut = new_lut(g, b);
        assert_eq!(lut.map(0), 0);
        let _ = lut.map(255);
    }
    assert_eq!(new_lut(2.2, 5.0).map(255), 255, "brightness acima de 1 é fixado em 1, não estoura");
}

#[test]
fn a_device_without_calibration_has_no_lut() {
    let mut c = Calibration::new();
    assert!(c.is_empty());
    c.set_lut(1, new_lut(2.2, 1.0));
    assert_eq!(c.len(), 1);
    assert!(c.lut(1).is_some());
    assert!(c.lut(2).is_none(), "device não registrado não é corrigido");
}

#[test]
fn apply_in_place_corrects_a_whole_block() {
    let lut = new_lut(1.0, 0.5);
    let mut bytes = vec![255u8, 100, 0];
    lut.apply_in_place(&mut bytes);
    assert_eq!(bytes, vec![128, 50, 0]);
}

#[test]
fn apply_in_place_corrects_a_whole_block_through_the_table() {
    let mut table = [0u8; 256];
    for (i, t) in table.iter_mut().enumerate() {
        *t = 255 - i as u8;
    }
    let lut = CalibrationLut::from_table(table);
    let mut block = [0u8, 1, 128, 255];
    lut.apply_in_place(&mut block);
    assert_eq!(block, [255, 254, 127, 0]);
    let mut empty: [u8; 0] = [];
    lut.apply_in_place(&mut empty);
}

#[test]
fn identity_apply_leaves_the_block_as_it_was() {
    let mut block: Vec<u8> = (0..=255).collect();
    CalibrationLut::identity().apply_in_place(&mut block);
    assert_eq!(block, (0..=255).collect::<Vec<u8>>());
}

#[test]
fn calibration_is_per_device_and_absent_devices_are_uncorrected() {
    let mut c = Calibration::new();
    assert!(c.is_empty());
    assert!(c.lut(3).is_none());
    let mut t = [0u8; 256];
    t[10] = 99;
    c.set_lut(3, CalibrationLut::from_table(t));
    c.set_lut(4, CalibrationLut::identity());
    assert_eq!(c.len(), 2);
    assert!(!c.is_empty());
    assert_eq!(c.lut(3).unwrap().map(10), 99);
    assert_eq!(c.lut(4).unwrap().map(10), 10);
    assert!(c.lut(5).is_none());
    // Replacing a device's table keeps one entry.
    c.set_lut(3, CalibrationLut::identity());
    assert_eq!(c.len(), 2);
    assert_eq!(c.lut(3).unwrap().map(10), 10);
}

#[test]
fn gamma_applies_its_table_to_each_channel() {
    let mut t = [0u8; 256];
    for (i, x) in t.iter_mut().enumerate() {
        *x = (i / 2) as u8;
    }
    let g = Gamma::from_table(t);
    assert_eq!(g.apply(PixelColor::rgb(200, 100, 1)), PixelColor::rgb(100, 50, 0));
}
