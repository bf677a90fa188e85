use led_platform::profile::RgbOrder;
use led_platform::rig::{build_rig, Offset, PlacedStrip, RigPlan, RigTemplate, StripTemplate};

/// A position as `f32` bit patterns.
fn at(x: f32, y: f32, z: f32) -> Offset {
    Offset { x: x.to_bits(), y: y.to_bits(), z: z.to_bits() }
}

fn mini_robot() -> RigTemplate {
    RigTemplate {
        name: "robô".into(),
        strips: vec![
            StripTemplate { name: "peito".into(), pixels: 20, offset: at(0.0, 10.0, 0.0) },
            StripTemplate { name: "6pack".into(), pixels: 20, offset: at(0.0, 5.0, 0.0) },
            StripTemplate { name: "perna E".into(), pixels: 15, offset: at(-2.0, 0.0, 0.0) },
            StripTemplate { name: "perna D".into(), pixels: 15, offset: at(2.0, 0.0, 0.0) },
        ],
    }
}

#[test]
fn five_robots_no_overlap_by_construction() {
    let plan = build_rig(&mini_robot(), 5, 0, 1, RgbOrder::Grb);
    assert_eq!(plan.strips.len(), 20);
    assert_eq!(plan.total_pixels(), 350);
    assert!(plan.verify_no_overlap().is_none());
}

#[test]
fn each_instance_gets_its_own_device() {
    let plan = build_rig(&mini_robot(), 5, 10, 1, RgbOrder::Rgb);
    for (i, chunk) in plan.strips.chunks(4).enumerate() {
        assert!(chunk.iter().all(|s| s.device == 10 + i as u16));
    }
    assert_eq!(plan.strips[5].name, "robô 2/6pack");
}

#[test]
fn strips_pack_contiguously_within_an_instance() {
    let plan = build_rig(&mini_robot(), 1, 0, 1, RgbOrder::Rgb);
    assert_eq!((plan.strips[0].universe, plan.strips[0].channel), (1, 0));
    assert_eq!((plan.strips[1].universe, plan.strips[1].channel), (1, 60));
    assert_eq!((plan.strips[2].universe, plan.strips[2].channel), (1, 120));
    assert_eq!((plan.strips[3].universe, plan.strips[3].channel), (1, 165));
}

#[test]
fn universe_rolls_over_at_170_pixels() {
    let big = RigTemplate {
        name: "torre".into(),
        strips: vec![
            StripTemplate { name: "a".into(), pixels: 170, offset: at(0.0, 0.0, 0.0) },
            StripTemplate { name: "b".into(), pixels: 10, offset: at(0.0, 0.0, 0.0) },
        ],
    };
    let plan = build_rig(&big, 1, 0, 1, RgbOrder::Rgb);
    assert_eq!(plan.strips[0].universe, 1);
    assert_eq!((plan.strips[1].universe, plan.strips[1].channel), (2, 0));
}

#[test]
fn assignments_compile_into_a_layout() {
    let plan = build_rig(&mini_robot(), 2, 0, 1, RgbOrder::Grb);
    let assigns = plan.assignments();
    assert_eq!(assigns.len(), 140);
    assert!(assigns.iter().all(|a| a.channel <= 507));
    assert!(assigns.iter().all(|a| a.universe == 1));
    assert_eq!((assigns[69].device, assigns[69].channel), (0, 207));
    assert_eq!((assigns[70].device, assigns[70].channel), (1, 0));
}

#[test]
fn user_scale_rig_86_strips_5_robots() {
    let strips: Vec<StripTemplate> =
        (0..86).map(|i| StripTemplate { name: format!("strip {i}"), pixels: 20, offset: at(0.0, i as f32, 0.0) }).collect();
    let template = RigTemplate { name: "robô".into(), strips };
    assert_eq!(template.total_pixels(), 1720);
    let plan = build_rig(&template, 5, 0, 1, RgbOrder::Grb);
    assert_eq!(plan.total_pixels(), 8600);
    assert!(plan.verify_no_overlap().is_none());
    assert_eq!(plan.universes_per_instance(1720), 11);
    assert_eq!(plan.first_universe_of(3), 1);
    assert_eq!(plan.first_universe_of(9), 0, "no such device");
}

#[test]
fn a_hand_made_overlap_is_found_and_named() {
    let strip = |name: &str, universe: u16, channel: u16, pixels: u16| PlacedStrip {
        name: name.into(),
        device: 0,
        universe,
        channel,
        pixels,
    };
    let plan = RigPlan {
        strips: vec![strip("b", 1, 30, 10), strip("a", 1, 0, 20), strip("c", 2, 0, 5)],
        order: RgbOrder::Rgb,
        px_per_universe: 170,
    };
    // "a" covers channels 0..60 and "b" starts at 30.
    assert_eq!(plan.verify_no_overlap(), Some(("a".to_string(), "b".to_string())));

    let clean = RigPlan {
        strips: vec![strip("x", 1, 0, 10), strip("y", 1, 30, 10)],
        order: RgbOrder::Rgb,
        px_per_universe: 170,
    };
    assert_eq!(clean.verify_no_overlap(), None);

    // Identical ranges are reported in name order.
    let twins = RigPlan {
        strips: vec![strip("z", 1, 0, 4), strip("m", 1, 0, 4)],
        order: RgbOrder::Rgb,
        px_per_universe: 170,
    };
    assert_eq!(twins.verify_no_overlap(), Some(("m".to_string(), "z".to_string())));
}
