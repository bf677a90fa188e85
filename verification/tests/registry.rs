use led_platform::heartbeat::Heartbeat;
use led_platform::profile::{ColorFormat, OutputInterface, Protocol, SCHEMA_VERSION};
use led_platform::registry::{builtin_presets, HardwareRegistry};
use led_platform::validate::{validate, Available, Finding, Severity};

const IFACES: &[OutputInterface] = &[OutputInterface::Ethernet, OutputInterface::WiFi];
const PROTOS: &[Protocol] = &[Protocol::Sacn, Protocol::ArtNet, Protocol::Ddp];

fn available() -> Available<'static> {
    Available { interfaces: IFACES, protocols: PROTOS }
}

#[test]
fn builtin_registry_exposes_every_table_row() {
    let reg = HardwareRegistry::with_builtin();
    let presets = builtin_presets();
    assert_eq!(reg.len(), presets.len());
    assert!(!reg.is_empty());
    for row in &presets {
        assert!(reg.get(row.name).is_some(), "{}", row.name);
    }
    assert_eq!(reg.names(), presets.iter().map(|r| r.name).collect::<Vec<_>>());
}

#[test]
fn preset_names_are_unique() {
    let mut seen: Vec<&str> = builtin_presets().iter().map(|r| r.name).collect();
    let total = seen.len();
    seen.sort_unstable();
    seen.dedup();
    assert_eq!(seen.len(), total);
}

#[test]
fn profile_reflects_the_row_it_came_from() {
    let reg = HardwareRegistry::with_builtin();
    let row = *reg.get("esp32-poe-wled-ddp").unwrap();
    let p = reg.profile("esp32-poe-wled-ddp").unwrap();
    assert_eq!(p.identity.model, row.model);
    assert_eq!(p.capabilities.protocol, row.protocol);
    assert_eq!(p.capabilities.output_interface, row.output_interface);
    assert_eq!(p.limits.max_pixels, row.max_pixels);
    assert_eq!(p.schema_version, SCHEMA_VERSION);
    assert_eq!(f32::from_bits(p.calibration.gamma), 2.2);
}

#[test]
fn unknown_name_is_none_not_a_fallback() {
    let reg = HardwareRegistry::with_builtin();
    assert!(reg.get("no-such-controller").is_none());
    assert!(reg.profile("no-such-controller").is_none());
}

#[test]
fn registering_a_new_name_adds_and_an_existing_name_replaces() {
    let mut reg = HardwareRegistry::new();
    assert!(reg.is_empty());
    let mut row = builtin_presets()[0];
    row.name = "mine";
    reg.register(row);
    assert_eq!(reg.len(), 1);
    row.max_pixels = 999;
    reg.register(row);
    assert_eq!(reg.len(), 1);
    assert_eq!(reg.get("mine").unwrap().max_pixels, 999);
    let copy = reg.clone();
    assert_eq!(copy.get("mine").unwrap().max_pixels, 999);
}

#[test]
fn new_hardware_is_a_row_not_a_code_path() {
    let mut reg = HardwareRegistry::with_builtin();
    let before = reg.len();
    let mut novel = builtin_presets()[1];
    novel.name = "brand-new-controller-2027";
    novel.vendor = "SomeoneNew";
    reg.register(novel);
    assert_eq!(reg.len(), before + 1);
    let p = reg.profile("brand-new-controller-2027").unwrap();
    assert_eq!(p.identity.vendor, "SomeoneNew");
}

#[test]
fn every_builtin_preset_validates_without_errors() {
    let reg = HardwareRegistry::with_builtin();
    for row in builtin_presets() {
        let p = reg.profile(row.name).unwrap();
        let v = validate(&p, &available());
        assert!(!v.has_errors(), "{}: {:?}", row.name, v.errors());
    }
}

#[test]
fn preset_warnings_are_the_ones_the_adrs_predict() {
    let reg = HardwareRegistry::with_builtin();
    for row in builtin_presets() {
        let p = reg.profile(row.name).unwrap();
        for w in validate(&p, &available()).warnings() {
            match w {
                Finding::WifiNotPermittedLive => assert_eq!(row.output_interface, OutputInterface::WiFi),
                Finding::RgbwOverDdpDataType => {
                    assert!(matches!(row.color, ColorFormat::Rgbw(_, _)));
                    assert_eq!(row.protocol, Protocol::Ddp);
                }
                other => panic!("unexpected warning in '{}': {other:?}", row.name),
            }
        }
    }
}

#[test]
fn the_rgbw_preset_fits_a_universe_exactly() {
    let reg = HardwareRegistry::with_builtin();
    let row = *reg.get("generic-sk6812-rgbw-sacn").unwrap();
    assert_eq!(row.color.channels(), 4);
    assert_eq!(row.pixels_per_universe as usize * row.color.channels(), 512);
    assert!(!validate(&reg.profile(row.name).unwrap(), &available()).has_errors());
}

#[test]
fn a_preset_is_rejected_when_its_interface_has_no_driver() {
    let only_ethernet: &[OutputInterface] = &[OutputInterface::Ethernet];
    let av = Available { interfaces: only_ethernet, protocols: PROTOS };
    let reg = HardwareRegistry::with_builtin();
    let v = validate(&reg.profile("esp32-devkit-wled-artnet").unwrap(), &av);
    assert!(v.has_errors());
    assert!(v.findings.iter().any(|f| f.severity() == Severity::Error));
}

#[test]
fn heartbeat_never_sends_a_frame_that_was_not_recorded() {
    let mut hb: Heartbeat<Vec<u8>> = Heartbeat::new();
    assert!(hb.beat().is_none(), "nothing recorded: nothing sent");
    hb.record(vec![200, 10, 20]);
    assert_eq!(hb.beat(), Some(&vec![200, 10, 20]));
    assert_eq!(hb.beat(), Some(&vec![200, 10, 20]), "every beat resends the same real frame");
    hb.record(vec![1, 2, 3]);
    assert_eq!(hb.beat(), Some(&vec![1, 2, 3]));
}
