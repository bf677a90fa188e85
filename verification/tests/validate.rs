use led_platform::profile::{
    Calibration, Capabilities, ColorFormat, HardwareProfile, Identity, Limits, OutputInterface,
    Power, Protocol, RgbOrder, Transport, WhiteMode, SCHEMA_VERSION, UNIVERSE_SIZE,
};
use led_platform::validate::{validate, Available, Finding, Severity};

const ALL_IFACES: &[OutputInterface] = &[OutputInterface::Ethernet, OutputInterface::WiFi];
const ALL_PROTOS: &[Protocol] = &[Protocol::Sacn, Protocol::ArtNet, Protocol::Ddp];

fn available() -> Available<'static> {
    Available { interfaces: ALL_IFACES, protocols: ALL_PROTOS }
}

fn valid() -> HardwareProfile {
    HardwareProfile {
        schema_version: SCHEMA_VERSION,
        identity: Identity {
            vendor: "Espressif".into(),
            model: "ESP32-POE".into(),
            firmware: "WLED".into(),
            firmware_version: "16.0.1".into(),
            serial: None,
        },
        capabilities: Capabilities {
            protocol: Protocol::ArtNet,
            output_interface: OutputInterface::Ethernet,
            color: ColorFormat::Rgb(RgbOrder::Grb),
            ports: 1,
            supports_discovery: true,
            supports_metrics: false,
        },
        limits: Limits { pixels_per_universe: 170, max_pixels: 1_560, refresh_hz: 44 },
        transport: Transport { mtu_bytes: 1_500, heartbeat_ms: 800 },
        power: Power { voltage_v: 5.0f32.to_bits(), max_current_a: 10.0f32.to_bits() },
        calibration: Calibration { gamma: 2.2f32.to_bits(), brightness: 1.0f32.to_bits() },
    }
}

#[test]
fn a_valid_profile_produces_no_findings() {
    let v = validate(&valid(), &available());
    assert_eq!(v.findings, vec![]);
    assert!(!v.has_errors());
}

#[test]
fn unknown_schema_version_is_an_error() {
    let mut p = valid();
    p.schema_version = SCHEMA_VERSION + 7;
    let v = validate(&p, &available());
    assert!(v.findings.contains(&Finding::UnknownSchemaVersion {
        found: SCHEMA_VERSION + 7,
        expected: SCHEMA_VERSION,
    }));
    assert!(v.has_errors());
}

#[test]
fn interface_without_driver_is_an_error() {
    for iface in [OutputInterface::Spi, OutputInterface::Pwm] {
        let mut p = valid();
        p.capabilities.output_interface = iface;
        let v = validate(&p, &available());
        assert!(v.findings.contains(&Finding::InterfaceHasNoDriver { interface: iface }));
        assert!(v.has_errors());
    }
}

#[test]
fn protocol_without_driver_is_an_error() {
    let only_ddp: &[Protocol] = &[Protocol::Ddp];
    let av = Available { interfaces: ALL_IFACES, protocols: only_ddp };
    let v = validate(&valid(), &av);
    assert!(v.findings.contains(&Finding::ProtocolHasNoDriver { protocol: Protocol::ArtNet }));
}

#[test]
fn rgb_pixels_must_fit_the_universe() {
    let mut p = valid();
    p.limits.pixels_per_universe = 170;
    assert!(validate(&p, &available()).findings.is_empty());

    p.limits.pixels_per_universe = 171;
    let v = validate(&p, &available());
    assert!(v.findings.contains(&Finding::PixelsExceedUniverse {
        pixels_per_universe: 171,
        channels_per_pixel: 3,
        universe_size: UNIVERSE_SIZE as u16,
    }));
}

#[test]
fn rgbw_halves_the_pixels_that_fit_a_universe() {
    let mut p = valid();
    p.capabilities.color = ColorFormat::Rgbw(RgbOrder::Grb, WhiteMode::Min);
    p.limits.pixels_per_universe = 128;
    assert!(validate(&p, &available()).findings.is_empty());

    p.limits.pixels_per_universe = 129;
    assert!(validate(&p, &available()).has_errors());
}

#[test]
fn ddp_is_byte_addressed_so_universe_limits_do_not_apply() {
    let mut p = valid();
    p.capabilities.protocol = Protocol::Ddp;
    p.limits.pixels_per_universe = 487;
    let v = validate(&p, &available());
    assert!(!v.findings.iter().any(|f| matches!(f, Finding::PixelsExceedUniverse { .. })));
}

#[test]
fn rgbw_over_ddp_is_a_warning_not_an_error() {
    let mut p = valid();
    p.capabilities.protocol = Protocol::Ddp;
    p.capabilities.color = ColorFormat::Rgbw(RgbOrder::Grb, WhiteMode::Min);
    let v = validate(&p, &available());
    assert!(v.findings.contains(&Finding::RgbwOverDdpDataType));
    assert!(!v.has_errors());
    assert_eq!(v.warnings().len(), 1);
}

#[test]
fn wifi_is_a_warning_the_network_guard_enforces() {
    let mut p = valid();
    p.capabilities.output_interface = OutputInterface::WiFi;
    let v = validate(&p, &available());
    assert!(v.findings.contains(&Finding::WifiNotPermittedLive));
    assert!(!v.has_errors());
}

#[test]
fn zero_limits_are_errors() {
    let cases: [(&str, fn(&mut HardwareProfile)); 3] = [
        ("pixels_per_universe", |p| p.limits.pixels_per_universe = 0),
        ("max_pixels", |p| p.limits.max_pixels = 0),
        ("refresh_hz", |p| p.limits.refresh_hz = 0),
    ];
    for (field, mutate) in cases {
        let mut p = valid();
        mutate(&mut p);
        let v = validate(&p, &available());
        assert!(v.findings.contains(&Finding::ZeroLimit { field }), "{field}");
    }
}

#[test]
fn invalid_power_and_calibration_are_errors() {
    let mut p = valid();
    p.power.voltage_v = 0.0f32.to_bits();
    p.power.max_current_a = (-1.0f32).to_bits();
    p.calibration.gamma = 0.0f32.to_bits();
    p.calibration.brightness = 1.5f32.to_bits();
    let v = validate(&p, &available());
    assert!(v.findings.contains(&Finding::InvalidPower { field: "voltage_v" }));
    assert!(v.findings.contains(&Finding::InvalidPower { field: "max_current_a" }));
    assert!(v.findings.contains(&Finding::InvalidCalibration { field: "gamma" }));
    assert!(v.findings.contains(&Finding::InvalidCalibration { field: "brightness" }));
    assert_eq!(v.errors().len(), 4);
}

#[test]
fn nan_calibration_is_rejected() {
    let mut p = valid();
    p.calibration.gamma = f32::NAN.to_bits();
    p.calibration.brightness = f32::NAN.to_bits();
    let v = validate(&p, &available());
    assert!(v.findings.contains(&Finding::InvalidCalibration { field: "gamma" }));
    assert!(v.findings.contains(&Finding::InvalidCalibration { field: "brightness" }));
}

#[test]
fn findings_accumulate_instead_of_short_circuiting() {
    let mut p = valid();
    p.schema_version = 99;
    p.capabilities.output_interface = OutputInterface::Spi;
    p.limits.max_pixels = 0;
    let v = validate(&p, &available());
    assert!(v.findings.len() >= 3, "{:?}", v.findings);
}

#[test]
fn the_float_comparisons_follow_ieee_754() {
    // −0.0 is not > 0.0 but does lie in 0.0..=1.0; +∞ is > 0.0; a subnormal is > 0.0.
    let mut p = valid();
    p.power.voltage_v = (-0.0f32).to_bits();
    p.power.max_current_a = f32::INFINITY.to_bits();
    p.calibration.gamma = f32::from_bits(1).to_bits();
    p.calibration.brightness = (-0.0f32).to_bits();
    let v = validate(&p, &available());
    assert_eq!(v.findings, vec![Finding::InvalidPower { field: "voltage_v" }]);

    p.calibration.brightness = 0.0f32.to_bits();
    p.power.voltage_v = 12.0f32.to_bits();
    assert!(validate(&p, &available()).findings.is_empty());
    p.calibration.brightness = (-0.5f32).to_bits();
    assert_eq!(
        validate(&p, &available()).findings,
        vec![Finding::InvalidCalibration { field: "brightness" }]
    );
}

#[test]
fn findings_come_in_rule_order_and_split_by_severity() {
    let mut p = valid();
    p.schema_version = 2;
    p.capabilities.protocol = Protocol::Ddp;
    p.capabilities.color = ColorFormat::Rgbw(RgbOrder::Rgb, WhiteMode::Min);
    p.capabilities.output_interface = OutputInterface::WiFi;
    p.limits.refresh_hz = 0;
    let none: &[OutputInterface] = &[];
    let v = validate(&p, &Available { interfaces: none, protocols: ALL_PROTOS });
    assert_eq!(
        v.findings,
        vec![
            Finding::UnknownSchemaVersion { found: 2, expected: 1 },
            Finding::InterfaceHasNoDriver { interface: OutputInterface::WiFi },
            Finding::ZeroLimit { field: "refresh_hz" },
            Finding::RgbwOverDdpDataType,
            Finding::WifiNotPermittedLive,
        ]
    );
    assert_eq!(v.errors().len(), 3);
    assert_eq!(
        v.warnings(),
        vec![Finding::RgbwOverDdpDataType, Finding::WifiNotPermittedLive]
    );
    assert_eq!(Finding::WifiNotPermittedLive.severity(), Severity::Warning);
    assert_eq!(Finding::ZeroLimit { field: "max_pixels" }.severity(), Severity::Error);
}
