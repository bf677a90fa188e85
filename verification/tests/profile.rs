use led_platform::profile::{
    Calibration, Capabilities, ColorFormat, HardwareProfile, Identity, Limits, OutputInterface,
    Power, Protocol, RgbOrder, Transport, WhiteMode, ETHERNET_MTU, MAX_GAP_MS, SCHEMA_VERSION,
};

fn sample() -> HardwareProfile {
    HardwareProfile {
        schema_version: SCHEMA_VERSION,
        identity: Identity {
            vendor: "Espressif".to_string(),
            model: "ESP32-POE".to_string(),
            firmware: "WLED".to_string(),
            firmware_version: "16.0.1".to_string(),
            serial: None,
        },
        capabilities: Capabilities {
            protocol: Protocol::Ddp,
            output_interface: OutputInterface::Ethernet,
            color: ColorFormat::Rgb(RgbOrder::Grb),
            ports: 1,
            supports_discovery: true,
            supports_metrics: false,
        },
        limits: Limits { pixels_per_universe: 170, max_pixels: 1_560, refresh_hz: 44 },
        transport: Transport { mtu_bytes: 1_500, heartbeat_ms: 800 },
        power: Power { voltage_v: 5.0f32.to_bits(), max_current_a: 10.0f32.to_bits() },
        calibration: Calibration { gamma: 2.2f32.to_bits(), brightness: 1.0f32.to_bits() },
    }
}

fn eth() -> Transport {
    Transport { mtu_bytes: ETHERNET_MTU, heartbeat_ms: 800 }
}

#[test]
fn profile_composes_from_orthogonal_capabilities() {
    let p = sample();
    assert_eq!(p.schema_version, SCHEMA_VERSION);
    assert_eq!(p.capabilities.protocol, Protocol::Ddp);
    assert_eq!(p.capabilities.output_interface, OutputInterface::Ethernet);
    assert_eq!(p.limits.pixels_per_universe, 170);
}

#[test]
fn same_schema_expresses_a_different_node_without_new_variants() {
    let mut wifi_node = sample();
    wifi_node.identity.model = "ESP32 DevKit V1".to_string();
    wifi_node.capabilities.output_interface = OutputInterface::WiFi;
    wifi_node.capabilities.protocol = Protocol::ArtNet;
    assert_ne!(wifi_node.capabilities, sample().capabilities);
    assert_eq!(wifi_node.schema_version, sample().schema_version);
}

#[test]
fn rgbw_is_a_value_not_a_hardware_kind() {
    let rgb = sample();
    let mut rgbw = sample();
    rgbw.capabilities.color = ColorFormat::Rgbw(RgbOrder::Grb, WhiteMode::Min);
    assert_eq!(rgb.identity, rgbw.identity);
    assert_eq!(rgb.limits, rgbw.limits);
    assert_ne!(rgb.capabilities.color, rgbw.capabilities.color);
    assert_eq!(rgbw.capabilities.color.channels(), 4);
    assert_eq!(rgb.capabilities.color.channels(), 3);
}

#[test]
fn power_is_declared_budget_not_a_reading() {
    let p = sample();
    assert_eq!(f32::from_bits(p.power.voltage_v), 5.0);
    assert_eq!(f32::from_bits(p.power.max_current_a), 10.0);
}

#[test]
fn a_fragmentacao_derivada_do_mtu_bate_com_o_ddp_validado_no_rig() {
    let t = eth();
    assert_eq!(t.udp_payload_bytes(), 1_472);
    assert_eq!(t.pixels_per_datagram(Protocol::Ddp, ColorFormat::Rgb(RgbOrder::Grb), 170), 487);
}

#[test]
fn rgbw_cabe_menos_por_datagrama() {
    let t = eth();
    let rgb = t.pixels_per_datagram(Protocol::Ddp, ColorFormat::Rgb(RgbOrder::Grb), 170);
    let rgbw = t.pixels_per_datagram(
        Protocol::Ddp,
        ColorFormat::Rgbw(RgbOrder::Grb, WhiteMode::MinSubtract),
        170,
    );
    assert_eq!(rgbw, 365, "1462 / 4");
    assert!(rgbw < rgb);
}

#[test]
fn artnet_e_sacn_sao_limitados_pelo_universo() {
    let t = eth();
    let cor = ColorFormat::Rgb(RgbOrder::Grb);
    for p in [Protocol::ArtNet, Protocol::Sacn] {
        assert_eq!(t.pixels_per_datagram(p, cor, 170), 170, "{p:?}");
    }
    assert!(t.pixels_per_datagram(Protocol::ArtNet, cor, 10_000) < 10_000);
    // 1472 − 18 = 1454 bytes after the Art-Net header: 484 RGB pixels.
    assert_eq!(t.pixels_per_datagram(Protocol::ArtNet, cor, 10_000), 484);
}

#[test]
fn o_numero_de_datagramas_do_no_de_bancada() {
    let t = eth();
    let cor = ColorFormat::Rgb(RgbOrder::Grb);
    assert_eq!(t.datagrams_for(720, Protocol::Ddp, cor, 170), 2, "487 + 233");
    assert_eq!(t.datagrams_for(720, Protocol::ArtNet, cor, 170), 5, "ceil(720/170)");
    assert_eq!(t.datagrams_for(720, Protocol::Sacn, cor, 170), 5);
    assert_eq!(t.datagrams_for(6_200, Protocol::Ddp, cor, 170), 13);
}

#[test]
fn o_heartbeat_declarado_e_confrontado_com_o_teto_do_gosl() {
    assert!(Transport { mtu_bytes: 1500, heartbeat_ms: 800 }.heartbeat_is_safe());
    assert!(!Transport { mtu_bytes: 1500, heartbeat_ms: 2_400 }.heartbeat_is_safe());
    assert!(!Transport { mtu_bytes: 1500, heartbeat_ms: 3_000 }.heartbeat_is_safe());
    assert!(!Transport { mtu_bytes: 1500, heartbeat_ms: 0 }.heartbeat_is_safe(), "0 = nunca bate");
}

#[test]
fn um_mtu_menor_reduz_a_fragmentacao_sozinho() {
    let t = Transport { mtu_bytes: 576, heartbeat_ms: 800 };
    let px = t.pixels_per_datagram(Protocol::Ddp, ColorFormat::Rgb(RgbOrder::Grb), 170);
    assert_eq!(px, (576 - 28 - 10) / 3);
    assert!(px < 487);
}

#[test]
fn a_tiny_mtu_carries_no_payload_and_one_pixel_per_datagram_is_assumed() {
    let t = Transport { mtu_bytes: 20, heartbeat_ms: 800 };
    assert_eq!(t.udp_payload_bytes(), 0);
    let cor = ColorFormat::Rgb(RgbOrder::Rgb);
    assert_eq!(t.pixels_per_datagram(Protocol::Ddp, cor, 170), 0);
    assert_eq!(t.datagrams_for(7, Protocol::Ddp, cor, 170), 7);
    assert_eq!(t.datagrams_for(0, Protocol::Ddp, cor, 170), 0);
}

#[test]
fn the_heartbeat_boundaries_are_one_and_one_below_the_ceiling() {
    assert!(Transport { mtu_bytes: 1500, heartbeat_ms: 1 }.heartbeat_is_safe());
    assert!(Transport { mtu_bytes: 1500, heartbeat_ms: MAX_GAP_MS - 1 }.heartbeat_is_safe());
}

#[test]
fn datagrams_cover_the_frame_and_one_fewer_would_not() {
    let t = eth();
    let cor = ColorFormat::Rgb(RgbOrder::Grb);
    for pixels in [1u32, 169, 170, 171, 487, 488, 974, 975] {
        for proto in [Protocol::Ddp, Protocol::ArtNet] {
            let per = t.pixels_per_datagram(proto, cor, 170) as u32;
            let n = t.datagrams_for(pixels, proto, cor, 170);
            assert!(n * per >= pixels);
            assert!((n - 1) * per < pixels);
        }
    }
}

#[test]
fn color_is_the_led_core_contract_not_a_local_type() {
    let rgbw = ColorFormat::Rgbw(RgbOrder::Grb, WhiteMode::Min);
    assert_eq!(rgbw.channels(), 4);
    let p = HardwareProfile { capabilities: Capabilities { color: rgbw, ..sample().capabilities }, ..sample() };
    assert_eq!(p.capabilities.color.channels(), 4);
}

#[test]
fn driverless_interfaces_are_declarable_by_the_schema() {
    for iface in [OutputInterface::Spi, OutputInterface::Pwm] {
        let mut p = sample();
        p.capabilities.output_interface = iface;
        assert_eq!(p.capabilities.output_interface, iface);
    }
}
