use led_platform::network_guard::{
    ifconfig_reports_active, linux_verdict, parse_macos_wifi_interfaces, InterfaceProbe,
    NetworkGuard, NetworkPolicyError, PermissiveGuard,
};
use led_platform::network_guard::unsupported_platform;

#[test]
fn permissive_guard_always_passes() {
    let g = PermissiveGuard;
    assert!(g.check().is_ok(), "PermissiveGuard must always pass");
    assert_eq!(g.name(), "PermissiveGuard (no enforcement)");
}

#[test]
fn error_wifi_active_displays_interface_names() {
    let err = NetworkPolicyError::WifiActive { interfaces: vec!["en0".into(), "en1".into()] };
    let msg = err.to_string();
    assert!(msg.contains("en0"), "must name the interface: {msg}");
    assert!(msg.contains("en1"), "must name both interfaces: {msg}");
    assert!(msg.contains("CRITICAL"), "must be flagged as critical: {msg}");
    assert!(msg.contains("WiFi"), "must mention WiFi: {msg}");
}

#[test]
fn error_probe_unavailable_displays_reason() {
    let err = NetworkPolicyError::ProbeUnavailable { reason: "test reason".into() };
    let msg = err.to_string();
    assert!(msg.contains("WARNING"), "must be a warning: {msg}");
    assert!(msg.contains("test reason"), "must include reason: {msg}");
}

#[test]
fn error_wifi_active_is_not_probe_unavailable() {
    let wifi = NetworkPolicyError::WifiActive { interfaces: vec!["en0".into()] };
    let probe = NetworkPolicyError::ProbeUnavailable { reason: "x".into() };
    assert_ne!(wifi, probe);
}

#[test]
fn network_guard_is_object_safe() {
    let guard: Box<dyn NetworkGuard> = Box::new(PermissiveGuard);
    assert!(guard.check().is_ok());
}

#[test]
fn network_guard_name_is_accessible_on_trait_object() {
    let guard: Box<dyn NetworkGuard> = Box::new(PermissiveGuard);
    assert!(!guard.name().is_empty());
}

#[test]
fn parse_macos_wifi_interfaces_finds_wifi_block() {
    let output = "\
Hardware Port: Thunderbolt 1
Device: en1
Ethernet Address: aa:bb:cc:dd:ee:ff

Hardware Port: Wi-Fi
Device: en0
Ethernet Address: 11:22:33:44:55:66

Hardware Port: Bluetooth PAN
Device: en3
Ethernet Address: 77:88:99:aa:bb:cc
";
    let ifaces = parse_macos_wifi_interfaces(output);
    assert_eq!(ifaces, vec!["en0"], "must extract only the Wi-Fi device");
}

#[test]
fn parse_macos_wifi_interfaces_handles_airport_name() {
    let output = "\
Hardware Port: AirPort
Device: en0
Ethernet Address: 11:22:33:44:55:66
";
    let ifaces = parse_macos_wifi_interfaces(output);
    assert_eq!(ifaces, vec!["en0"], "must also recognise 'AirPort' port name");
}

#[test]
fn parse_macos_wifi_interfaces_empty_when_no_wifi_hardware() {
    let output = "\
Hardware Port: Thunderbolt 1
Device: en1
Ethernet Address: aa:bb:cc:dd:ee:ff
";
    let ifaces = parse_macos_wifi_interfaces(output);
    assert!(ifaces.is_empty(), "no Wi-Fi hardware → empty list");
}

#[test]
fn parsing_tolerates_crlf_indentation_and_a_missing_final_newline() {
    let output = "  Hardware Port:   wi-FI  \r\n\tDevice:  en7 \r\nHardware Port: Wi-Fi\nDevice:";
    assert_eq!(parse_macos_wifi_interfaces(output), vec!["en7"]);
    assert!(parse_macos_wifi_interfaces("").is_empty());
}

#[test]
fn a_device_line_closes_the_wifi_block() {
    let output = "Hardware Port: Wi-Fi\nDevice: en0\nDevice: en9\n";
    assert_eq!(parse_macos_wifi_interfaces(output), vec!["en0"]);
}

#[test]
fn ifconfig_status_is_read_from_anywhere_in_the_output() {
    assert!(ifconfig_reports_active("en0: flags=8863\n\tstatus: active\n"));
    assert!(!ifconfig_reports_active("en0: flags=8863\n\tstatus: inactive\n"));
    assert!(!ifconfig_reports_active("status: activ"));
}

#[test]
fn linux_verdict_names_only_wireless_interfaces_that_are_up() {
    let probes = vec![
        InterfaceProbe { name: "eth0".into(), wireless: false, operstate: Some("up\n".into()) },
        InterfaceProbe { name: "wlan0".into(), wireless: true, operstate: Some("up\n".into()) },
        InterfaceProbe { name: "wlan1".into(), wireless: true, operstate: Some("down\n".into()) },
        InterfaceProbe { name: "wlan2".into(), wireless: true, operstate: None },
    ];
    assert_eq!(
        linux_verdict(&probes),
        Err(NetworkPolicyError::WifiActive { interfaces: vec!["wlan0".to_string()] })
    );
    assert_eq!(linux_verdict(&vec![]), Ok(()));
}

#[test]
fn wifi_message_joins_interfaces_with_commas() {
    let err = NetworkPolicyError::WifiActive { interfaces: vec!["en0".into(), "en1".into()] };
    assert_eq!(
        err.to_string(),
        "[LUMYX CRITICAL] WiFi active on interface(s): en0, en1. Disable WiFi before starting a live show (Hardware Rule)."
    );
}

#[test]
fn wifi_block_guard_probe_unavailable_on_unsupported_platform() {
    let result: Result<(), NetworkPolicyError> = Err(unsupported_platform("plan9"));
    assert!(
        matches!(result, Err(NetworkPolicyError::ProbeUnavailable { .. })),
        "unsupported platform must return ProbeUnavailable, got {result:?}"
    );
    match result {
        Err(NetworkPolicyError::ProbeUnavailable { reason }) => {
            assert_eq!(reason, "unsupported platform 'plan9' — WiFi check not implemented")
        }
        other => panic!("unexpected {other:?}"),
    }
}
