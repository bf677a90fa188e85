use led_platform::sim::{DeviceConfig, DeviceError, SimulatorDevice, UniverseData};

fn one_device() -> SimulatorDevice {
    SimulatorDevice::new(1, &[0])
}

fn frame(universe: u16, first: u8) -> Vec<UniverseData> {
    let mut data = vec![0u8; 512];
    data[0] = first;
    vec![UniverseData { universe, data }]
}

#[test]
fn idevice_lifecycle_and_firmware_safety() {
    let mut sim = one_device();

    assert!(sim.status().connected, "connected by default");

    // configure stores config
    let cfg = DeviceConfig { name: Some("tree".into()), priority: Some(120) };
    sim.configure(&cfg).unwrap();
    assert_eq!(sim.config(), cfg);

    // firmware refused while the device is live
    assert!(sim.update_firmware(b"fw").is_err(), "must refuse firmware on a live device");

    // disconnect, then firmware allowed; empty image rejected
    sim.disconnect();
    assert!(!sim.status().connected);
    sim.update_firmware(b"fw").unwrap();
    assert_eq!(sim.firmware_updates(), 1);
    assert!(sim.update_firmware(b"").is_err(), "empty image rejected");

    // a frame bumps the counter; reboot resets it
    sim.connect().unwrap();
    sim.send_physical(&frame(0, 0));
    assert!(sim.frames_sent() >= 1);
    sim.reboot().unwrap();
    assert_eq!(sim.frames_sent(), 0, "reboot resets the frame counter");
}

#[test]
fn a_new_simulator_mirrors_zeroed_universes_it_owns() {
    let sim = SimulatorDevice::new(7, &[3, 4]);
    assert_eq!(sim.id(), 7);
    assert_eq!(sim.frames_sent(), 0);
    assert_eq!(sim.firmware_updates(), 0);
    assert_eq!(sim.channel(3, 0), Some(0));
    assert_eq!(sim.channel(4, 511), Some(0));
    assert_eq!(sim.channel(4, 512), None, "channel past the universe");
    assert_eq!(sim.channel(5, 0), None, "universe not owned");
    assert_eq!(sim.config(), DeviceConfig::default());
}

#[test]
fn a_channel_reads_the_last_frame_sent_to_its_universe() {
    let mut sim = SimulatorDevice::new(1, &[0, 1]);
    sim.send_physical(&frame(0, 255));
    assert_eq!(sim.channel(0, 0), Some(255));
    let mut two = frame(1, 9);
    two.extend(frame(1, 10));
    sim.send_physical(&two);
    assert_eq!(sim.channel(1, 0), Some(10), "the later copy of a universe wins");
    assert_eq!(sim.channel(0, 0), Some(255), "an untouched universe keeps its data");
    assert_eq!(sim.frames_sent(), 2);
}

#[test]
fn universes_the_device_does_not_own_are_ignored() {
    let mut sim = SimulatorDevice::new(1, &[0]);
    sim.send_physical(&frame(9, 200));
    assert_eq!(sim.channel(0, 0), Some(0));
    assert_eq!(sim.channel(9, 0), None);
    assert_eq!(sim.frames_sent(), 1, "the frame is still counted");
}

#[test]
fn refusals_name_their_reason() {
    let mut sim = one_device();
    assert_eq!(sim.update_firmware(b"fw"), Err(DeviceError::Live));
    assert_eq!(
        DeviceError::Live.message(),
        "refusing firmware update: device is live; disconnect it first"
    );
    sim.disconnect();
    assert_eq!(sim.update_firmware(b""), Err(DeviceError::EmptyImage));
    assert_eq!(DeviceError::EmptyImage.message(), "empty firmware image");
    assert_eq!(sim.firmware_updates(), 0, "a refused image is not counted");
}

/// One keep-alive: sends the last recorded frame, if any; says whether it sent.
fn beat(hb: &led_platform::heartbeat::Heartbeat<Vec<UniverseData>>, sim: &mut SimulatorDevice) -> bool {
    match hb.beat() {
        Some(frame) => {
            sim.send_physical(frame);
            true
        }
        None => false,
    }
}

#[test]
fn heartbeat_resends_last_valid_and_never_zeros() {
    let mut sim1 = SimulatorDevice::new(1, &[0]);
    let mut hb = led_platform::heartbeat::Heartbeat::new();

    // No valid frame yet: a beat must send NOTHING — never a fabricated zero frame.
    assert!(!beat(&hb, &mut sim1), "no frame yet => nothing sent");
    assert_eq!(sim1.frames_sent(), 0, "must not blast a blackout frame");

    // Record a non-zero frame, then beat: the LAST VALID frame is resent.
    let mut data = vec![0u8; 512];
    data[1] = 255;
    hb.record(vec![UniverseData { universe: 0, data }]);

    assert!(beat(&hb, &mut sim1), "valid frame exists => resent");
    assert_eq!(sim1.channel(0, 1), Some(255), "resent the real frame, not zeros");
    assert_eq!(sim1.frames_sent(), 1);
}

#[test]
fn heartbeat_never_sends_zero_frame_when_record_never_called() {
    let mut sim1 = SimulatorDevice::new(1, &[0]);
    let hb = led_platform::heartbeat::Heartbeat::new();
    // no hb.record() call
    let result = beat(&hb, &mut sim1);
    assert!(!result, "beat with no recorded frame must return false (sent nothing)");
}
