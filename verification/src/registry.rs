//! The registry of hardware presets: plain data rows, found by name.
//!
//! Adding hardware means adding a row: no enum variant, no code path. A row holds only
//! literals; turning it into a [`HardwareProfile`] is the registry's job, and so is keeping
//! names unambiguous: registering an existing name replaces that row.
//!
//! The values are plausible starting points per controller family, not measurements; each
//! installation adjusts them against its datasheet and power supply. Declared power and
//! calibration are `f32` bit patterns, as in the profile.

use vstd::prelude::*;

use crate::text::str_eq;
use crate::profile::{
    Calibration, Capabilities, ColorFormat, HardwareProfile, Identity, Limits, OutputInterface,
    Power, Protocol, RgbOrder, Transport, WhiteMode, ETHERNET_MTU, SCHEMA_VERSION,
};

verus! {

/// One row of the preset table: plain data, flat so the table stays readable.
#[derive(Clone, Copy, Debug, PartialEq)]
pub struct PresetRow {
    /// Stable key the preset is found by.
    pub name: &'static str,
    pub vendor: &'static str,
    pub model: &'static str,
    pub firmware: &'static str,
    pub firmware_version: &'static str,
    pub protocol: Protocol,
    pub output_interface: OutputInterface,
    pub color: ColorFormat,
    pub ports: u16,
    pub supports_discovery: bool,
    pub supports_metrics: bool,
    pub pixels_per_universe: u16,
    pub max_pixels: u32,
    pub refresh_hz: u16,
    pub mtu_bytes: u16,
    pub heartbeat_ms: u16,
    pub voltage_v: u32,
    pub max_current_a: u32,
    pub gamma: u32,
    pub brightness: u32,
}

/// No two rows share a name.
pub open spec fn names_unique(rows: Seq<PresetRow>) -> bool {
    forall|i: int, j: int|
        0 <= i < rows.len() && 0 <= j < rows.len() && i != j ==> (#[trigger] rows[i]).name@
            != (#[trigger] rows[j]).name@
}

/// The built-in preset table: one row per supported node type.
pub open spec fn builtin_rows() -> Seq<PresetRow> {
    seq![
        PresetRow {
            name: "esp32-devkit-wled-artnet",
            vendor: "Espressif",
            model: "ESP32 DevKit V1",
            firmware: "WLED",
            firmware_version: "16.0.1",
            protocol: Protocol::ArtNet,
            output_interface: OutputInterface::WiFi,
            color: ColorFormat::Rgb(RgbOrder::Grb),
            ports: 1,
            supports_discovery: true,
            supports_metrics: true,
            pixels_per_universe: 170,
            max_pixels: 1_500,
            refresh_hz: 40,
            mtu_bytes: ETHERNET_MTU,
            heartbeat_ms: 800,
            voltage_v: 0x40a0_0000,
            max_current_a: 0x4120_0000,
            gamma: 0x400c_cccd,
            brightness: 0x3f80_0000,
        },
        PresetRow {
            name: "esp32-poe-wled-ddp",
            vendor: "Olimex",
            model: "ESP32-POE",
            firmware: "WLED",
            firmware_version: "16.0.1",
            protocol: Protocol::Ddp,
            output_interface: OutputInterface::Ethernet,
            color: ColorFormat::Rgb(RgbOrder::Grb),
            ports: 1,
            supports_discovery: true,
            supports_metrics: true,
            pixels_per_universe: 170,
            max_pixels: 1_500,
            refresh_hz: 44,
            mtu_bytes: ETHERNET_MTU,
            heartbeat_ms: 800,
            voltage_v: 0x40a0_0000,
            max_current_a: 0x4120_0000,
            gamma: 0x400c_cccd,
            brightness: 0x3f80_0000,
        },
        PresetRow {
            name: "falcon-f16v3-sacn",
            vendor: "Falcon",
            model: "F16V3",
            firmware: "stock",
            firmware_version: "unknown",
            protocol: Protocol::Sacn,
            output_interface: OutputInterface::Ethernet,
            color: ColorFormat::Rgb(RgbOrder::Grb),
            ports: 16,
            supports_discovery: true,
            supports_metrics: false,
            pixels_per_universe: 170,
            max_pixels: 16_384,
            refresh_hz: 44,
            mtu_bytes: ETHERNET_MTU,
            heartbeat_ms: 800,
            voltage_v: 0x4140_0000,
            max_current_a: 0x4270_0000,
            gamma: 0x400c_cccd,
            brightness: 0x3f80_0000,
        },
        PresetRow {
            name: "advatek-pixlite16-sacn",
            vendor: "Advatek",
            model: "PixLite 16 Mk2",
            firmware: "stock",
            firmware_version: "unknown",
            protocol: Protocol::Sacn,
            output_interface: OutputInterface::Ethernet,
            color: ColorFormat::Rgb(RgbOrder::Grb),
            ports: 16,
            supports_discovery: true,
            supports_metrics: false,
            pixels_per_universe: 170,
            max_pixels: 16_320,
            refresh_hz: 44,
            mtu_bytes: ETHERNET_MTU,
            heartbeat_ms: 800,
            voltage_v: 0x4140_0000,
            max_current_a: 0x4270_0000,
            gamma: 0x400c_cccd,
            brightness: 0x3f80_0000,
        },
        PresetRow {
            name: "raspberry-fpp-sacn",
            vendor: "Raspberry Pi Foundation",
            model: "Raspberry Pi 4",
            firmware: "FPP",
            firmware_version: "unknown",
            protocol: Protocol::Sacn,
            output_interface: OutputInterface::Ethernet,
            color: ColorFormat::Rgb(RgbOrder::Grb),
            ports: 1,
            supports_discovery: true,
            supports_metrics: true,
            pixels_per_universe: 170,
            max_pixels: 32_768,
            refresh_hz: 44,
            mtu_bytes: ETHERNET_MTU,
            heartbeat_ms: 800,
            voltage_v: 0x40a0_0000,
            max_current_a: 0x41a0_0000,
            gamma: 0x400c_cccd,
            brightness: 0x3f80_0000,
        },
        PresetRow {
            name: "generic-sk6812-rgbw-sacn",
            vendor: "generic",
            model: "SK6812 RGBW strip",
            firmware: "n/a",
            firmware_version: "n/a",
            protocol: Protocol::Sacn,
            output_interface: OutputInterface::Ethernet,
            color: ColorFormat::Rgbw(RgbOrder::Grb, WhiteMode::Min),
            ports: 1,
            supports_discovery: false,
            supports_metrics: false,
            pixels_per_universe: 128,
            max_pixels: 4_096,
            refresh_hz: 44,
            mtu_bytes: ETHERNET_MTU,
            heartbeat_ms: 800,
            voltage_v: 0x40a0_0000,
            max_current_a: 0x41a0_0000,
            gamma: 0x400c_cccd,
            brightness: 0x3f80_0000,
        },
        PresetRow {
            name: "custom",
            vendor: "custom",
            model: "custom",
            firmware: "custom",
            firmware_version: "0",
            protocol: Protocol::Sacn,
            output_interface: OutputInterface::Ethernet,
            color: ColorFormat::Rgb(RgbOrder::Rgb),
            ports: 1,
            supports_discovery: false,
            supports_metrics: false,
            pixels_per_universe: 170,
            max_pixels: 1_024,
            refresh_hz: 40,
            mtu_bytes: ETHERNET_MTU,
            heartbeat_ms: 800,
            voltage_v: 0x40a0_0000,
            max_current_a: 0x40a0_0000,
            gamma: 0x400c_cccd,
            brightness: 0x3f80_0000,
        },
    ]
}

/// The built-in presets.
pub fn builtin_presets() -> (v: Vec<PresetRow>)
    ensures
        v@ == builtin_rows(),
        names_unique(v@),
{
    let v = vec![
        PresetRow {
            name: "esp32-devkit-wled-artnet",
            vendor: "Espressif",
            model: "ESP32 DevKit V1",
            firmware: "WLED",
            firmware_version: "16.0.1",
            protocol: Protocol::ArtNet,
            output_interface: OutputInterface::WiFi,
            color: ColorFormat::Rgb(RgbOrder::Grb),
            ports: 1,
            supports_discovery: true,
            supports_metrics: true,
            pixels_per_universe: 170,
            max_pixels: 1_500,
            refresh_hz: 40,
            mtu_bytes: ETHERNET_MTU,
            heartbeat_ms: 800,
            voltage_v: 0x40a0_0000,
            max_current_a: 0x4120_0000,
            gamma: 0x400c_cccd,
            brightness: 0x3f80_0000,
        },
        PresetRow {
            name: "esp32-poe-wled-ddp",
            vendor: "Olimex",
            model: "ESP32-POE",
            firmware: "WLED",
            firmware_version: "16.0.1",
            protocol: Protocol::Ddp,
            output_interface: OutputInterface::Ethernet,
            color: ColorFormat::Rgb(RgbOrder::Grb),
            ports: 1,
            supports_discovery: true,
            supports_metrics: true,
            pixels_per_universe: 170,
            max_pixels: 1_500,
            refresh_hz: 44,
            mtu_bytes: ETHERNET_MTU,
            heartbeat_ms: 800,
            voltage_v: 0x40a0_0000,
            max_current_a: 0x4120_0000,
            gamma: 0x400c_cccd,
            brightness: 0x3f80_0000,
        },
        PresetRow {
            name: "falcon-f16v3-sacn",
            vendor: "Falcon",
            model: "F16V3",
            firmware: "stock",
            firmware_version: "unknown",
            protocol: Protocol::Sacn,
            output_interface: OutputInterface::Ethernet,
            color: ColorFormat::Rgb(RgbOrder::Grb),
            ports: 16,
            supports_discovery: true,
            supports_metrics: false,
            pixels_per_universe: 170,
            max_pixels: 16_384,
            refresh_hz: 44,
            mtu_bytes: ETHERNET_MTU,
            heartbeat_ms: 800,
            voltage_v: 0x4140_0000,
            max_current_a: 0x4270_0000,
            gamma: 0x400c_cccd,
            brightness: 0x3f80_0000,
        },
        PresetRow {
            name: "advatek-pixlite16-sacn",
            vendor: "Advatek",
            model: "PixLite 16 Mk2",
            firmware: "stock",
            firmware_version: "unknown",
            protocol: Protocol::Sacn,
            output_interface: OutputInterface::Ethernet,
            color: ColorFormat::Rgb(RgbOrder::Grb),
            ports: 16,
            supports_discovery: true,
            supports_metrics: false,
            pixels_per_universe: 170,
            max_pixels: 16_320,
            refresh_hz: 44,
            mtu_bytes: ETHERNET_MTU,
            heartbeat_ms: 800,
            voltage_v: 0x4140_0000,
            max_current_a: 0x4270_0000,
            gamma: 0x400c_cccd,
            brightness: 0x3f80_0000,
        },
        PresetRow {
            name: "raspberry-fpp-sacn",
            vendor: "Raspberry Pi Foundation",
            model: "Raspberry Pi 4",
            firmware: "FPP",
            firmware_version: "unknown",
            protocol: Protocol::Sacn,
            output_interface: OutputInterface::Ethernet,
            color: ColorFormat::Rgb(RgbOrder::Grb),
            ports: 1,
            supports_discovery: true,
            supports_metrics: true,
            pixels_per_universe: 170,
            max_pixels: 32_768,
            refresh_hz: 44,
            mtu_bytes: ETHERNET_MTU,
            heartbeat_ms: 800,
            voltage_v: 0x40a0_0000,
            max_current_a: 0x41a0_0000,
            gamma: 0x400c_cccd,
            brightness: 0x3f80_0000,
        },
        PresetRow {
            name: "generic-sk6812-rgbw-sacn",
            vendor: "generic",
            model: "SK6812 RGBW strip",
            firmware: "n/a",
            firmware_version: "n/a",
            protocol: Protocol::Sacn,
            output_interface: OutputInterface::Ethernet,
            color: ColorFormat::Rgbw(RgbOrder::Grb, WhiteMode::Min),
            ports: 1,
            supports_discovery: false,
            supports_metrics: false,
            pixels_per_universe: 128,
            max_pixels: 4_096,
            refresh_hz: 44,
            mtu_bytes: ETHERNET_MTU,
            heartbeat_ms: 800,
            voltage_v: 0x40a0_0000,
            max_current_a: 0x41a0_0000,
            gamma: 0x400c_cccd,
            brightness: 0x3f80_0000,
        },
        PresetRow {
            name: "custom",
            vendor: "custom",
            model: "custom",
            firmware: "custom",
            firmware_version: "0",
            protocol: Protocol::Sacn,
            output_interface: OutputInterface::Ethernet,
            color: ColorFormat::Rgb(RgbOrder::Rgb),
            ports: 1,
            supports_discovery: false,
            supports_metrics: false,
            pixels_per_universe: 170,
            max_pixels: 1_024,
            refresh_hz: 40,
            mtu_bytes: ETHERNET_MTU,
            heartbeat_ms: 800,
            voltage_v: 0x40a0_0000,
            max_current_a: 0x40a0_0000,
            gamma: 0x400c_cccd,
            brightness: 0x3f80_0000,
        },
    ];
    proof {
        reveal_strlit("esp32-devkit-wled-artnet");
        reveal_strlit("esp32-poe-wled-ddp");
        reveal_strlit("falcon-f16v3-sacn");
        reveal_strlit("advatek-pixlite16-sacn");
        reveal_strlit("raspberry-fpp-sacn");
        reveal_strlit("generic-sk6812-rgbw-sacn");
        reveal_strlit("custom");
        assert(v@[0].name@.len() == 24 && v@[0].name@[0] == 'e');
        assert(v@[1].name@.len() == 18 && v@[1].name@[0] == 'e');
        assert(v@[2].name@.len() == 17 && v@[2].name@[0] == 'f');
        assert(v@[3].name@.len() == 22 && v@[3].name@[0] == 'a');
        assert(v@[4].name@.len() == 18 && v@[4].name@[0] == 'r');
        assert(v@[5].name@.len() == 24 && v@[5].name@[0] == 'g');
        assert(v@[6].name@.len() == 6 && v@[6].name@[0] == 'c');
        assert forall|i: int, j: int|
            0 <= i < v@.len() && 0 <= j < v@.len() && i != j implies (#[trigger] v@[i]).name@
                != (#[trigger] v@[j]).name@ by {
            if i == 0 {
                assert(v@[i].name@.len() == 24 && v@[i].name@[0] == 'e');
            } else if i == 1 {
                assert(v@[i].name@.len() == 18 && v@[i].name@[0] == 'e');
            } else if i == 2 {
                assert(v@[i].name@.len() == 17 && v@[i].name@[0] == 'f');
            } else if i == 3 {
                assert(v@[i].name@.len() == 22 && v@[i].name@[0] == 'a');
            } else if i == 4 {
                assert(v@[i].name@.len() == 18 && v@[i].name@[0] == 'r');
            } else if i == 5 {
                assert(v@[i].name@.len() == 24 && v@[i].name@[0] == 'g');
            } else if i == 6 {
                assert(v@[i].name@.len() == 6 && v@[i].name@[0] == 'c');
            }
        }
        assert(v@ =~= builtin_rows());
    }
    v
}

/// The profile a row describes.
pub open spec fn profile_matches(p: HardwareProfile, row: PresetRow) -> bool {
    &&& p.schema_version == SCHEMA_VERSION
    &&& p.identity.vendor@ == row.vendor@
    &&& p.identity.model@ == row.model@
    &&& p.identity.firmware@ == row.firmware@
    &&& p.identity.firmware_version@ == row.firmware_version@
    &&& p.identity.serial is None
    &&& p.capabilities == Capabilities {
        protocol: row.protocol,
        output_interface: row.output_interface,
        color: row.color,
        ports: row.ports,
        supports_discovery: row.supports_discovery,
        supports_metrics: row.supports_metrics,
    }
    &&& p.limits == Limits {
        pixels_per_universe: row.pixels_per_universe,
        max_pixels: row.max_pixels,
        refresh_hz: row.refresh_hz,
    }
    &&& p.transport == Transport { mtu_bytes: row.mtu_bytes, heartbeat_ms: row.heartbeat_ms }
    &&& p.power == Power { voltage_v: row.voltage_v, max_current_a: row.max_current_a }
    &&& p.calibration == Calibration { gamma: row.gamma, brightness: row.brightness }
}

/// Turns a row into a profile: assignment only, no rule (validating is not this step).
pub fn row_to_profile(row: &PresetRow) -> (p: HardwareProfile)
    ensures
        profile_matches(p, *row),
{
    HardwareProfile {
        schema_version: SCHEMA_VERSION,
        identity: Identity {
            vendor: row.vendor.to_owned(),
            model: row.model.to_owned(),
            firmware: row.firmware.to_owned(),
            firmware_version: row.firmware_version.to_owned(),
            serial: None,
        },
        capabilities: Capabilities {
            protocol: row.protocol,
            output_interface: row.output_interface,
            color: row.color,
            ports: row.ports,
            supports_discovery: row.supports_discovery,
            supports_metrics: row.supports_metrics,
        },
        limits: Limits {
            pixels_per_universe: row.pixels_per_universe,
            max_pixels: row.max_pixels,
            refresh_hz: row.refresh_hz,
        },
        transport: Transport { mtu_bytes: row.mtu_bytes, heartbeat_ms: row.heartbeat_ms },
        power: Power { voltage_v: row.voltage_v, max_current_a: row.max_current_a },
        calibration: Calibration { gamma: row.gamma, brightness: row.brightness },
    }
}

/// The registry: the built-in presets plus the ones an installation adds.
#[derive(Debug)]
pub struct HardwareRegistry {
    rows: Vec<PresetRow>,
}

impl View for HardwareRegistry {
    type V = Seq<PresetRow>;

    closed spec fn view(&self) -> Seq<PresetRow> {
        self.rows@
    }
}

/// The index of the row named `name`, if any.
pub open spec fn has_name(rows: Seq<PresetRow>, name: Seq<char>) -> bool {
    exists|i: int| 0 <= i < rows.len() && #[trigger] rows[i].name@ == name
}

/// The rows after registering `row`: it replaces the row of the same name, or comes last.
pub open spec fn registered(rows: Seq<PresetRow>, row: PresetRow) -> Seq<PresetRow> {
    if has_name(rows, row.name@) {
        rows.update(choose|i: int| 0 <= i < rows.len() && #[trigger] rows[i].name@ == row.name@, row)
    } else {
        rows.push(row)
    }
}

impl Clone for HardwareRegistry {
    fn clone(&self) -> (r: Self)
        ensures
            r@ == self@,
    {
        proof {
            use_type_invariant(self);
        }
        let mut rows: Vec<PresetRow> = Vec::new();
        let mut i: usize = 0;
        while i < self.rows.len()
            invariant
                i <= self.rows@.len(),
                rows@ == self.rows@.subrange(0, i as int),
            decreases self.rows@.len() - i,
        {
            rows.push(self.rows[i]);
            assert(rows@ =~= self.rows@.subrange(0, i + 1));
            i = i + 1;
        }
        assert(rows@ =~= self.rows@);
        HardwareRegistry { rows }
    }
}

impl HardwareRegistry {
    #[verifier::type_invariant]
    spec fn wf(self) -> bool {
        names_unique(self.rows@)
    }

    /// An empty registry, for an installation that wants only its own presets.
    pub fn new() -> (r: Self)
        ensures
            r@ == Seq::<PresetRow>::empty(),
            names_unique(r@),
    {
        HardwareRegistry { rows: Vec::new() }
    }

    /// A registry with every built-in preset.
    pub fn with_builtin() -> (r: Self)
        ensures
            r@ == builtin_rows(),
            names_unique(r@),
    {
        HardwareRegistry { rows: builtin_presets() }
    }

    fn find(&self, name: &str) -> (r: Option<usize>)
        ensures
            match r {
                Some(i) => i < self@.len() && self@[i as int].name@ == name@,
                None => !has_name(self@, name@),
            },
    {
        let mut i: usize = 0;
        while i < self.rows.len()
            invariant
                i <= self.rows@.len(),
                forall|j: int| 0 <= j < i ==> self.rows@[j].name@ != name@,
            decreases self.rows@.len() - i,
        {
            if str_eq(self.rows[i].name, name) {
                return Some(i);
            }
            i = i + 1;
        }
        None
    }

    /// Adds a preset; a name already present is replaced, which keeps lookups unambiguous.
    pub fn register(&mut self, row: PresetRow)
        ensures
            final(self)@ == registered(old(self)@, row),
            names_unique(final(self)@),
    {
        proof {
            use_type_invariant(&*self);
        }
        match self.find(row.name) {
            Some(i) => {
                let ghost k = choose|k: int| 0 <= k < self@.len() && #[trigger] self@[k].name@ == row.name@;
                assert(k == i);
                let mut rows: Vec<PresetRow> = Vec::new();
                std::mem::swap(&mut rows, &mut self.rows);
                rows.set(i, row);
                proof {
                    assert forall|a: int, b: int|
                        0 <= a < rows@.len() && 0 <= b < rows@.len() && a != b implies (#[trigger] rows@[a]).name@
                            != (#[trigger] rows@[b]).name@ by {
                        if a != i && b != i {
                            assert(rows@[a] == old(self)@[a]);
                            assert(rows@[b] == old(self)@[b]);
                        } else if a == i {
                            assert(rows@[b] == old(self)@[b]);
                        } else {
                            assert(rows@[a] == old(self)@[a]);
                        }
                    }
                }
                self.rows = rows;
            },
            None => {
                let mut rows: Vec<PresetRow> = Vec::new();
                std::mem::swap(&mut rows, &mut self.rows);
                rows.push(row);
                proof {
                    assert forall|a: int, b: int|
                        0 <= a < rows@.len() && 0 <= b < rows@.len() && a != b implies (#[trigger] rows@[a]).name@
                            != (#[trigger] rows@[b]).name@ by {
                        if a < old(self)@.len() && b < old(self)@.len() {
                            assert(rows@[a] == old(self)@[a]);
                            assert(rows@[b] == old(self)@[b]);
                        } else if a < old(self)@.len() {
                            assert(rows@[a] == old(self)@[a]);
                        } else {
                            assert(rows@[b] == old(self)@[b]);
                        }
                    }
                }
                self.rows = rows;
            },
        }
    }

    /// The row named `name`. Names are unique, so it is the one row of that name.
    pub fn get(&self, name: &str) -> (r: Option<&PresetRow>)
        ensures
            names_unique(self@),
            match r {
                Some(row) => row.name@ == name@ && self@.contains(*row),
                None => !has_name(self@, name@),
            },
    {
        proof {
            use_type_invariant(self);
        }
        match self.find(name) {
            Some(i) => Some(&self.rows[i]),
            None => None,
        }
    }

    /// The profile of the preset named `name`; no fallback for an unknown name.
    pub fn profile(&self, name: &str) -> (r: Option<HardwareProfile>)
        ensures
            match r {
                Some(p) => exists|i: int|
                    0 <= i < self@.len() && #[trigger] self@[i].name@ == name@ && profile_matches(
                        p,
                        self@[i],
                    ),
                None => !has_name(self@, name@),
            },
    {
        match self.find(name) {
            Some(i) => Some(row_to_profile(&self.rows[i])),
            None => None,
        }
    }

    /// Registered names, in registration order.
    pub fn names(&self) -> (v: Vec<&'static str>)
        ensures
            v@.len() == self@.len(),
            forall|i: int| 0 <= i < v@.len() ==> v@[i] == self@[i].name,
    {
        let mut v: Vec<&'static str> = Vec::new();
        let mut i: usize = 0;
        while i < self.rows.len()
            invariant
                i <= self.rows@.len(),
                v@.len() == i,
                forall|j: int| 0 <= j < i ==> v@[j] == self.rows@[j].name,
            decreases self.rows@.len() - i,
        {
            v.push(self.rows[i].name);
            i = i + 1;
        }
        v
    }

    /// How many presets are registered.
    pub fn len(&self) -> (n: usize)
        ensures
            n == self@.len(),
    {
        self.rows.len()
    }

    /// `true` when no preset is registered.
    pub fn is_empty(&self) -> (b: bool)
        ensures
            b == (self@.len() == 0),
    {
        self.rows.len() == 0
    }
}

} // verus!
