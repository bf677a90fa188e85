//! Design-time validation of a [`HardwareProfile`].
//!
//! Detecting "no driver" needs to know which drivers exist, and the descriptor knows no
//! driver: whoever does passes an [`Available`] as data, and the validator only compares
//! data. WiFi is reported as a warning: the network guard is what blocks a live show.

use vstd::prelude::*;

use crate::profile::{
    channels_of, ColorFormat, HardwareProfile, OutputInterface, Protocol, SCHEMA_VERSION,
    UNIVERSE_SIZE,
};

verus! {

/// Capabilities the environment really offers, passed as data by whoever knows the drivers.
#[derive(Clone, Copy, Debug)]
pub struct Available<'a> {
    /// Physical interfaces with a driver.
    pub interfaces: &'a [OutputInterface],
    /// Wire protocols with a driver.
    pub protocols: &'a [Protocol],
}

/// Gravity of a finding. `Error` forbids using the profile; `Warning` is informative.
#[derive(Clone, Copy, Debug, PartialEq, Eq, Structural)]
pub enum Severity {
    Error,
    Warning,
}

/// What validation found. Each variant names the rule and carries the offending value.
#[derive(Clone, Copy, Debug, PartialEq)]
pub enum Finding {
    /// Unknown `schema_version`: migration is explicit, never best-effort.
    UnknownSchemaVersion { found: u16, expected: u16 },
    /// The declared interface has no driver.
    InterfaceHasNoDriver { interface: OutputInterface },
    /// The declared protocol has no driver.
    ProtocolHasNoDriver { protocol: Protocol },
    /// The declared pixels do not fit one universe with this many channels per pixel. Only
    /// universe-addressed protocols (sACN, Art-Net) are held to it.
    PixelsExceedUniverse { pixels_per_universe: u16, channels_per_pixel: u16, universe_size: u16 },
    /// A mandatory limit is zero.
    ZeroLimit { field: &'static str },
    /// Invalid declared power budget.
    InvalidPower { field: &'static str },
    /// Calibration out of range.
    InvalidCalibration { field: &'static str },
    /// RGBW over DDP: the DDP header declares 8-bit RGB, which a strict receiver may
    /// misread. A known limitation: a warning.
    RgbwOverDdpDataType,
    /// WiFi declared: forbidden for a live show; the network guard is what blocks it.
    WifiNotPermittedLive,
}

/// The gravity of each rule.
pub open spec fn severity_of(f: Finding) -> Severity {
    match f {
        Finding::RgbwOverDdpDataType | Finding::WifiNotPermittedLive => Severity::Warning,
        _ => Severity::Error,
    }
}

/// Whether a finding is an error.
pub open spec fn is_error(f: Finding) -> bool {
    severity_of(f) == Severity::Error
}

/// Whether a finding is a warning.
pub open spec fn is_warning(f: Finding) -> bool {
    severity_of(f) == Severity::Warning
}

impl Finding {
    /// The gravity of this rule.
    pub fn severity(self) -> (s: Severity)
        ensures
            s == severity_of(self),
    {
        match self {
            Finding::RgbwOverDdpDataType | Finding::WifiNotPermittedLive => Severity::Warning,
            _ => Severity::Error,
        }
    }
}

/// The result of validation: every finding, in the order the rules ran.
#[derive(Clone, Debug, Default, PartialEq)]
pub struct Validation {
    pub findings: Vec<Finding>,
}

impl Validation {
    /// `true` when at least one finding is an error.
    pub fn has_errors(&self) -> (b: bool)
        ensures
            b == exists|i: int| 0 <= i < self.findings@.len() && is_error(#[trigger] self.findings@[i]),
    {
        let mut i: usize = 0;
        while i < self.findings.len()
            invariant
                i <= self.findings@.len(),
                forall|j: int| 0 <= j < i ==> !is_error(#[trigger] self.findings@[j]),
            decreases self.findings@.len() - i,
        {
            if self.findings[i].severity() == Severity::Error {
                return true;
            }
            i = i + 1;
        }
        false
    }

    /// The error findings, in order.
    pub fn errors(&self) -> (r: Vec<Finding>)
        ensures
            r@ == self.findings@.filter(|f: Finding| is_error(f)),
    {
        let r = self.of_severity(Severity::Error);
        proof {
            assert((|f: Finding| severity_of(f) == Severity::Error) =~= (|f: Finding| is_error(f)));
        }
        r
    }

    /// The warnings, in order.
    pub fn warnings(&self) -> (r: Vec<Finding>)
        ensures
            r@ == self.findings@.filter(|f: Finding| is_warning(f)),
    {
        let r = self.of_severity(Severity::Warning);
        proof {
            assert((|f: Finding| severity_of(f) == Severity::Warning) =~= (|f: Finding| is_warning(f)));
        }
        r
    }

    fn of_severity(&self, s: Severity) -> (r: Vec<Finding>)
        ensures
            r@ == self.findings@.filter(|f: Finding| severity_of(f) == s),
    {
        let ghost pred = |f: Finding| severity_of(f) == s;
        let mut out: Vec<Finding> = Vec::new();
        let mut i: usize = 0;
        while i < self.findings.len()
            invariant
                i <= self.findings@.len(),
                out@ == self.findings@.subrange(0, i as int).filter(pred),
                pred == (|f: Finding| severity_of(f) == s),
            decreases self.findings@.len() - i,
        {
            let f = self.findings[i];
            proof {
                assert(self.findings@.subrange(0, i + 1) =~= self.findings@.subrange(
                    0,
                    i as int,
                ).push(f));
                self.findings@.subrange(0, i as int).lemma_filter_push(f, pred);
            }
            let fs = f.severity();
            if fs == s {
                out.push(f);
            }

            i = i + 1;
        }
        assert(self.findings@.subrange(0, self.findings@.len() as int) =~= self.findings@);
        out
    }
}

/// An `f32` bit pattern is strictly positive: sign bit clear, not zero, not NaN (positive
/// infinity counts). This is `x > 0.0`, which is false for every NaN.
pub open spec fn f32_positive(bits: u32) -> bool {
    0 < bits <= 0x7f80_0000
}

/// An `f32` bit pattern lies in `0.0..=1.0`: from `+0.0` up to `1.0`, or `-0.0`.
pub open spec fn f32_in_unit(bits: u32) -> bool {
    bits <= 0x3f80_0000 || bits == 0x8000_0000
}

/// Universe-addressed protocols. DDP is addressed by byte.
pub open spec fn universe_based(p: Protocol) -> bool {
    match p {
        Protocol::Sacn | Protocol::ArtNet => true,
        Protocol::Ddp => false,
    }
}

/// `f` when `c` holds, nothing otherwise.
pub open spec fn when(c: bool, f: Finding) -> Seq<Finding> {
    if c { seq![f] } else { Seq::empty() }
}

/// Every finding for a profile, rule by rule, in the order the rules run.
pub open spec fn findings_spec(
    p: HardwareProfile,
    interfaces: Seq<OutputInterface>,
    protocols: Seq<Protocol>,
) -> Seq<Finding> {
    let caps = p.capabilities;
    let ch = channels_of(caps.color);
    let ppu = p.limits.pixels_per_universe;
    when(
        p.schema_version != SCHEMA_VERSION,
        Finding::UnknownSchemaVersion { found: p.schema_version, expected: SCHEMA_VERSION },
    ) + when(
        !interfaces.contains(caps.output_interface),
        Finding::InterfaceHasNoDriver { interface: caps.output_interface },
    ) + when(
        !protocols.contains(caps.protocol),
        Finding::ProtocolHasNoDriver { protocol: caps.protocol },
    ) + when(
        universe_based(caps.protocol) && ppu * ch > UNIVERSE_SIZE,
        Finding::PixelsExceedUniverse {
            pixels_per_universe: ppu,
            channels_per_pixel: ch as u16,
            universe_size: UNIVERSE_SIZE as u16,
        },
    ) + when(ppu == 0, Finding::ZeroLimit { field: "pixels_per_universe" }) + when(
        p.limits.max_pixels == 0,
        Finding::ZeroLimit { field: "max_pixels" },
    ) + when(p.limits.refresh_hz == 0, Finding::ZeroLimit { field: "refresh_hz" }) + when(
        !f32_positive(p.power.voltage_v),
        Finding::InvalidPower { field: "voltage_v" },
    ) + when(!f32_positive(p.power.max_current_a), Finding::InvalidPower { field: "max_current_a" })
        + when(!f32_positive(p.calibration.gamma), Finding::InvalidCalibration { field: "gamma" })
        + when(
        !f32_in_unit(p.calibration.brightness),
        Finding::InvalidCalibration { field: "brightness" },
    ) + when(
        caps.color is Rgbw && caps.protocol == Protocol::Ddp,
        Finding::RgbwOverDdpDataType,
    ) + when(caps.output_interface == OutputInterface::WiFi, Finding::WifiNotPermittedLive)
}

fn is_positive(bits: u32) -> (b: bool)
    ensures
        b == f32_positive(bits),
{
    0 < bits && bits <= 0x7f80_0000
}

fn is_universe_based(p: Protocol) -> (b: bool)
    ensures
        b == universe_based(p),
{
    match p {
        Protocol::Sacn | Protocol::ArtNet => true,
        Protocol::Ddp => false,
    }
}

fn has_interface(s: &[OutputInterface], x: OutputInterface) -> (b: bool)
    ensures
        b == s@.contains(x),
{
    let mut i: usize = 0;
    while i < s.len()
        invariant
            i <= s@.len(),
            forall|j: int| 0 <= j < i ==> s@[j] != x,
        decreases s@.len() - i,
    {
        if s[i] == x {
            return true;
        }
        i = i + 1;
    }
    false
}

fn has_protocol(s: &[Protocol], x: Protocol) -> (b: bool)
    ensures
        b == s@.contains(x),
{
    let mut i: usize = 0;
    while i < s.len()
        invariant
            i <= s@.len(),
            forall|j: int| 0 <= j < i ==> s@[j] != x,
        decreases s@.len() - i,
    {
        if s[i] == x {
            return true;
        }
        i = i + 1;
    }
    false
}

/// Appends `f` when `c` holds.
fn push_when(findings: &mut Vec<Finding>, c: bool, f: Finding)
    ensures
        final(findings)@ == old(findings)@ + when(c, f),
{
    if c {
        findings.push(f);
    }
}

/// Validates a profile against the capabilities really available. Every rule runs: the
/// findings accumulate instead of stopping at the first.
pub fn validate(profile: &HardwareProfile, available: &Available) -> (v: Validation)
    ensures
        v.findings@ == findings_spec(*profile, available.interfaces@, available.protocols@),
{
    let mut findings: Vec<Finding> = Vec::new();
    let caps = &profile.capabilities;
    let ppu = profile.limits.pixels_per_universe;

    // 1 · known schema version
    push_when(
        &mut findings,
        profile.schema_version != SCHEMA_VERSION,
        Finding::UnknownSchemaVersion { found: profile.schema_version, expected: SCHEMA_VERSION },
    );
    // 2 · the declared interface has a driver
    push_when(
        &mut findings,
        !has_interface(available.interfaces, caps.output_interface),
        Finding::InterfaceHasNoDriver { interface: caps.output_interface },
    );
    // 3 · the declared protocol has a driver
    push_when(
        &mut findings,
        !has_protocol(available.protocols, caps.protocol),
        Finding::ProtocolHasNoDriver { protocol: caps.protocol },
    );
    // 4 · the pixels fit the universe (universe-addressed protocols only)
    let channels = caps.color.channels();
    let needed = ppu as usize * channels;
    push_when(
        &mut findings,
        is_universe_based(caps.protocol) && needed > UNIVERSE_SIZE,
        Finding::PixelsExceedUniverse {
            pixels_per_universe: ppu,
            channels_per_pixel: channels as u16,
            universe_size: 512u16,
        },
    );
    // 5 · mandatory limits are not zero
    push_when(&mut findings, ppu == 0, Finding::ZeroLimit { field: "pixels_per_universe" });
    push_when(
        &mut findings,
        profile.limits.max_pixels == 0,
        Finding::ZeroLimit { field: "max_pixels" },
    );
    push_when(
        &mut findings,
        profile.limits.refresh_hz == 0,
        Finding::ZeroLimit { field: "refresh_hz" },
    );
    // 6 · the declared power budget is positive
    push_when(
        &mut findings,
        !is_positive(profile.power.voltage_v),
        Finding::InvalidPower { field: "voltage_v" },
    );
    push_when(
        &mut findings,
        !is_positive(profile.power.max_current_a),
        Finding::InvalidPower { field: "max_current_a" },
    );
    // 7 · calibration within range
    push_when(
        &mut findings,
        !is_positive(profile.calibration.gamma),
        Finding::InvalidCalibration { field: "gamma" },
    );
    let b = profile.calibration.brightness;
    push_when(
        &mut findings,
        !(b <= 0x3f80_0000 || b == 0x8000_0000),
        Finding::InvalidCalibration { field: "brightness" },
    );
    // 8 · RGBW over DDP: the DDP header's data type is RGB8 (a warning)
    let rgbw = match caps.color {
        ColorFormat::Rgbw(_, _) => true,
        ColorFormat::Rgb(_) => false,
    };
    push_when(
        &mut findings,
        rgbw && caps.protocol == Protocol::Ddp,
        Finding::RgbwOverDdpDataType,
    );
    // 9 · WiFi declared: forbidden live; the network guard blocks it (a warning)
    push_when(
        &mut findings,
        caps.output_interface == OutputInterface::WiFi,
        Finding::WifiNotPermittedLive,
    );
    proof {
        assert(findings@ =~= findings_spec(*profile, available.interfaces@, available.protocols@));
    }
    Validation { findings }
}

} // verus!
