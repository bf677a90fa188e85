//! The design-time capability descriptor of a hardware node, and the transport arithmetic
//! derived from it.
//!
//! A profile only *declares*: the protocol it speaks, the interface its bytes leave by, its
//! colour format, its numeric limits, its transport and its declared power and calibration.
//! Fragmentation is never declared: [`Transport::pixels_per_datagram`] derives it from the
//! MTU, the protocol and the colour format.
//!
//! The declared power budget and calibration are IEEE-754 single-precision values; they are
//! held here by their bit patterns (`f32::to_bits`), which is exactly what the validator
//! needs to decide the comparisons it makes on them.

use vstd::prelude::*;

verus! {

/// Version of this descriptor's schema. A profile with another version is rejected.
pub const SCHEMA_VERSION: u16 = 1;

/// Channels in one DMX universe.
pub const UNIVERSE_SIZE: usize = 512;

/// MTU of a plain Ethernet link.
pub const ETHERNET_MTU: u16 = 1500;

/// IPv4 (20) + UDP (8) header bytes taken out of the MTU before any payload.
pub const IP_UDP_OVERHEAD: usize = 28;

/// Hard ceiling on the gap between frames: a node silent for longer blanks itself.
pub const MAX_GAP_MS: u16 = 2400;

/// Bytes of DDP header in front of the pixel data.
pub const DDP_HEADER: usize = 10;

/// Bytes of Art-Net header in front of the pixel data.
pub const ARTNET_HEADER: usize = 18;

/// Order of the colour bytes on the wire.
#[derive(Clone, Copy, Debug, PartialEq, Eq, Hash, Structural)]
pub enum RgbOrder {
    Rgb,
    Rbg,
    Grb,
    Gbr,
    Brg,
    Bgr,
}

/// How the white channel of an RGBW pixel is derived.
#[derive(Clone, Copy, Debug, PartialEq, Eq, Hash, Structural)]
pub enum WhiteMode {
    /// White is the minimum of the three colour channels, and it is subtracted from them.
    MinSubtract,
}

impl WhiteMode {
    /// The short name of [`WhiteMode::MinSubtract`]: the same mode.
    #[allow(non_upper_case_globals)]
    pub const Min: WhiteMode = WhiteMode::MinSubtract;
}

/// Per-pixel colour format: three or four channels.
#[derive(Clone, Copy, Debug, PartialEq, Eq, Hash, Structural)]
pub enum ColorFormat {
    Rgb(RgbOrder),
    Rgbw(RgbOrder, WhiteMode),
}

/// Channels per pixel of a colour format.
pub open spec fn channels_of(c: ColorFormat) -> nat {
    match c {
        ColorFormat::Rgb(_) => 3,
        ColorFormat::Rgbw(_, _) => 4,
    }
}

impl ColorFormat {
    /// Channels per pixel: 3 for RGB, 4 for RGBW.
    pub fn channels(&self) -> (n: usize)
        ensures
            n == channels_of(*self),
    {
        match self {
            ColorFormat::Rgb(_) => 3,
            ColorFormat::Rgbw(_, _) => 4,
        }
    }
}

/// Wire protocol the node speaks. A capability, not a product.
#[derive(Clone, Copy, Debug, PartialEq, Eq, Hash, Structural)]
pub enum Protocol {
    /// E1.31 (sACN).
    Sacn,
    /// Art-Net (ArtDmx).
    ArtNet,
    /// DDP.
    Ddp,
}

/// Physical interface the bytes leave the node by. Declaring one does not implement it.
#[derive(Clone, Copy, Debug, PartialEq, Eq, Hash, Structural)]
pub enum OutputInterface {
    /// Wired Ethernet: the only path supported for a live show.
    Ethernet,
    /// WiFi: declarable for configuration and monitoring, forbidden for a live show.
    WiFi,
    /// SPI: no driver exists yet.
    Spi,
    /// PWM: no driver exists yet.
    Pwm,
}

/// Who the node is. Identification only; no capability is inferred from it.
#[derive(Clone, Debug, PartialEq, Eq)]
pub struct Identity {
    pub vendor: String,
    pub model: String,
    pub firmware: String,
    pub firmware_version: String,
    pub serial: Option<String>,
}

/// What the node knows how to do.
#[derive(Clone, Copy, Debug, PartialEq, Eq, Structural)]
pub struct Capabilities {
    pub protocol: Protocol,
    pub output_interface: OutputInterface,
    pub color: ColorFormat,
    /// Physical output ports.
    pub ports: u16,
    pub supports_discovery: bool,
    pub supports_metrics: bool,
}

/// Numeric limits of the node: the one home of pixel limits.
#[derive(Clone, Copy, Debug, PartialEq, Eq, Structural)]
pub struct Limits {
    /// Pixels per universe (e.g. 170 for RGB in 510 channels).
    pub pixels_per_universe: u16,
    /// Total pixels the node supports.
    pub max_pixels: u32,
    /// Target refresh rate, in Hz.
    pub refresh_hz: u16,
}

/// Declared electrical budget: volts and amperes, as `f32` bit patterns.
#[derive(Clone, Copy, Debug, PartialEq, Eq, Structural)]
pub struct Power {
    pub voltage_v: u32,
    pub max_current_a: u32,
}

/// Per-output optical correction: gamma exponent and brightness scale, as `f32` bit patterns.
#[derive(Clone, Copy, Debug, PartialEq, Eq, Structural)]
pub struct Calibration {
    pub gamma: u32,
    pub brightness: u32,
}

/// What the transport imposes on the node. Only the MTU is declared; fragmentation is
/// derived from it.
#[derive(Clone, Copy, Debug, PartialEq, Eq, Structural)]
pub struct Transport {
    /// Path MTU, in bytes.
    pub mtu_bytes: u16,
    /// Keep-alive period, in ms.
    pub heartbeat_ms: u16,
}

/// The complete design-time descriptor of a node.
#[derive(Clone, Debug, PartialEq, Eq)]
pub struct HardwareProfile {
    pub schema_version: u16,
    pub identity: Identity,
    pub capabilities: Capabilities,
    pub limits: Limits,
    pub transport: Transport,
    pub power: Power,
    pub calibration: Calibration,
}

/// `a - b`, or zero when `b > a`.
pub open spec fn sat_sub(a: int, b: int) -> int {
    if a >= b { a - b } else { 0 }
}

/// UDP payload bytes that fit one datagram without IP fragmentation.
pub open spec fn udp_payload_spec(mtu: u16) -> int {
    sat_sub(mtu as int, IP_UDP_OVERHEAD as int)
}

/// Pixels in one datagram: DDP is bounded by the MTU; Art-Net and sACN by the universe,
/// and by the MTU only when that is smaller still.
pub open spec fn pixels_per_datagram_spec(
    mtu: u16,
    protocol: Protocol,
    color: ColorFormat,
    pixels_per_universe: u16,
) -> int {
    let ch = channels_of(color) as int;
    match protocol {
        Protocol::Ddp => sat_sub(udp_payload_spec(mtu), DDP_HEADER as int) / ch,
        _ => {
            let by_mtu = sat_sub(udp_payload_spec(mtu), ARTNET_HEADER as int) / ch;
            if (pixels_per_universe as int) < by_mtu { pixels_per_universe as int } else { by_mtu }
        },
    }
}

/// `ceil(a / b)` for `b > 0`.
pub open spec fn div_ceil(a: int, b: int) -> int {
    a / b + if a % b != 0 { 1int } else { 0int }
}

/// Datagrams a frame of `pixels` splits into: at least one pixel is carried per datagram.
pub open spec fn datagrams_spec(
    mtu: u16,
    pixels: u32,
    protocol: Protocol,
    color: ColorFormat,
    pixels_per_universe: u16,
) -> int {
    let per = pixels_per_datagram_spec(mtu, protocol, color, pixels_per_universe);
    div_ceil(pixels as int, if per < 1 { 1 } else { per })
}

/// Whether a keep-alive period respects the gap ceiling: positive and below it.
pub open spec fn heartbeat_safe_spec(heartbeat_ms: u16) -> bool {
    0 < heartbeat_ms < MAX_GAP_MS
}

impl Transport {
    /// UDP payload bytes that fit one datagram: the MTU less the IP and UDP headers.
    pub fn udp_payload_bytes(&self) -> (n: usize)
        ensures
            n == udp_payload_spec(self.mtu_bytes),
    {
        let mtu = self.mtu_bytes as usize;
        if mtu >= IP_UDP_OVERHEAD {
            mtu - IP_UDP_OVERHEAD
        } else {
            0
        }
    }

    /// Pixels that fit one datagram for this protocol and colour format.
    pub fn pixels_per_datagram(
        &self,
        protocol: Protocol,
        color: ColorFormat,
        pixels_per_universe: u16,
    ) -> (n: usize)
        ensures
            n == pixels_per_datagram_spec(self.mtu_bytes, protocol, color, pixels_per_universe),
    {
        let canais = color.channels();
        let payload = self.udp_payload_bytes();
        match protocol {
            Protocol::Ddp => {
                let room = if payload >= DDP_HEADER {
                    payload - DDP_HEADER
                } else {
                    0
                };
                room / canais
            },
            _ => {
                let room = if payload >= ARTNET_HEADER {
                    payload - ARTNET_HEADER
                } else {
                    0
                };
                let por_mtu = room / canais;
                let ppu = pixels_per_universe as usize;
                if ppu < por_mtu {
                    ppu
                } else {
                    por_mtu
                }
            },
        }
    }

    /// Datagrams a frame of `pixels` splits into.
    pub fn datagrams_for(
        &self,
        pixels: u32,
        protocol: Protocol,
        color: ColorFormat,
        pixels_per_universe: u16,
    ) -> (n: u32)
        ensures
            n == datagrams_spec(self.mtu_bytes, pixels, protocol, color, pixels_per_universe),
    {
        let per = self.pixels_per_datagram(protocol, color, pixels_per_universe);
        assert(per <= 0xffff) by {
            assert(self.mtu_bytes <= 0xffff);
        }
        let por: u32 = if per < 1 {
            1
        } else {
            per as u32
        };
        let whole = pixels / por;
        if pixels % por != 0 {
            assert(whole < u32::MAX) by (nonlinear_arith)
                requires
                    whole == pixels / por,
                    pixels % por != 0,
                    por >= 1,
            ;
            whole + 1
        } else {
            whole
        }
    }

    /// Whether the declared keep-alive respects the gap ceiling.
    pub fn heartbeat_is_safe(&self) -> (b: bool)
        ensures
            b == heartbeat_safe_spec(self.heartbeat_ms),
    {
        self.heartbeat_ms > 0 && self.heartbeat_ms < MAX_GAP_MS
    }
}

/// `ceil(a / b)` is the least count of `b`-sized pieces that covers `a`.
pub proof fn lemma_div_ceil_covers(a: int, b: int)
    requires
        a >= 0,
        b > 0,
    ensures
        div_ceil(a, b) * b >= a,
        (div_ceil(a, b) - 1) * b < a || a == 0,
        div_ceil(a, b) >= 0,
        a == 0 ==> div_ceil(a, b) == 0,
{
    assert(a == b * (a / b) + a % b) by (nonlinear_arith)
        requires
            b > 0,
    ;
    assert(0 <= a % b < b) by (nonlinear_arith)
        requires
            b > 0,
    ;
    assert(a / b >= 0) by (nonlinear_arith)
        requires
            a >= 0,
            b > 0,
    ;
    if a % b != 0 {
        assert((a / b + 1) * b == b * (a / b) + b) by (nonlinear_arith);
        assert((a / b) * b == b * (a / b)) by (nonlinear_arith);
    } else {
        assert((a / b) * b == b * (a / b)) by (nonlinear_arith);
        assert((a / b - 1) * b == b * (a / b) - b) by (nonlinear_arith);
    }
}

/// Law: the datagrams of a frame carry all of its pixels, and one datagram fewer would not.
pub proof fn lemma_datagrams_cover_the_frame(
    t: Transport,
    pixels: u32,
    protocol: Protocol,
    color: ColorFormat,
    pixels_per_universe: u16,
)
    ensures
        ({
            let per = pixels_per_datagram_spec(t.mtu_bytes, protocol, color, pixels_per_universe);
            let por = if per < 1 { 1 } else { per };
            let n = datagrams_spec(t.mtu_bytes, pixels, protocol, color, pixels_per_universe);
            &&& n * por >= pixels
            &&& (pixels == 0 || (n - 1) * por < pixels)
        }),
{
    let per = pixels_per_datagram_spec(t.mtu_bytes, protocol, color, pixels_per_universe);
    let por = if per < 1 { 1 } else { per };
    lemma_div_ceil_covers(pixels as int, por);
}

/// Law: Art-Net and sACN never carry more pixels per datagram than one universe holds.
pub proof fn lemma_universe_protocols_bounded_by_universe(
    t: Transport,
    protocol: Protocol,
    color: ColorFormat,
    pixels_per_universe: u16,
)
    requires
        protocol != Protocol::Ddp,
    ensures
        pixels_per_datagram_spec(t.mtu_bytes, protocol, color, pixels_per_universe)
            <= pixels_per_universe,
{
}

} // verus!
