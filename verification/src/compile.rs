//! Compiling a profile into physical pixel assignments, and the plain single-device mapping.
//!
//! The declared `pixels_per_universe` is honoured even when it is below the theoretical
//! maximum (`UNIVERSE_SIZE / channels`): controllers legitimately pack fewer. Each universe
//! starts at channel 0; pixel `i` goes to universe `first + i / ppu`, at channel
//! `(i % ppu) × channels`.

use vstd::prelude::*;

use crate::layout::Layout;
use crate::profile::{
    channels_of, ColorFormat, HardwareProfile, OutputInterface, Protocol, RgbOrder, UNIVERSE_SIZE,
};

verus! {

/// Why a compilation was refused: a wrong map is worse than none.
#[derive(Clone, Copy, Debug, PartialEq, Eq, Structural)]
pub enum CompileError {
    /// More pixels than the node declares it supports.
    ExceedsMaxPixels { requested: u32, max: u32 },
    /// `pixels_per_universe` is zero: no pixel would fit.
    ZeroPixelsPerUniverse,
    /// The declared pixels per universe do not fit `UNIVERSE_SIZE` with this colour format.
    PixelsExceedUniverse { pixels_per_universe: u16, channels_per_pixel: u16 },
}

/// Where one logical pixel goes: device, universe, first channel, and colour format.
#[derive(Clone, Copy, Debug, PartialEq, Eq, Structural)]
pub struct PixelPhysical {
    pub device: u16,
    pub universe: u16,
    pub channel: u16,
    pub format: ColorFormat,
}

/// The universe of pixel `i`: `first` plus the index of its universe, which the arithmetic
/// takes modulo `2^16`.
pub open spec fn universe_of(first: u16, ppu: u16, i: int) -> int {
    first + (i / ppu as int) % 0x1_0000
}

/// The assignment of pixel `i`.
pub open spec fn assignment(p: HardwareProfile, device: u16, first: u16, i: int) -> PixelPhysical {
    let ppu = p.limits.pixels_per_universe;
    PixelPhysical {
        device,
        universe: universe_of(first, ppu, i) as u16,
        channel: ((i % ppu as int) * channels_of(p.capabilities.color)) as u16,
        format: p.capabilities.color,
    }
}

/// The compilation of `pixel_count` pixels of a profile onto one device.
pub open spec fn compile_spec(
    p: HardwareProfile,
    pixel_count: u32,
    device: u16,
    first: u16,
) -> Result<Seq<PixelPhysical>, CompileError> {
    let ppu = p.limits.pixels_per_universe;
    let ch = channels_of(p.capabilities.color);
    if ppu == 0 {
        Err(CompileError::ZeroPixelsPerUniverse)
    } else if ppu * ch > UNIVERSE_SIZE {
        Err(
            CompileError::PixelsExceedUniverse {
                pixels_per_universe: ppu,
                channels_per_pixel: ch as u16,
            },
        )
    } else if pixel_count > p.limits.max_pixels {
        Err(CompileError::ExceedsMaxPixels { requested: pixel_count, max: p.limits.max_pixels })
    } else {
        Ok(Seq::new(pixel_count as nat, |i: int| assignment(p, device, first, i)))
    }
}

/// The universe numbers that a compilation computes stay within `u16`.
pub open spec fn universes_fit(p: HardwareProfile, pixel_count: u32, first: u16) -> bool {
    let ppu = p.limits.pixels_per_universe;
    ||| ppu == 0
    ||| ppu * channels_of(p.capabilities.color) > UNIVERSE_SIZE
    ||| pixel_count > p.limits.max_pixels
    ||| forall|i: int| 0 <= i < pixel_count ==> #[trigger] universe_of(first, ppu, i) <= u16::MAX
}

/// Compiles the profile into the assignments of `pixel_count` pixels on device `device`,
/// starting at universe `first_universe`.
pub fn compile_layout(
    profile: &HardwareProfile,
    pixel_count: u32,
    device_id: u16,
    first_universe: u16,
) -> (r: Result<Vec<PixelPhysical>, CompileError>)
    requires
        universes_fit(*profile, pixel_count, first_universe),
    ensures
        match compile_spec(*profile, pixel_count, device_id, first_universe) {
            Ok(s) => r matches Ok(v) && v@ == s,
            Err(e) => r == Err::<Vec<PixelPhysical>, CompileError>(e),
        },
{
    let ppu = profile.limits.pixels_per_universe;
    if ppu == 0 {
        return Err(CompileError::ZeroPixelsPerUniverse);
    }
    let channels = profile.capabilities.color.channels();
    if ppu as usize * channels > UNIVERSE_SIZE {
        return Err(
            CompileError::PixelsExceedUniverse {
                pixels_per_universe: ppu,
                channels_per_pixel: channels as u16,
            },
        );
    }
    if pixel_count > profile.limits.max_pixels {
        return Err(
            CompileError::ExceedsMaxPixels { requested: pixel_count, max: profile.limits.max_pixels },
        );
    }
    let mut assignments: Vec<PixelPhysical> = Vec::new();
    let mut i: u32 = 0;
    while i < pixel_count
        invariant
            ppu == profile.limits.pixels_per_universe,
            ppu > 0,
            channels == channels_of(profile.capabilities.color),
            ppu * channels <= UNIVERSE_SIZE,
            universes_fit(*profile, pixel_count, first_universe),
            pixel_count <= profile.limits.max_pixels,
            i <= pixel_count,
            assignments@ == Seq::new(
                i as nat,
                |j: int| assignment(*profile, device_id, first_universe, j),
            ),
        decreases pixel_count - i,
    {
        let universe_index = i / ppu as u32;
        let slot = i % ppu as u32;
        proof {
            assert(universe_of(first_universe, ppu, i as int) <= u16::MAX);
            assert(slot * channels <= (ppu - 1) * channels) by (nonlinear_arith)
                requires
                    slot < ppu,
                    channels >= 0,
            ;
        }
        let idx16 = (universe_index % 0x1_0000) as u16;
        assignments.push(
            PixelPhysical {
                device: device_id,
                universe: first_universe + idx16,
                channel: (slot as usize * channels) as u16,
                format: profile.capabilities.color,
            },
        );
        proof {
            assert(assignments@ =~= Seq::new(
                (i + 1) as nat,
                |j: int| assignment(*profile, device_id, first_universe, j),
            ));
        }
        i = i + 1;
    }
    Ok(assignments)
}

/// Law: a compiled layout never crosses a universe: every pixel's channels lie within its
/// universe, and consecutive pixels of one universe sit side by side.
pub proof fn lemma_pixels_stay_within_their_universe(
    p: HardwareProfile,
    pixel_count: u32,
    device: u16,
    first: u16,
    i: int,
)
    requires
        compile_spec(p, pixel_count, device, first) is Ok,
        0 <= i < pixel_count,
    ensures
        ({
            let a = compile_spec(p, pixel_count, device, first)->Ok_0[i];
            a.channel + channels_of(p.capabilities.color) <= UNIVERSE_SIZE
        }),
{
    let ppu = p.limits.pixels_per_universe as int;
    let ch = channels_of(p.capabilities.color) as int;
    assert((i % ppu + 1) * ch <= ppu * ch) by (nonlinear_arith)
        requires
            ppu > 0,
            ch >= 0,
            i >= 0,
    ;
    assert((i % ppu) * ch >= 0) by (nonlinear_arith)
        requires
            ppu > 0,
            ch >= 0,
            i >= 0,
    ;
    assert((i % ppu + 1) * ch == (i % ppu) * ch + ch) by (nonlinear_arith);
}

/// Channels of one RGB pixel.
pub const RGB_CHANNELS: usize = 3;

/// Pixels of one device packed three channels each, opening the next universe whenever a
/// pixel would not fit the current one.
pub open spec fn single_device_spec(n: nat, device: u16, base: u16, order: RgbOrder) -> Seq<
    PixelPhysical,
> {
    Seq::new(
        n,
        |i: int|
            PixelPhysical {
                device,
                universe: (base + i / 170) as u16,
                channel: ((i % 170) * 3) as u16,
                format: ColorFormat::Rgb(order),
            },
    )
}

/// Assigns every logical pixel to one device.
pub struct LayoutMapper;

impl LayoutMapper {
    /// Assigns every pixel of `layout` to one device, three channels each, across
    /// consecutive universes from `base_universe`. Indexed by logical id.
    pub fn single_device(layout: &Layout, device: u16, base_universe: u16, order: RgbOrder) -> (v:
        Vec<PixelPhysical>)
        requires
            layout.pixels@.len() == 0 || base_universe + (layout.pixels@.len() - 1) / 170
                <= u16::MAX,
        ensures
            v@ == single_device_spec(layout.pixels@.len(), device, base_universe, order),
    {
        let pixel_count = layout.pixels.len();
        let mut out: Vec<PixelPhysical> = Vec::new();
        let mut universe = base_universe;
        let mut channel: u16 = 0;
        let mut i: usize = 0;
        while i < pixel_count
            invariant
                pixel_count == 0 || base_universe + (pixel_count - 1) / 170 <= u16::MAX,
                i <= pixel_count,
                i > 0 ==> universe == base_universe + (i - 1) / 170,
                i > 0 ==> channel == ((i - 1) % 170) * 3 + 3,
                i == 0 ==> universe == base_universe && channel == 0,
                out@ == single_device_spec(i as nat, device, base_universe, order),
            decreases pixel_count - i,
        {
            if channel as usize + RGB_CHANNELS > UNIVERSE_SIZE {
                universe = universe + 1;
                channel = 0;
            }
            out.push(
                PixelPhysical { device, universe, channel, format: ColorFormat::Rgb(order) },
            );
            proof {
                assert(out@ =~= single_device_spec((i + 1) as nat, device, base_universe, order));
            }
            channel = channel + 3;
            i = i + 1;
        }
        out
    }
}

/// Assigns `pixel_count` pixels linearly to one device: 170 pixels per universe (510
/// channels, so no pixel straddles a universe boundary), universes numbered from
/// `first_universe`.
pub fn linear_assignments(pixel_count: usize, device: u16, first_universe: u16, order: RgbOrder) -> (v:
    Vec<PixelPhysical>)
    requires
        pixel_count == 0 || first_universe + (pixel_count - 1) / 170 <= u16::MAX,
    ensures
        v@ == single_device_spec(pixel_count as nat, device, first_universe, order),
{
    let mut out: Vec<PixelPhysical> = Vec::new();
    let mut i: usize = 0;
    while i < pixel_count
        invariant
            pixel_count == 0 || first_universe + (pixel_count - 1) / 170 <= u16::MAX,
            i <= pixel_count,
            out@ == single_device_spec(i as nat, device, first_universe, order),
        decreases pixel_count - i,
    {
        assert(i / 170 <= (pixel_count - 1) / 170) by (nonlinear_arith)
            requires
                i <= pixel_count - 1,
        ;
        out.push(
            PixelPhysical {
                device,
                universe: first_universe + (i / 170) as u16,
                channel: ((i % 170) * 3) as u16,
                format: ColorFormat::Rgb(order),
            },
        );
        proof {
            assert(out@ =~= single_device_spec((i + 1) as nat, device, first_universe, order));
        }
        i = i + 1;
    }
    out
}

/// What a caller needs to build the driver of one node: plain data, nothing is opened here.
/// The address (of type `A`, a socket address in practice) belongs to the instance, not to
/// the hardware type.
#[derive(Clone, Copy, Debug, PartialEq)]
pub struct DriverConfig<A> {
    pub device_id: u16,
    pub protocol: Protocol,
    pub output_interface: OutputInterface,
    pub address: A,
    pub first_universe: u16,
    pub color: ColorFormat,
    pub pixels_per_universe: u16,
}

/// The driver configuration of one instance: the capabilities a profile declares, plus the
/// instance's own id, address and first universe.
pub open spec fn driver_config_spec<A>(
    profile: HardwareProfile,
    device_id: u16,
    address: A,
    first_universe: u16,
) -> DriverConfig<A> {
    DriverConfig {
        device_id,
        protocol: profile.capabilities.protocol,
        output_interface: profile.capabilities.output_interface,
        address,
        first_universe,
        color: profile.capabilities.color,
        pixels_per_universe: profile.limits.pixels_per_universe,
    }
}

/// The driver configuration of this instance of a profile.
pub fn driver_config<A>(
    profile: &HardwareProfile,
    device_id: u16,
    address: A,
    first_universe: u16,
) -> (c: DriverConfig<A>)
    ensures
        c == driver_config_spec(*profile, device_id, address, first_universe),
{
    DriverConfig {
        device_id,
        protocol: profile.capabilities.protocol,
        output_interface: profile.capabilities.output_interface,
        address,
        first_universe,
        color: profile.capabilities.color,
        pixels_per_universe: profile.limits.pixels_per_universe,
    }
}

/// Law: a preset describes a type of hardware, not a node. Two instances of one profile
/// agree on everything the profile declares and differ only in what the instance supplies.
pub proof fn lemma_instances_differ_only_by_instance_parameters<A>(
    profile: HardwareProfile,
    id_a: u16,
    addr_a: A,
    first_a: u16,
    id_b: u16,
    addr_b: A,
    first_b: u16,
)
    ensures
        ({
            let a = driver_config_spec(profile, id_a, addr_a, first_a);
            let b = driver_config_spec(profile, id_b, addr_b, first_b);
            &&& a.protocol == b.protocol
            &&& a.output_interface == b.output_interface
            &&& a.color == b.color
            &&& a.pixels_per_universe == b.pixels_per_universe
            &&& (id_a == id_b && addr_a == addr_b && first_a == first_b ==> a == b)
        }),
{
}

} // verus!
