//! The GPU counterpart of the plasma effect: a WGSL compute shader, one invocation per
//! pixel, `workgroup_size(64)`, dispatched by the GPU executor. Its CPU reference is the
//! plasma kernel of the effect engine.

use vstd::prelude::*;

use crate::color::PixelColor;

verus! {

/// WGSL source of the plasma compute shader.
pub const PLASMA_WGSL: &'static str = r#"
struct Params { scale: f32, speed: f32, time_s: f32, count: u32 };
@group(0) @binding(0) var<uniform> params: Params;
@group(0) @binding(1) var<storage, read>  positions: array<vec3<f32>>;
@group(0) @binding(2) var<storage, read_write> out_rgb: array<u32>;

fn hsv(h: f32) -> vec3<f32> {
    // s = v = 1; matches color::hsv_to_rgb
    let h6 = fract(h) * 6.0;
    let x = 1.0 - abs(h6 % 2.0 - 1.0);
    if (h6 < 1.0) { return vec3<f32>(1.0, x, 0.0); }
    if (h6 < 2.0) { return vec3<f32>(x, 1.0, 0.0); }
    if (h6 < 3.0) { return vec3<f32>(0.0, 1.0, x); }
    if (h6 < 4.0) { return vec3<f32>(0.0, x, 1.0); }
    if (h6 < 5.0) { return vec3<f32>(x, 0.0, 1.0); }
    return vec3<f32>(1.0, 0.0, x);
}

@compute @workgroup_size(64)
fn main(@builtin(global_invocation_id) gid: vec3<u32>) {
    let i = gid.x;
    if (i >= params.count) { return; }
    let p = positions[i];
    let t = params.time_s * params.speed;
    let v = (sin(p.x * params.scale + t)
           + sin(p.y * params.scale - t)
           + sin((p.x + p.y) * params.scale * 0.5 + t)) / 3.0;
    let c = hsv(0.5 + 0.5 * v) * 255.0 + vec3<f32>(0.5);
    out_rgb[i] = (u32(c.r) << 16u) | (u32(c.g) << 8u) | u32(c.b);
}
"#;

/// `|a - b|` of two channel values.
pub open spec fn channel_delta(a: u8, b: u8) -> int {
    if a >= b { a - b } else { b - a }
}

/// Two colours agree within `tolerance` on every channel.
pub open spec fn within(c: PixelColor, g: PixelColor, tolerance: u8) -> bool {
    &&& channel_delta(c.r, g.r) <= tolerance
    &&& channel_delta(c.g, g.g) <= tolerance
    &&& channel_delta(c.b, g.b) <= tolerance
}

/// The per-channel distance `(|Δr|, |Δg|, |Δb|)` of two colours.
pub fn channel_deltas(c: PixelColor, g: PixelColor) -> (d: (u8, u8, u8))
    ensures
        d.0 == channel_delta(c.r, g.r),
        d.1 == channel_delta(c.g, g.g),
        d.2 == channel_delta(c.b, g.b),
{
    let dr = if c.r >= g.r { c.r - g.r } else { g.r - c.r };
    let dg = if c.g >= g.g { c.g - g.g } else { g.g - c.g };
    let db = if c.b >= g.b { c.b - g.b } else { g.b - c.b };
    (dr, dg, db)
}

/// The first pixel at which two renders of one kernel disagree by more than `tolerance` on
/// some channel, comparing the pixels both renders have; `None` when they agree.
pub fn first_parity_mismatch(cpu: &[PixelColor], gpu: &[PixelColor], tolerance: u8) -> (r: Option<usize>)
    ensures
        match r {
            Some(i) => i < cpu@.len() && i < gpu@.len() && !within(cpu@[i as int], gpu@[i as int], tolerance)
                && forall|k: int| 0 <= k < i ==> within(cpu@[k], gpu@[k], tolerance),
            None => forall|k: int|
                0 <= k < cpu@.len() && k < gpu@.len() ==> within(cpu@[k], gpu@[k], tolerance),
        },
{
    let n = if cpu.len() < gpu.len() { cpu.len() } else { gpu.len() };
    let mut i: usize = 0;
    while i < n
        invariant
            n <= cpu@.len(),
            n <= gpu@.len(),
            n == cpu@.len() || n == gpu@.len(),
            i <= n,
            forall|k: int| 0 <= k < i ==> within(cpu@[k], gpu@[k], tolerance),
        decreases n - i,
    {
        let (dr, dg, db) = channel_deltas(cpu[i], gpu[i]);
        if dr > tolerance || dg > tolerance || db > tolerance {
            return Some(i);
        }
        i = i + 1;
    }
    None
}

/// The colour packed as `0xRRGGBB` in the low 24 bits of `rgb`, as the shader writes it.
pub fn unpack_rgb(rgb: u32) -> (c: PixelColor)
    ensures
        c.r == (rgb >> 16u32) & 0xffu32,
        c.g == (rgb >> 8u32) & 0xffu32,
        c.b == rgb & 0xffu32,
{
    let r = (rgb >> 16) & 0xff;
    let g = (rgb >> 8) & 0xff;
    let b = rgb & 0xff;
    assert(r < 256 && g < 256 && b < 256) by (bit_vector)
        requires
            r == (rgb >> 16u32) & 0xffu32,
            g == (rgb >> 8u32) & 0xffu32,
            b == rgb & 0xffu32,
    ;
    PixelColor { r: r as u8, g: g as u8, b: b as u8 }
}

} // verus!
