//! Rigs: `N` copies of a prop template with automatic, conflict-free channel assignment.
//!
//! Overlap-free addressing is a property of the constructor, not a check after the fact:
//! each instance gets a device of its own, and its strips are packed contiguously from the
//! first universe, 170 pixels per 510-channel universe, so a channel belongs to exactly one
//! strip and no pixel straddles a universe boundary. Where the strips sit in space is the
//! concern of whoever places them; the addressing is here.

use vstd::prelude::*;
use vstd::relations::{sorted_by, total_ordering};

use crate::compile::PixelPhysical;
use crate::profile::{ColorFormat, RgbOrder};
use crate::text::{dec, push_char, push_str, push_u64};

verus! {

/// Pixels per 510-channel universe (3 channels each, no straddling).
pub const PX_PER_UNIVERSE_510: u16 = 170;

/// A position in metres, each coordinate an `f32` bit pattern.
#[derive(Clone, Copy, Debug, PartialEq, Eq, Structural)]
pub struct Offset {
    pub x: u32,
    pub y: u32,
    pub z: u32,
}

/// One strip of the template.
#[derive(Clone, Debug)]
pub struct StripTemplate {
    pub name: String,
    pub pixels: u16,
    /// Position of the strip start relative to the rig origin.
    pub offset: Offset,
}

/// A reusable prop assembly, such as one LED robot made of many strips.
#[derive(Clone, Debug)]
pub struct RigTemplate {
    pub name: String,
    pub strips: Vec<StripTemplate>,
}

/// Sum of the first `k` pixel counts.
pub open spec fn prefix(px: Seq<u16>, k: int) -> int
    decreases k,
{
    if k <= 0 {
        0
    } else {
        prefix(px, k - 1) + px[k - 1]
    }
}

/// The pixel counts of a template's strips.
pub open spec fn template_pixels(t: &RigTemplate) -> Seq<u16> {
    t.strips@.map_values(|s: StripTemplate| s.pixels)
}

impl RigTemplate {
    /// Pixels of one instance.
    pub fn total_pixels(&self) -> (n: u32)
        requires
            prefix(template_pixels(self), self.strips@.len() as int) <= u32::MAX,
        ensures
            n == prefix(template_pixels(self), self.strips@.len() as int),
    {
        let ghost px = template_pixels(self);
        let mut n: u32 = 0;
        let mut k: usize = 0;
        while k < self.strips.len()
            invariant
                px == template_pixels(self),
                k <= self.strips@.len(),
                n == prefix(px, k as int),
                prefix(px, self.strips@.len() as int) <= u32::MAX,
            decreases self.strips@.len() - k,
        {
            proof {
                lemma_prefix_monotone(px, k + 1, self.strips@.len() as int);
            }
            n = n + self.strips[k].pixels as u32;
            k = k + 1;
        }
        n
    }
}

/// Prefix sums only grow.
pub proof fn lemma_prefix_monotone(px: Seq<u16>, a: int, b: int)
    requires
        0 <= a <= b <= px.len(),
    ensures
        prefix(px, a) <= prefix(px, b),
    decreases b - a,
{
    if a < b {
        lemma_prefix_monotone(px, a, b - 1);
    }
}

/// One placed strip of one instance.
#[derive(Clone, Debug)]
pub struct PlacedStrip {
    /// `"<template> <instance>/<strip>"`, instances counted from 1.
    pub name: String,
    pub device: u16,
    /// First universe the strip touches.
    pub universe: u16,
    /// 0-based channel within that universe.
    pub channel: u16,
    pub pixels: u16,
}

/// What a placed strip holds, its name taken by its characters.
pub struct PlacedView {
    pub name: Seq<char>,
    pub device: u16,
    pub universe: u16,
    pub channel: u16,
    pub pixels: u16,
}

impl View for PlacedStrip {
    type V = PlacedView;

    open spec fn view(&self) -> PlacedView {
        PlacedView {
            name: self.name@,
            device: self.device,
            universe: self.universe,
            channel: self.channel,
            pixels: self.pixels,
        }
    }
}

/// A fully addressed rig of `N` instances.
#[derive(Clone, Debug)]
pub struct RigPlan {
    pub strips: Vec<PlacedStrip>,
    pub order: RgbOrder,
    pub px_per_universe: u16,
}

/// The placed strips of a plan.
pub open spec fn placed(p: &RigPlan) -> Seq<PlacedView> {
    p.strips@.map_values(|s: PlacedStrip| s@)
}

/// The name of strip `k` of instance `i` (counted from 0).
pub open spec fn placed_name(t: &RigTemplate, i: int, k: int) -> Seq<char> {
    t.name@ + seq![' '] + dec((i + 1) as nat) + seq!['/'] + t.strips@[k].name@
}

/// Strip `k` of instance `i`: the instance's device, and the universe and channel where the
/// pixels of the instance's earlier strips end.
pub open spec fn placed_spec(t: &RigTemplate, first_device: u16, first_universe: u16, i: int, k: int) -> PlacedView {
    let c = prefix(template_pixels(t), k);
    PlacedView {
        name: placed_name(t, i, k),
        device: (first_device + i) as u16,
        universe: (first_universe + c / 170) as u16,
        channel: ((c % 170) * 3) as u16,
        pixels: t.strips@[k].pixels,
    }
}

/// The device numbers and universe numbers of a rig stay within `u16`, and an instance's
/// pixels within `u32`.
pub open spec fn rig_fits(t: &RigTemplate, instances: u16, first_device: u16, first_universe: u16) -> bool {
    let m = t.strips@.len() as int;
    instances == 0 || {
        &&& first_device + instances - 1 <= u16::MAX
        &&& prefix(template_pixels(t), m) <= u32::MAX
        &&& (m == 0 || first_universe + prefix(template_pixels(t), m - 1) / 170 <= u16::MAX)
    }
}

/// Appends `"<template> <instance>/<strip>"`.
fn strip_name(template: &str, instance: u16, strip: &str) -> (s: String)
    ensures
        s@ == template@ + seq![' '] + dec(instance as nat) + seq!['/'] + strip@,
{
    let mut s = String::new();
    push_str(&mut s, template);
    push_char(&mut s, ' ');
    push_u64(&mut s, instance as u64);
    push_char(&mut s, '/');
    push_str(&mut s, strip);
    assert(s@ =~= template@ + seq![' '] + dec(instance as nat) + seq!['/'] + strip@);
    s
}

/// Instantiates `instances` copies of `template`. Instance `i` gets device
/// `first_device + i`; its strips are packed contiguously from `first_universe`, the
/// numbering restarting for every instance (each controller numbers its own universes).
pub fn build_rig(
    template: &RigTemplate,
    instances: u16,
    first_device: u16,
    first_universe: u16,
    order: RgbOrder,
) -> (plan: RigPlan)
    requires
        rig_fits(template, instances, first_device, first_universe),
    ensures
        plan.order == order,
        plan.px_per_universe == PX_PER_UNIVERSE_510,
        placed(&plan).len() == instances * template.strips@.len(),
        forall|i: int, k: int|
            0 <= i < instances && 0 <= k < template.strips@.len() ==> #[trigger] placed(&plan)[i
                * template.strips@.len() + k] == placed_spec(
                template,
                first_device,
                first_universe,
                i,
                k,
            ),
{
    let ghost px = template_pixels(template);
    let ghost m = template.strips@.len() as int;
    let mut strips: Vec<PlacedStrip> = Vec::new();
    let mut i: u16 = 0;
    while i < instances
        invariant
            px == template_pixels(template),
            m == template.strips@.len(),
            rig_fits(template, instances, first_device, first_universe),
            i <= instances,
            strips@.len() == i * m,
            forall|a: int, k: int|
                0 <= a < i && 0 <= k < m ==> #[trigger] strips@[a * m + k]@ == placed_spec(
                    template,
                    first_device,
                    first_universe,
                    a,
                    k,
                ),
        decreases instances - i,
    {
        let device = first_device + i;
        let mut px_cursor: u32 = 0;
        let mut k: usize = 0;
        let ghost base = strips@;
        while k < template.strips.len()
            invariant
                px == template_pixels(template),
                m == template.strips@.len(),
                rig_fits(template, instances, first_device, first_universe),
                i < instances,
                device == first_device + i,
                k <= m,
                px_cursor == prefix(px, k as int),
                base.len() == i * m,
                strips@.len() == i * m + k,
                forall|j: int| 0 <= j < i * m ==> strips@[j] == base[j],
                forall|k2: int|
                    0 <= k2 < k ==> #[trigger] strips@[i * m + k2]@ == placed_spec(
                        template,
                        first_device,
                        first_universe,
                        i as int,
                        k2,
                    ),
            decreases m - k,
        {
            proof {
                lemma_prefix_monotone(px, k as int, m - 1);
                lemma_prefix_monotone(px, k + 1, m);
            }
            let s = &template.strips[k];
            let universe = first_universe + (px_cursor / 170) as u16;
            let channel = ((px_cursor % 170) * 3) as u16;
            let name = strip_name(template.name.as_str(), i + 1, s.name.as_str());
            strips.push(PlacedStrip { name, device, universe, channel, pixels: s.pixels });
            px_cursor = px_cursor + s.pixels as u32;
            k = k + 1;
        }
        proof {
            assert forall|a: int, k2: int| 0 <= a < i + 1 && 0 <= k2 < m implies #[trigger] strips@[a
                * m + k2]@ == placed_spec(template, first_device, first_universe, a, k2) by {
                if a < i {
                    assert(a * m + k2 < i * m) by (nonlinear_arith)
                        requires
                            a + 1 <= i,
                            0 <= k2 < m,
                    ;
                    assert(strips@[a * m + k2] == base[a * m + k2]);
                }
            }
            assert((i + 1) * m == i * m + m) by (nonlinear_arith);
        }
        i = i + 1;
    }
    assert forall|a: int, k: int| 0 <= a < instances && 0 <= k < m implies #[trigger] placed(
        &RigPlan { strips, order, px_per_universe: PX_PER_UNIVERSE_510 },
    )[a * m + k] == placed_spec(template, first_device, first_universe, a, k) by {
        assert(a * m + k < instances * m) by (nonlinear_arith)
            requires
                a + 1 <= instances,
                0 <= k < m,
        ;
        assert(strips@[a * m + k]@ == placed_spec(template, first_device, first_universe, a, k));
    }
    RigPlan { strips, order, px_per_universe: PX_PER_UNIVERSE_510 }
}

/// Where a placed strip starts, in channels from the first universe of its device.
pub open spec fn abs_channel(s: PlacedView, first_universe: u16) -> int {
    (s.universe - first_universe) * 510 + s.channel
}

/// Law: a rig is conflict-free by construction. Two different strips of one device never
/// share a channel: their channel ranges `[start, start + 3 × pixels)` are disjoint.
pub proof fn lemma_rig_has_no_overlap(
    t: &RigTemplate,
    first_device: u16,
    first_universe: u16,
    i1: int,
    k1: int,
    i2: int,
    k2: int,
)
    requires
        0 <= k1 < k2 < t.strips@.len() || (0 <= k2 < t.strips@.len() && 0 <= k1 < t.strips@.len()
            && i1 != i2),
        0 <= i1,
        0 <= i2,
        first_device + i1 <= u16::MAX,
        first_device + i2 <= u16::MAX,
        first_universe + prefix(template_pixels(t), k2) / 170 <= u16::MAX,
        first_universe + prefix(template_pixels(t), k1) / 170 <= u16::MAX,
        placed_spec(t, first_device, first_universe, i1, k1).device == placed_spec(
            t,
            first_device,
            first_universe,
            i2,
            k2,
        ).device,
    ensures
        ({
            let a = placed_spec(t, first_device, first_universe, i1, k1);
            let b = placed_spec(t, first_device, first_universe, i2, k2);
            abs_channel(a, first_universe) + 3 * a.pixels <= abs_channel(b, first_universe)
        }),
{
    let px = template_pixels(t);
    assert(i1 == i2);
    lemma_prefix_monotone(px, k1 + 1, k2);
    let c1 = prefix(px, k1);
    let c2 = prefix(px, k2);
    assert(c1 >= 0) by {
        lemma_prefix_monotone(px, 0, k1);
    }
    assert((c1 / 170) * 510 + (c1 % 170) * 3 == 3 * c1);
    assert((c2 / 170) * 510 + (c2 % 170) * 3 == 3 * c2);
}

/// The first universe used by `device`: the least universe of its strips, or 0 when it
/// has none.
pub open spec fn first_universe_spec(strips: Seq<PlacedView>, device: u16) -> u32
    decreases strips.len(),
{
    if strips.len() == 0 {
        0
    } else {
        let rest = first_universe_spec(strips.drop_last(), device);
        let s = strips.last();
        if s.device != device {
            rest
        } else if !has_device(strips.drop_last(), device) || (s.universe as u32) < rest {
            s.universe as u32
        } else {
            rest
        }
    }
}

/// Whether any strip is on `device`.
pub open spec fn has_device(strips: Seq<PlacedView>, device: u16) -> bool {
    exists|j: int| 0 <= j < strips.len() && #[trigger] strips[j].device == device
}

impl RigPlan {
    /// The first universe used by `device`.
    pub fn first_universe_of(&self, device: u16) -> (u: u32)
        ensures
            u == first_universe_spec(placed(self), device),
            u <= u16::MAX,
    {
        let ghost ps = placed(self);
        let mut best: u32 = 0;
        let mut found = false;
        let mut j: usize = 0;
        while j < self.strips.len()
            invariant
                ps == placed(self),
                j <= ps.len(),
                ps.len() == self.strips@.len(),
                best == first_universe_spec(ps.subrange(0, j as int), device),
                found == has_device(ps.subrange(0, j as int), device),
                best <= u16::MAX,
            decreases ps.len() - j,
        {
            let s = &self.strips[j];
            proof {
                let sub = ps.subrange(0, j + 1);
                assert(sub.drop_last() =~= ps.subrange(0, j as int));
                assert(sub.last() == s@);
                if has_device(sub, device) && s.device != device {
                    let w = choose|w: int| 0 <= w < sub.len() && #[trigger] sub[w].device == device;
                    assert(ps.subrange(0, j as int)[w].device == device);
                }
                if s.device == device {
                    assert(sub[j as int].device == device);
                }
                if found {
                    let w = choose|w: int| 0 <= w < j && #[trigger] ps.subrange(0, j as int)[w].device == device;
                    assert(sub[w].device == device);
                }
            }
            if s.device == device && (!found || (s.universe as u32) < best) {
                best = s.universe as u32;
            }
            if s.device == device {
                found = true;
            }
            j = j + 1;
        }
        assert(ps.subrange(0, ps.len() as int) =~= ps);
        best
    }

    /// Pixels of all instances.
    pub fn total_pixels(&self) -> (n: u32)
        requires
            prefix(placed(self).map_values(|s: PlacedView| s.pixels), placed(self).len() as int)
                <= u32::MAX,
        ensures
            n == prefix(placed(self).map_values(|s: PlacedView| s.pixels), placed(self).len() as int),
    {
        let ghost px = placed(self).map_values(|s: PlacedView| s.pixels);
        let mut n: u32 = 0;
        let mut k: usize = 0;
        while k < self.strips.len()
            invariant
                px == placed(self).map_values(|s: PlacedView| s.pixels),
                k <= self.strips@.len(),
                n == prefix(px, k as int),
                prefix(px, self.strips@.len() as int) <= u32::MAX,
            decreases self.strips@.len() - k,
        {
            proof {
                lemma_prefix_monotone(px, k + 1, self.strips@.len() as int);
            }
            n = n + self.strips[k].pixels as u32;
            k = k + 1;
        }
        n
    }

    /// Universes one instance of `template_pixels` pixels needs: `ceil(pixels / ppu)`.
    pub fn universes_per_instance(&self, template_pixels: u32) -> (u: u16)
        requires
            self.px_per_universe > 0,
        ensures
            u == (crate::profile::div_ceil(template_pixels as int, self.px_per_universe as int)) as u16,
    {
        let ppu = self.px_per_universe as u32;
        let whole = template_pixels / ppu;
        let c = if template_pixels % ppu != 0 {
            assert(whole < u32::MAX) by (nonlinear_arith)
                requires
                    whole == template_pixels / ppu,
                    template_pixels % ppu != 0,
                    ppu >= 1,
            ;
            whole + 1
        } else {
            whole
        };
        c as u16
    }
}

/// Where a strip's first pixel sits, counted in pixels from the first universe of its device.
pub open spec fn start_px(s: PlacedView, fu: u32, ppu: u16) -> int {
    crate::profile::sat_sub(s.universe as int, fu as int) * ppu + s.channel / 3
}

/// The assignments of one strip's pixels, continuing from its start.
pub open spec fn strip_assignments(s: PlacedView, fu: u32, ppu: u16, order: RgbOrder) -> Seq<
    PixelPhysical,
> {
    Seq::new(
        s.pixels as nat,
        |p: int|
            {
                let px = start_px(s, fu, ppu) + p;
                PixelPhysical {
                    device: s.device,
                    universe: (fu + (px / ppu as int) as u16) as u16,
                    channel: ((px % ppu as int) * 3) as u16,
                    format: ColorFormat::Rgb(order),
                }
            },
    )
}

/// The assignments of the first `n` strips, strip after strip.
pub open spec fn assign_prefix(ps: Seq<PlacedView>, n: int, ppu: u16, order: RgbOrder) -> Seq<
    PixelPhysical,
>
    decreases n,
{
    if n <= 0 {
        Seq::empty()
    } else {
        assign_prefix(ps, n - 1, ppu, order) + strip_assignments(
            ps[n - 1],
            first_universe_spec(ps, ps[n - 1].device),
            ppu,
            order,
        )
    }
}

/// The pixel and universe arithmetic of the assignments stays within `u32` and `u16`.
pub open spec fn assignments_fit(plan: &RigPlan) -> bool {
    let ps = placed(plan);
    let ppu = plan.px_per_universe;
    &&& ppu > 0
    &&& forall|j: int|
        0 <= j < ps.len() ==> {
            let fu = first_universe_spec(ps, #[trigger] ps[j].device);
            let st = start_px(ps[j], fu, ppu);
            &&& st + ps[j].pixels <= u32::MAX
            &&& forall|p: int|
                0 <= p < ps[j].pixels ==> fu + (#[trigger] ((st + p) / ppu as int) as u16) <= u16::MAX
        }
}

impl RigPlan {
    /// Physical assignments, one per pixel, strip after strip: each strip continues from
    /// the pixel where it starts within its device, 3 channels per pixel.
    pub fn assignments(&self) -> (v: Vec<PixelPhysical>)
        requires
            assignments_fit(self),
        ensures
            v@ == assign_prefix(placed(self), placed(self).len() as int, self.px_per_universe, self.order),
    {
        let ghost ps = placed(self);
        let ppu = self.px_per_universe as u32;
        let mut out: Vec<PixelPhysical> = Vec::new();
        let mut j: usize = 0;
        while j < self.strips.len()
            invariant
                ps == placed(self),
                ps.len() == self.strips@.len(),
                ppu == self.px_per_universe,
                assignments_fit(self),
                j <= ps.len(),
                out@ == assign_prefix(ps, j as int, self.px_per_universe, self.order),
            decreases ps.len() - j,
        {
            let s = &self.strips[j];
            let base = self.first_universe_of(s.device);
            assert(ps[j as int] == s@);
            let ghost fu = first_universe_spec(ps, ps[j as int].device);
            let ghost st = start_px(ps[j as int], fu, self.px_per_universe);
            let rel = if (s.universe as u32) >= base {
                s.universe as u32 - base
            } else {
                0
            };
            proof {
                assert(rel * ppu <= st) by (nonlinear_arith)
                    requires
                        st == rel * ppu + s.channel / 3,
                        s.channel >= 0,
                ;
            }
            let start: u32 = rel * ppu + s.channel as u32 / 3;
            let ghost before = out@;
            let mut p: u32 = 0;
            while p < s.pixels as u32
                invariant
                    ps == placed(self),
                    ppu == self.px_per_universe,
                    ppu > 0,
                    j < ps.len(),
                    ps[j as int] == s@,
                    base == fu,
                    fu == first_universe_spec(ps, ps[j as int].device),
                    st == start_px(ps[j as int], fu, self.px_per_universe),
                    start == st,
                    st + s.pixels <= u32::MAX,
                    forall|q: int|
                        0 <= q < s.pixels ==> fu + (#[trigger] ((st + q) / ppu as int) as u16)
                            <= u16::MAX,
                    p <= s.pixels,
                    out@ == before + strip_assignments(s@, fu, self.px_per_universe, self.order).subrange(0, p as int),
                decreases s.pixels - p,
            {
                let px = start + p;
                assert(fu + ((st + p) / ppu as int) as u16 <= u16::MAX);
                let universe = base as u16 + (px / ppu) as u16;
                let channel = ((px % ppu) * 3) as u16;
                out.push(PixelPhysical { device: s.device, universe, channel, format: ColorFormat::Rgb(self.order) });
                proof {
                    assert(strip_assignments(s@, fu, self.px_per_universe, self.order).subrange(0, p + 1)
                        =~= strip_assignments(s@, fu, self.px_per_universe, self.order).subrange(0, p as int).push(
                        PixelPhysical { device: s.device, universe, channel, format: ColorFormat::Rgb(self.order) },
                    ));
                }
                p = p + 1;
            }
            proof {
                assert(strip_assignments(s@, fu, self.px_per_universe, self.order).subrange(0, s.pixels as int)
                    =~= strip_assignments(s@, fu, self.px_per_universe, self.order));
            }
            j = j + 1;
        }
        out
    }
}

/// The pixel counts of placed strips.
pub open spec fn placed_pixels(ps: Seq<PlacedView>) -> Seq<u16> {
    ps.map_values(|s: PlacedView| s.pixels)
}

proof fn lemma_assign_prefix_len(ps: Seq<PlacedView>, n: int, ppu: u16, order: RgbOrder)
    requires
        0 <= n <= ps.len(),
    ensures
        assign_prefix(ps, n, ppu, order).len() == prefix(placed_pixels(ps), n),
    decreases n,
{
    if n > 0 {
        lemma_assign_prefix_len(ps, n - 1, ppu, order);
    }
}

/// Pixel `p` of strip `j` sits after the pixels of the strips before it.
proof fn lemma_assign_prefix_at(ps: Seq<PlacedView>, n: int, ppu: u16, order: RgbOrder, j: int, p: int)
    requires
        0 <= j < n <= ps.len(),
        0 <= p < ps[j].pixels,
    ensures
        assign_prefix(ps, n, ppu, order)[prefix(placed_pixels(ps), j) + p] == strip_assignments(
            ps[j],
            first_universe_spec(ps, ps[j].device),
            ppu,
            order,
        )[p],
    decreases n,
{
    let pix = placed_pixels(ps);
    let a = assign_prefix(ps, n - 1, ppu, order);
    let b = strip_assignments(ps[n - 1], first_universe_spec(ps, ps[n - 1].device), ppu, order);
    lemma_assign_prefix_len(ps, n - 1, ppu, order);
    assert(assign_prefix(ps, n, ppu, order) == a + b);
    assert(pix[j] == ps[j].pixels);
    assert(prefix(pix, j + 1) == prefix(pix, j) + ps[j].pixels);
    lemma_prefix_monotone(pix, 0, j);
    if j < n - 1 {
        lemma_assign_prefix_at(ps, n - 1, ppu, order, j, p);
        lemma_prefix_monotone(pix, j + 1, n - 1);
        assert((a + b)[prefix(pix, j) + p] == a[prefix(pix, j) + p]);
    } else {
        assert(b.len() == ps[j].pixels);
        assert((a + b)[prefix(pix, j) + p] == b[p]);
    }
}

/// The first universe of a device is the least universe of its strips, and one of them.
proof fn lemma_first_universe_is_attained(ps: Seq<PlacedView>, d: u16)
    ensures
        has_device(ps, d) ==> exists|j: int|
            0 <= j < ps.len() && ps[j].device == d && #[trigger] ps[j].universe == first_universe_spec(ps, d),
        forall|j: int|
            0 <= j < ps.len() && ps[j].device == d ==> first_universe_spec(ps, d) <= #[trigger] ps[j].universe,
    decreases ps.len(),
{
    if ps.len() > 0 {
        let rest = ps.drop_last();
        lemma_first_universe_is_attained(rest, d);
        let n = ps.len() - 1;
        assert forall|j: int| 0 <= j < ps.len() && ps[j].device == d implies first_universe_spec(ps, d)
            <= #[trigger] ps[j].universe by {
            if j < n {
                assert(rest[j] == ps[j]);
                assert(has_device(rest, d));
            }
        }
        if has_device(ps, d) {
            if ps[n].device == d && (!has_device(rest, d) || (ps[n].universe as u32) < first_universe_spec(rest, d)) {
                assert(ps[n].universe == first_universe_spec(ps, d));
            } else if ps[n].device == d {
                let w = choose|w: int| 0 <= w < rest.len() && rest[w].device == d && #[trigger] rest[w].universe
                    == first_universe_spec(rest, d);
                assert(ps[w] == rest[w]);
            } else {
                let w0 = choose|w: int| 0 <= w < ps.len() && #[trigger] ps[w].device == d;
                assert(rest[w0].device == d);
                let w = choose|w: int| 0 <= w < rest.len() && rest[w].device == d && #[trigger] rest[w].universe
                    == first_universe_spec(rest, d);
                assert(ps[w] == rest[w]);
            }
        }
    }
}

/// Law: every pixel of a built rig is addressed where its strip's packing puts it. Pixel `p`
/// of strip `k` of instance `i` is pixel `q = (pixels of the instance's earlier strips) + p`
/// of its device; its assignment, found after the pixels of all earlier strips of the plan,
/// is on device `first_device + i`, universe `first_universe + q / 170`, channel
/// `(q % 170) * 3`: pixels roll over into the next universe every 170 pixels.
pub proof fn lemma_rig_pixel_assignment(
    plan: &RigPlan,
    t: &RigTemplate,
    instances: u16,
    first_device: u16,
    first_universe: u16,
    order: RgbOrder,
    i: int,
    k: int,
    p: int,
)
    requires
        rig_fits(t, instances, first_device, first_universe),
        plan.order == order,
        plan.px_per_universe == PX_PER_UNIVERSE_510,
        placed(plan).len() == instances * t.strips@.len(),
        forall|i: int, k: int|
            0 <= i < instances && 0 <= k < t.strips@.len() ==> #[trigger] placed(plan)[i
                * t.strips@.len() + k] == placed_spec(t, first_device, first_universe, i, k),
        0 <= i < instances,
        0 <= k < t.strips@.len(),
        0 <= p < t.strips@[k].pixels,
        first_universe + (prefix(template_pixels(t), k) + p) / 170 <= u16::MAX,
    ensures
        ({
            let ps = placed(plan);
            let q = prefix(template_pixels(t), k) + p;
            let a = assign_prefix(ps, ps.len() as int, plan.px_per_universe, plan.order)[prefix(
                placed_pixels(ps),
                i * t.strips@.len() + k,
            ) + p];
            &&& a.device == first_device + i
            &&& a.universe == first_universe + q / 170
            &&& a.channel == (q % 170) * 3
            &&& a.format == ColorFormat::Rgb(order)
        }),
{
    let ps = placed(plan);
    let m = t.strips@.len() as int;
    let px = template_pixels(t);
    let fu = first_universe;
    let j = i * m + k;
    assert(j < instances * m) by (nonlinear_arith)
        requires
            0 <= i < instances,
            0 <= k < m,
            j == i * m + k,
    ;
    assert(j >= 0) by (nonlinear_arith)
        requires
            0 <= i,
            0 <= k,
            m >= 0,
            j == i * m + k,
    ;
    let s = ps[j];
    assert(s == placed_spec(t, first_device, first_universe, i, k));
    let c = prefix(px, k);
    let d = (first_device + i) as u16;
    assert(d == first_device + i);
    // Every strip of a built rig starts at or after `first_universe`, in a universe that fits.
    assert forall|jj: int| 0 <= jj < ps.len() && ps[jj].device == d implies fu <= #[trigger] ps[jj].universe by {
        let ii = jj / m;
        let kk = jj % m;
        assert(jj == ii * m + kk && 0 <= kk < m && 0 <= ii < instances) by (nonlinear_arith)
            requires
                m > 0,
                0 <= jj < instances * m,
                ii == jj / m,
                kk == jj % m,
        ;
        assert(ps[ii * m + kk] == placed_spec(t, first_device, first_universe, ii, kk));
        lemma_prefix_monotone(px, 0, kk);
        lemma_prefix_monotone(px, kk, m - 1);
        assert(prefix(px, kk) / 170 <= prefix(px, m - 1) / 170) by (nonlinear_arith)
            requires
                0 <= prefix(px, kk) <= prefix(px, m - 1),
        ;
    }
    // Strip 0 of instance `i` starts at `first_universe`.
    assert(ps[i * m + 0] == placed_spec(t, first_device, first_universe, i, 0));
    assert(i * m + 0 < instances * m) by (nonlinear_arith)
        requires
            0 <= i < instances,
            m > 0,
    ;
    assert(ps[i * m].universe == fu);
    assert(has_device(ps, d)) by {
        assert(ps[i * m].device == d);
    }
    lemma_first_universe_is_attained(ps, d);
    let w = choose|w: int| 0 <= w < ps.len() && ps[w].device == d && #[trigger] ps[w].universe
        == first_universe_spec(ps, d);
    assert(fu <= ps[w].universe);
    assert(first_universe_spec(ps, d) <= ps[i * m].universe);
    assert(first_universe_spec(ps, d) == fu);
    // Where the strip starts within its device.
    lemma_prefix_monotone(px, 0, k);
    lemma_prefix_monotone(px, k, m - 1);
    assert(c / 170 <= prefix(px, m - 1) / 170) by (nonlinear_arith)
        requires
            0 <= c <= prefix(px, m - 1),
    ;
    assert(s.universe == fu + c / 170);
    assert(s.channel == (c % 170) * 3);
    assert(start_px(s, fu as u32, 170) == c) by (nonlinear_arith)
        requires
            start_px(s, fu as u32, 170) == crate::profile::sat_sub(s.universe as int, fu as int) * 170
                + s.channel / 3,
            s.universe == fu + c / 170,
            s.channel == (c % 170) * 3,
            c >= 0,
    ;
    lemma_assign_prefix_at(ps, ps.len() as int, plan.px_per_universe, plan.order, j, p);
}

/// Law: a built rig never addresses two pixels to one place. Two different pixels of the
/// rig (`(i1, k1, p1) != (i2, k2, p2)`: instance, strip, pixel) get assignments that differ
/// in device, universe or channel.
pub proof fn lemma_rig_pixels_never_collide(
    plan: &RigPlan,
    t: &RigTemplate,
    instances: u16,
    first_device: u16,
    first_universe: u16,
    order: RgbOrder,
    i1: int,
    k1: int,
    p1: int,
    i2: int,
    k2: int,
    p2: int,
)
    requires
        rig_fits(t, instances, first_device, first_universe),
        plan.order == order,
        plan.px_per_universe == PX_PER_UNIVERSE_510,
        placed(plan).len() == instances * t.strips@.len(),
        forall|i: int, k: int|
            0 <= i < instances && 0 <= k < t.strips@.len() ==> #[trigger] placed(plan)[i
                * t.strips@.len() + k] == placed_spec(t, first_device, first_universe, i, k),
        0 <= i1 < instances,
        0 <= k1 < t.strips@.len(),
        0 <= p1 < t.strips@[k1].pixels,
        first_universe + (prefix(template_pixels(t), k1) + p1) / 170 <= u16::MAX,
        0 <= i2 < instances,
        0 <= k2 < t.strips@.len(),
        0 <= p2 < t.strips@[k2].pixels,
        first_universe + (prefix(template_pixels(t), k2) + p2) / 170 <= u16::MAX,
        (i1, k1, p1) != (i2, k2, p2),
    ensures
        ({
            let ps = placed(plan);
            let all = assign_prefix(ps, ps.len() as int, plan.px_per_universe, plan.order);
            let m = t.strips@.len() as int;
            let a = all[prefix(placed_pixels(ps), i1 * m + k1) + p1];
            let b = all[prefix(placed_pixels(ps), i2 * m + k2) + p2];
            (a.device, a.universe, a.channel) != (b.device, b.universe, b.channel)
        }),
{
    lemma_rig_pixel_assignment(plan, t, instances, first_device, first_universe, order, i1, k1, p1);
    lemma_rig_pixel_assignment(plan, t, instances, first_device, first_universe, order, i2, k2, p2);
    let px = template_pixels(t);
    let q1 = prefix(px, k1) + p1;
    let q2 = prefix(px, k2) + p2;
    if i1 == i2 {
        // Within one instance the pixel index inside the device tells the pixels apart.
        if k1 < k2 {
            lemma_prefix_monotone(px, k1 + 1, k2);
            assert(q1 < q2);
        } else if k2 < k1 {
            lemma_prefix_monotone(px, k2 + 1, k1);
            assert(q2 < q1);
        } else {
            assert(p1 != p2);
        }
        assert(q1 != q2);
        assert(q1 / 170 != q2 / 170 || q1 % 170 != q2 % 170) by (nonlinear_arith)
            requires
                q1 != q2,
        ;
    }
}

/// Strict lexicographic order on character sequences, compared from position `i` on.
pub open spec fn chars_lt_from(a: Seq<char>, b: Seq<char>, i: int) -> bool
    decreases a.len() - i,
{
    if i >= a.len() {
        i < b.len()
    } else if i >= b.len() {
        false
    } else if a[i] != b[i] {
        a[i] < b[i]
    } else {
        chars_lt_from(a, b, i + 1)
    }
}

/// Strict lexicographic order on character sequences: by code point, a proper prefix first.
pub open spec fn chars_lt(a: Seq<char>, b: Seq<char>) -> bool {
    chars_lt_from(a, b, 0)
}

proof fn lemma_chars_lt_irreflexive(a: Seq<char>, i: int)
    requires
        0 <= i,
    ensures
        !chars_lt_from(a, a, i),
    decreases a.len() - i,
{
    if i < a.len() {
        lemma_chars_lt_irreflexive(a, i + 1);
    }
}

proof fn lemma_chars_lt_total(a: Seq<char>, b: Seq<char>, i: int)
    requires
        0 <= i <= a.len(),
        i <= b.len(),
        forall|j: int| 0 <= j < i ==> a[j] == b[j],
    ensures
        chars_lt_from(a, b, i) || chars_lt_from(b, a, i) || a == b,
        !(chars_lt_from(a, b, i) && chars_lt_from(b, a, i)),
    decreases a.len() - i,
{
    if i < a.len() && i < b.len() && a[i] == b[i] {
        lemma_chars_lt_total(a, b, i + 1);
    } else if i == a.len() && i == b.len() {
        assert(a =~= b);
    }
}

proof fn lemma_chars_lt_transitive(a: Seq<char>, b: Seq<char>, c: Seq<char>, i: int)
    requires
        0 <= i <= a.len(),
        i <= b.len(),
        i <= c.len(),
        forall|j: int| 0 <= j < i ==> a[j] == b[j] && b[j] == c[j],
        chars_lt_from(a, b, i),
        chars_lt_from(b, c, i),
    ensures
        chars_lt_from(a, c, i),
    decreases a.len() - i,
{
    if i < a.len() && i < b.len() && i < c.len() && a[i] == b[i] && b[i] == c[i] {
        lemma_chars_lt_transitive(a, b, c, i + 1);
    }
}

/// One strip's channel range within its device, for the overlap check.
pub struct RangeView {
    pub device: u16,
    pub start: int,
    pub end: int,
    pub name: Seq<char>,
}

/// Strict order on ranges: by device, start, end, then name.
pub open spec fn range_lt(a: RangeView, b: RangeView) -> bool {
    ||| a.device < b.device
    ||| a.device == b.device && a.start < b.start
    ||| a.device == b.device && a.start == b.start && a.end < b.end
    ||| a.device == b.device && a.start == b.start && a.end == b.end && chars_lt(a.name, b.name)
}

/// `a` sorts no later than `b`.
pub open spec fn range_le(a: RangeView, b: RangeView) -> bool {
    range_lt(a, b) || a == b
}

proof fn lemma_range_order(a: RangeView, b: RangeView, c: RangeView)
    ensures
        !range_lt(a, a),
        range_lt(a, b) || range_lt(b, a) || a == b,
        !(range_lt(a, b) && range_lt(b, a)),
        range_lt(a, b) && range_lt(b, c) ==> range_lt(a, c),
{
    lemma_chars_lt_irreflexive(a.name, 0);
    lemma_chars_lt_total(a.name, b.name, 0);
    if a.device == b.device && a.start == b.start && a.end == b.end && a.name == b.name {
        assert(a == b);
    }
    if range_lt(a, b) && range_lt(b, c) && a.device == c.device && a.start == c.start && a.end
        == c.end {
        lemma_chars_lt_transitive(a.name, b.name, c.name, 0);
    }
}

/// The first universe of a device is at most the universe of each of its strips.
proof fn lemma_first_universe_is_least(ps: Seq<PlacedView>, j: int)
    requires
        0 <= j < ps.len(),
    ensures
        first_universe_spec(ps, ps[j].device) <= ps[j].universe,
    decreases ps.len(),
{
    let d = ps[j].device;
    let rest = ps.drop_last();
    if j < ps.len() - 1 {
        lemma_first_universe_is_least(rest, j);
        assert(rest[j] == ps[j]);
        assert(has_device(rest, d)) by {
            assert(rest[j].device == d);
        }
    }
}

/// The channel range of a strip within its device: `[start, start + 3 × pixels)`, counted
/// from the first universe of the device.
pub open spec fn range_of(s: PlacedView, fu: u32, ppu: u16) -> RangeView {
    let abs = (s.universe - fu) * ppu * 3 + s.channel;
    RangeView { device: s.device, start: abs, end: abs + s.pixels * 3, name: s.name }
}

/// The channel ranges of all strips of a plan, in strip order.
pub open spec fn plan_ranges(p: &RigPlan) -> Seq<RangeView> {
    let ps = placed(p);
    Seq::new(
        ps.len(),
        |j: int| range_of(ps[j], first_universe_spec(ps, ps[j].device), p.px_per_universe),
    )
}

/// The channel ranges of a plan fit `u32`.
pub open spec fn ranges_fit(p: &RigPlan) -> bool {
    forall|j: int| 0 <= j < plan_ranges(p).len() ==> #[trigger] plan_ranges(p)[j].end <= u32::MAX
}

/// Whether a sequence of ranges is in ascending order.
pub open spec fn ranges_sorted(s: Seq<RangeView>) -> bool {
    forall|i: int, j: int| 0 <= i < j < s.len() ==> range_le(#[trigger] s[i], #[trigger] s[j])
}

/// The order on ranges as a relation.
pub open spec fn range_leq() -> spec_fn(RangeView, RangeView) -> bool {
    |a: RangeView, b: RangeView| range_le(a, b)
}

/// The ranges in ascending order. The order is total, so the arrangement is unique.
pub open spec fn sorted_ranges(rv: Seq<RangeView>) -> Seq<RangeView> {
    rv.sort_by(range_leq())
}

proof fn lemma_range_leq_is_total()
    ensures
        total_ordering(range_leq()),
{
    let leq = range_leq();
    assert forall|x: RangeView| #[trigger] leq(x, x) by {}
    assert forall|x: RangeView, y: RangeView| #[trigger] leq(x, y) && #[trigger] leq(y, x) implies x
        == y by {
        lemma_range_order(x, y, y);
    }
    assert forall|x: RangeView, y: RangeView, z: RangeView|
        #[trigger] leq(x, y) && #[trigger] leq(y, z) implies leq(x, z) by {
        lemma_range_order(x, y, z);
    }
    assert forall|x: RangeView, y: RangeView| #[trigger] leq(x, y) || #[trigger] leq(y, x) by {
        lemma_range_order(x, y, y);
    }
}

/// A sorted arrangement of the same ranges is the sorted arrangement.
proof fn lemma_sorted_is_unique(rv: Seq<RangeView>, s: Seq<RangeView>)
    requires
        ranges_sorted(s),
        s.to_multiset() == rv.to_multiset(),
    ensures
        s == sorted_ranges(rv),
        ranges_sorted(sorted_ranges(rv)),
        sorted_ranges(rv).to_multiset() == rv.to_multiset(),
{
    let leq = range_leq();
    lemma_range_leq_is_total();
    rv.lemma_sort_by_ensures(leq);
    assert(sorted_by(s, leq)) by {
        assert forall|i: int, j: int| 0 <= i < j < s.len() implies #[trigger] leq(s[i], s[j]) by {
            assert(range_le(s[i], s[j]));
        }
    }
    vstd::seq_lib::lemma_sorted_unique(s, sorted_ranges(rv), leq);
    let t = sorted_ranges(rv);
    assert forall|i: int, j: int| 0 <= i < j < t.len() implies range_le(#[trigger] t[i], #[trigger] t[j]) by {
        assert(leq(t[i], t[j]));
    }
}

/// The ranges taken in the order of `perm`.
pub open spec fn permuted(r: Seq<RangeView>, perm: Seq<usize>) -> Seq<RangeView> {
    Seq::new(perm.len(), |k: int| r[perm[k] as int])
}

/// Two neighbours in sorted order conflict when they are on one device and the second
/// starts before the first ends.
pub open spec fn adjacent_conflict(s: Seq<RangeView>, k: int) -> bool {
    s[k].device == s[k + 1].device && s[k + 1].start < s[k].end
}

/// The names of the first neighbouring pair, from position `k` on, that conflicts.
pub open spec fn first_conflict_from(s: Seq<RangeView>, k: int) -> Option<(Seq<char>, Seq<char>)>
    decreases s.len() - k,
{
    if k < 0 || k + 1 >= s.len() {
        None
    } else if adjacent_conflict(s, k) {
        Some((s[k].name, s[k + 1].name))
    } else {
        first_conflict_from(s, k + 1)
    }
}

/// The names of a pair of strings.
pub open spec fn pair_view(r: Option<(String, String)>) -> Option<(Seq<char>, Seq<char>)> {
    match r {
        Some((a, b)) => Some((a@, b@)),
        None => None,
    }
}

/// A strip's range in executable form, its name as characters.
struct RangeKey {
    device: u16,
    start: u32,
    end: u32,
    name: Vec<char>,
}

impl View for RangeKey {
    type V = RangeView;

    closed spec fn view(&self) -> RangeView {
        RangeView {
            device: self.device,
            start: self.start as int,
            end: self.end as int,
            name: self.name@,
        }
    }
}

fn chars_lt_exec(a: &Vec<char>, b: &Vec<char>) -> (r: bool)
    ensures
        r == chars_lt(a@, b@),
{
    let mut i: usize = 0;
    while i < a.len() && i < b.len() && a[i] == b[i]
        invariant
            i <= a@.len(),
            i <= b@.len(),
            chars_lt(a@, b@) == chars_lt_from(a@, b@, i as int),
        decreases a@.len() - i,
    {
        i = i + 1;
    }
    if i >= a.len() {
        i < b.len()
    } else if i >= b.len() {
        false
    } else {
        a[i] < b[i]
    }
}

fn range_lt_exec(a: &RangeKey, b: &RangeKey) -> (r: bool)
    ensures
        r == range_lt(a@, b@),
{
    if a.device != b.device {
        a.device < b.device
    } else if a.start != b.start {
        a.start < b.start
    } else if a.end != b.end {
        a.end < b.end
    } else {
        chars_lt_exec(&a.name, &b.name)
    }
}

impl RigPlan {
    fn range_keys(&self) -> (keys: Vec<RangeKey>)
        requires
            ranges_fit(self),
        ensures
            keys@.len() == plan_ranges(self).len(),
            forall|j: int| 0 <= j < keys@.len() ==> (#[trigger] keys@[j])@ == plan_ranges(self)[j],
    {
        let ghost ps = placed(self);
        let ghost r = plan_ranges(self);
        let ppu = self.px_per_universe as u32;
        let mut keys: Vec<RangeKey> = Vec::new();
        let mut j: usize = 0;
        while j < self.strips.len()
            invariant
                ps == placed(self),
                r == plan_ranges(self),
                ps.len() == self.strips@.len(),
                r.len() == ps.len(),
                ppu == self.px_per_universe,
                ranges_fit(self),
                j <= ps.len(),
                keys@.len() == j,
                forall|t: int| 0 <= t < j ==> (#[trigger] keys@[t])@ == r[t],
            decreases ps.len() - j,
        {
            let s = &self.strips[j];
            assert(ps[j as int] == s@);
            let base = self.first_universe_of(s.device);
            proof {
                lemma_first_universe_is_least(ps, j as int);
                assert(r[j as int].end <= u32::MAX);
                assert((s.universe - base) * ppu * 3 >= 0) by (nonlinear_arith)
                    requires
                        s.universe >= base,
                ;
            }
            let abs = (s.universe as u32 - base) * ppu * 3 + s.channel as u32;
            let end = abs + s.pixels as u32 * 3;
            let name = crate::text::chars_of(s.name.as_str());
            keys.push(RangeKey { device: s.device, start: abs, end, name });
            j = j + 1;
        }
        keys
    }

    /// Checks that no two strips share a channel of a device: the ranges are sorted by
    /// device, start, end and name, and the first neighbouring pair on one device where the
    /// second starts before the first ends is returned by name. `None` when clean.
    pub fn verify_no_overlap(&self) -> (r: Option<(String, String)>)
        requires
            ranges_fit(self),
        ensures
            pair_view(r) == first_conflict_from(sorted_ranges(plan_ranges(self)), 0),
    {
        broadcast use vstd::multiset::group_multiset_axioms;

        let keys = self.range_keys();
        let ghost rv = plan_ranges(self);
        let n = keys.len();
        let ghost full = Seq::new(n as nat, |i: int| i as usize);
        let mut rest: Vec<usize> = Vec::new();
        let mut i: usize = 0;
        while i < n
            invariant
                n == keys@.len(),
                full == Seq::new(n as nat, |i: int| i as usize),
                i <= n,
                rest@ == full.subrange(0, i as int),
            decreases n - i,
        {
            rest.push(i);
            assert(rest@ =~= full.subrange(0, i + 1));
            i = i + 1;
        }
        assert(rest@ =~= full);
        let mut out: Vec<usize> = Vec::new();
        assert(permuted(rv, out@) + permuted(rv, rest@) =~= rv);
        while rest.len() > 0
            invariant
                n == keys@.len(),
                rv == plan_ranges(self),
                rv.len() == n,
                forall|j: int| 0 <= j < keys@.len() ==> (#[trigger] keys@[j])@ == rv[j],
                (permuted(rv, out@) + permuted(rv, rest@)).to_multiset() == rv.to_multiset(),
                forall|k: int| 0 <= k < out@.len() ==> #[trigger] out@[k] < n,
                forall|k: int| 0 <= k < rest@.len() ==> #[trigger] rest@[k] < n,
                ranges_sorted(permuted(rv, out@)),
                forall|a: int, b: int|
                    0 <= a < out@.len() && 0 <= b < rest@.len() ==> range_le(
                        rv[#[trigger] out@[a] as int],
                        rv[#[trigger] rest@[b] as int],
                    ),
            decreases rest@.len(),
        {
            let mut m: usize = 0;
            let mut t: usize = 1;
            while t < rest.len()
                invariant
                    n == keys@.len(),
                    forall|j: int| 0 <= j < keys@.len() ==> (#[trigger] keys@[j])@ == rv[j],
                    forall|k: int| 0 <= k < rest@.len() ==> #[trigger] rest@[k] < n,
                    0 < rest@.len(),
                    m < t,
                    t <= rest@.len(),
                    forall|u: int| 0 <= u < t ==> range_le(rv[rest@[m as int] as int], rv[#[trigger] rest@[u] as int]),
                decreases rest@.len() - t,
            {
                let lt = range_lt_exec(&keys[rest[t]], &keys[rest[m]]);
                proof {
                    let a = rv[rest@[t as int] as int];
                    let b = rv[rest@[m as int] as int];
                    lemma_range_order(a, b, b);
                    assert forall|u: int| 0 <= u < t + 1 implies range_le(
                        (if lt { a } else { b }),
                        rv[#[trigger] rest@[u] as int],
                    ) by {
                        let c = rv[rest@[u] as int];
                        lemma_range_order(a, b, c);
                    }
                }
                if lt {
                    m = t;
                }
                t = t + 1;
            }
            let ghost old_out = out@;
            let ghost old_rest = rest@;
            let x = rest.remove(m);
            out.push(x);
            proof {
                let vo = permuted(rv, old_out);
                let vr = permuted(rv, old_rest);
                assert(permuted(rv, out@) =~= vo.push(rv[x as int]));
                assert(permuted(rv, rest@) =~= vr.remove(m as int));
                vstd::seq_lib::to_multiset_remove(vr, m as int);
                vstd::seq_lib::to_multiset_build(vo, rv[x as int]);
                vstd::seq_lib::lemma_multiset_commutative(vo, vr);
                vstd::seq_lib::lemma_multiset_commutative(permuted(rv, out@), permuted(rv, rest@));
                assert(vr[m as int] == rv[x as int]);
                assert(vr.to_multiset().count(rv[x as int]) > 0) by {
                    vstd::seq_lib::to_multiset_contains(vr, rv[x as int]);
                }
                assert((permuted(rv, out@) + permuted(rv, rest@)).to_multiset() =~= (vo
                    + vr).to_multiset());
                assert forall|a: int, b: int|
                    0 <= a < out@.len() && 0 <= b < rest@.len() implies range_le(
                        rv[#[trigger] out@[a] as int],
                        rv[#[trigger] rest@[b] as int],
                    ) by {
                    let bb = if b < m { b } else { b + 1 };
                    assert(rest@[b] == old_rest[bb]);
                    if a < old_out.len() {
                        assert(out@[a] == old_out[a]);
                    } else {
                        assert(out@[a] == x);
                    }
                }
                let ps = permuted(rv, out@);
                assert forall|i1: int, j1: int| 0 <= i1 < j1 < ps.len() implies range_le(
                    #[trigger] ps[i1],
                    #[trigger] ps[j1],
                ) by {
                    if j1 < old_out.len() {
                        assert(ps[i1] == permuted(rv, old_out)[i1]);
                        assert(ps[j1] == permuted(rv, old_out)[j1]);
                    } else {
                        assert(out@[i1] == old_out[i1]);
                        assert(old_rest[m as int] == x);
                    }
                }
            }
        }
        let ghost sorted = permuted(rv, out@);
        proof {
            assert(permuted(rv, out@) + permuted(rv, rest@) =~= sorted);
            lemma_sorted_is_unique(rv, sorted);
        }
        let mut k: usize = 0;
        while out.len() > 0 && k < out.len() - 1
            invariant
                n == keys@.len(),
                n == self.strips@.len(),
                rv == plan_ranges(self),
                forall|j: int| 0 <= j < keys@.len() ==> (#[trigger] keys@[j])@ == rv[j],
                forall|q: int| 0 <= q < out@.len() ==> #[trigger] out@[q] < n,
                sorted == permuted(rv, out@),
                sorted == sorted_ranges(rv),
                ranges_sorted(sorted),
                k <= out@.len(),
                first_conflict_from(sorted, 0) == first_conflict_from(sorted, k as int),
            decreases out@.len() - k,
        {
            let a = &keys[out[k]];
            let b = &keys[out[k + 1]];
            assert(sorted[k as int] == a@);
            assert(sorted[k + 1] == b@);
            if a.device == b.device && b.start < a.end {
                let na = self.strips[out[k]].name.clone();
                let nb = self.strips[out[k + 1]].name.clone();
                proof {
                    assert(self.strips@[out@[k as int] as int]@.name == rv[out@[k as int] as int].name);
                    assert(self.strips@[out@[k + 1] as int]@.name == rv[out@[k + 1] as int].name);
                    assert(pair_view(Some((na, nb))) == first_conflict_from(sorted, 0));
                }
                return Some((na, nb));
            }
            k = k + 1;
        }
        assert(pair_view(None) == first_conflict_from(sorted, 0));
        None
    }
}

/// `a` sorts no later than `b`, both are on one device, and `b` starts before `a` ends.
pub open spec fn conflict(a: RangeView, b: RangeView) -> bool {
    a.device == b.device && range_le(a, b) && b.start < a.end
}

/// No two different strips conflict.
pub open spec fn clean(rv: Seq<RangeView>) -> bool {
    forall|i: int, j: int|
        0 <= i < rv.len() && 0 <= j < rv.len() && i != j ==> !conflict(
            #[trigger] rv[i],
            #[trigger] rv[j],
        )
}

proof fn lemma_first_conflict_none(s: Seq<RangeView>, k: int)
    requires
        0 <= k,
    ensures
        first_conflict_from(s, k) is None <==> forall|q: int|
            k <= q && q + 1 < s.len() ==> !#[trigger] adjacent_conflict(s, q),
    decreases s.len() - k,
{
    if k + 1 < s.len() {
        lemma_first_conflict_none(s, k + 1);
    }
}

/// In sorted order, a conflict anywhere shows as a conflict between neighbours.
proof fn lemma_sorted_conflict_is_adjacent(s: Seq<RangeView>, k: int, l: int)
    requires
        ranges_sorted(s),
        0 <= k < l < s.len(),
        conflict(s[k], s[l]),
    ensures
        adjacent_conflict(s, k),
{
    let a = s[k];
    let b = s[k + 1];
    let c = s[l];
    assert(range_le(a, b));
    if k + 1 < l {
        assert(range_le(b, c));
    }
}

/// A value occurs at two different positions exactly when it is counted at least twice.
proof fn lemma_count_two<A>(s: Seq<A>, v: A)
    ensures
        s.to_multiset().count(v) >= 2 <==> exists|i: int, j: int|
            0 <= i < s.len() && 0 <= j < s.len() && i != j && #[trigger] s[i] == v && #[trigger] s[j]
                == v,
    decreases s.len(),
{
    broadcast use vstd::multiset::group_multiset_axioms;

    if s.len() == 0 {
        assert(s.to_multiset() =~= vstd::multiset::Multiset::empty()) by {
            vstd::seq_lib::to_multiset_len(s);
            assert(s.to_multiset().len() == 0);
        }
    } else {
        let t = s.drop_last();
        let l = s.last();
        lemma_count_two(t, v);
        assert(s =~= t.push(l));
        vstd::seq_lib::to_multiset_build(t, l);
        vstd::seq_lib::to_multiset_contains(t, v);
        let last = s.len() - 1;
        if s.to_multiset().count(v) >= 2 {
            if l == v {
                assert(t.contains(v));
                let i = choose|i: int| 0 <= i < t.len() && t[i] == v;
                assert(s[i] == v && s[last] == v);
            } else {
                let (i, j) = choose|i: int, j: int|
                    0 <= i < t.len() && 0 <= j < t.len() && i != j && #[trigger] t[i] == v
                        && #[trigger] t[j] == v;
                assert(s[i] == t[i] && s[j] == t[j]);
            }
        }
        if exists|i: int, j: int|
            0 <= i < s.len() && 0 <= j < s.len() && i != j && #[trigger] s[i] == v && #[trigger] s[j]
                == v {
            let (i, j) = choose|i: int, j: int|
                0 <= i < s.len() && 0 <= j < s.len() && i != j && #[trigger] s[i] == v
                    && #[trigger] s[j] == v;
            if i < last && j < last {
                assert(t[i] == v && t[j] == v);
            } else if i == last {
                assert(t[j] == v);
                assert(t.contains(v));
            } else {
                assert(t[i] == v);
                assert(t.contains(v));
            }
        }
    }
}

/// A value is found at some position exactly when it is counted.
proof fn lemma_count_one<A>(s: Seq<A>, v: A)
    ensures
        s.to_multiset().count(v) >= 1 <==> exists|i: int| 0 <= i < s.len() && #[trigger] s[i] == v,
{
    vstd::seq_lib::to_multiset_contains(s, v);
}

/// Two values of `a` at different positions, as found in `b`, given equal multisets.
proof fn lemma_positions_carry_over(a: Seq<RangeView>, b: Seq<RangeView>, i: int, j: int)
    requires
        a.to_multiset() == b.to_multiset(),
        0 <= i < a.len(),
        0 <= j < a.len(),
        i != j,
    ensures
        exists|k: int, l: int|
            0 <= k < b.len() && 0 <= l < b.len() && k != l && #[trigger] b[k] == a[i] && #[trigger] b[l]
                == a[j],
{
    lemma_count_one(a, a[i]);
    lemma_count_one(a, a[j]);
    lemma_count_one(b, a[i]);
    lemma_count_one(b, a[j]);
    if a[i] == a[j] {
        lemma_count_two(a, a[i]);
        lemma_count_two(b, a[i]);
    } else {
        let k = choose|k: int| 0 <= k < b.len() && b[k] == a[i];
        let l = choose|l: int| 0 <= l < b.len() && b[l] == a[j];
        assert(b[k] == a[i] && b[l] == a[j]);
    }
}

/// Law: the check finds nothing exactly when the plan is clean: no two different strips
/// of one device share a channel (the one sorting first ends after the other starts).
pub proof fn lemma_no_overlap_iff_clean(rv: Seq<RangeView>)
    ensures
        first_conflict_from(sorted_ranges(rv), 0) is None <==> clean(rv),
{
    let s = sorted_ranges(rv);
    let leq = range_leq();
    lemma_range_leq_is_total();
    rv.lemma_sort_by_ensures(leq);
    assert forall|i: int, j: int| 0 <= i < j < s.len() implies range_le(#[trigger] s[i], #[trigger] s[j]) by {
        assert(leq(s[i], s[j]));
    }
    assert(ranges_sorted(s));
    lemma_first_conflict_none(s, 0);
    if first_conflict_from(s, 0) is None {
        assert forall|i: int, j: int|
            0 <= i < rv.len() && 0 <= j < rv.len() && i != j implies !conflict(
            #[trigger] rv[i],
            #[trigger] rv[j],
        ) by {
            if conflict(rv[i], rv[j]) {
                lemma_positions_carry_over(rv, s, i, j);
                let (k, l) = choose|k: int, l: int|
                    0 <= k < s.len() && 0 <= l < s.len() && k != l && #[trigger] s[k] == rv[i]
                        && #[trigger] s[l] == rv[j];
                if k < l {
                    lemma_sorted_conflict_is_adjacent(s, k, l);
                } else {
                    assert(range_le(s[l], s[k]));
                    lemma_range_order(s[l], s[k], s[k]);
                    assert(s[l] == s[k]);
                    lemma_sorted_conflict_is_adjacent(s, l, k);
                }
            }
        }
    } else {
        let q = choose|q: int| 0 <= q && q + 1 < s.len() && #[trigger] adjacent_conflict(s, q);
        assert(range_le(s[q], s[q + 1]));
        assert(conflict(s[q], s[q + 1]));
        lemma_positions_carry_over(s, rv, q, q + 1);
        let (i, j) = choose|i: int, j: int|
            0 <= i < rv.len() && 0 <= j < rv.len() && i != j && #[trigger] rv[i] == s[q]
                && #[trigger] rv[j] == s[q + 1];
        assert(conflict(rv[i], rv[j]));
    }
}

} // verus!
