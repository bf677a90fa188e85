//! The single owner of the partition arithmetic: a show over nodes, and a node over its
//! ports.
//!
//! The interval rule is the same at both levels: unit `i` starts at `i × tecto` and takes
//! `min(total − start, tecto)` pixels, so every unit is filled up to the ceiling and the
//! remainder lands in the last one that receives anything. Two rules differ between the
//! levels, and they enter as data or as a layer on top:
//!
//! - a unit left without pixels is refused for nodes (the operator chose the addresses) and
//!   accepted for ports (their number comes from the hardware): [`UnidadeVazia`];
//! - a port always starts a universe at channel 0, so ports never share one:
//!   [`repartir_portas`].

use vstd::prelude::*;

use crate::profile::{div_ceil, lemma_div_ceil_covers, sat_sub, HardwareProfile};

verus! {

/// What to do with a unit that gets no pixels.
#[derive(Clone, Copy, Debug, PartialEq, Eq, Structural)]
pub enum UnidadeVazia {
    /// Refuse: the node rule. Five addresses for a show that fits in two means the operator
    /// is mistaken.
    Recusa,
    /// Accept: the port rule. A show smaller than the node is normal.
    Aceita,
}

/// A slice: where it starts and how many pixels it takes.
#[derive(Clone, Copy, Debug, PartialEq, Eq, Structural)]
pub struct Fatia {
    pub pixel_offset: u32,
    pub pixel_count: usize,
}

/// A port's slice: a [`Fatia`] plus the universe the port starts at, always at channel 0.
#[derive(Clone, Copy, Debug, PartialEq, Eq, Structural)]
pub struct FatiaDePorta {
    pub index: u16,
    pub pixel_offset: u32,
    pub pixel_count: usize,
    pub universe_start: u16,
}

/// Why a partition was refused. Each variant carries the numbers.
#[derive(Clone, Copy, Debug, PartialEq, Eq, Structural)]
pub enum RepartirError {
    /// Zero units: nothing to partition over.
    SemUnidades,
    /// The per-unit ceiling is zero.
    TectoZero,
    /// The total does not fit the declared capacity.
    NaoCabe { total: usize, tecto: usize, unidades: usize, capacidade: usize },
    /// A unit would get no pixels, and the policy is [`UnidadeVazia::Recusa`].
    UnidadeSemPixeis { indice: usize, total: usize, tecto: usize, unidades: usize, cabem_em: usize },
    /// The derived universe does not fit a `u16`.
    UniversoForaDeFaixa { porta: u16, universo: u32 },
}

/// Pixels of unit `i`: what is left of `total` after `i` full units, at most `tecto`.
pub open spec fn count_spec(total: int, tecto: int, i: int) -> int {
    let r = sat_sub(total, i * tecto);
    if r < tecto { r } else { tecto }
}

/// The slice of unit `i`.
pub open spec fn fatia_spec(total: usize, tecto: usize, i: int) -> Fatia {
    Fatia {
        pixel_offset: (i * tecto) as u32,
        pixel_count: count_spec(total as int, tecto as int, i) as usize,
    }
}

/// `tecto × unidades`, saturating at `usize::MAX`.
pub open spec fn capacidade_spec(tecto: usize, unidades: usize) -> int {
    if tecto * unidades > usize::MAX { usize::MAX as int } else { tecto * unidades }
}

/// The first unit left without pixels: `ceil(total / tecto)`.
pub open spec fn primeira_vazia(total: usize, tecto: usize) -> int {
    div_ceil(total as int, tecto as int)
}

/// The partition of `total` pixels over `unidades` units of at most `tecto` each.
pub open spec fn repartir_spec(
    total: usize,
    tecto: usize,
    unidades: usize,
    vazia: UnidadeVazia,
) -> Result<Seq<Fatia>, RepartirError> {
    if unidades == 0 {
        Err(RepartirError::SemUnidades)
    } else if tecto == 0 {
        Err(RepartirError::TectoZero)
    } else if total > capacidade_spec(tecto, unidades) {
        Err(
            RepartirError::NaoCabe {
                total,
                tecto,
                unidades,
                capacidade: capacidade_spec(tecto, unidades) as usize,
            },
        )
    } else if vazia == UnidadeVazia::Recusa && primeira_vazia(total, tecto) < unidades {
        Err(
            RepartirError::UnidadeSemPixeis {
                indice: primeira_vazia(total, tecto) as usize,
                total,
                tecto,
                unidades,
                cabem_em: primeira_vazia(total, tecto) as usize,
            },
        )
    } else {
        Ok(Seq::new(unidades as nat, |i: int| fatia_spec(total, tecto, i)))
    }
}

/// The start offsets that the partition computes stay within `usize`: those of every unit
/// when it succeeds, up to the first empty unit when that one is refused.
pub open spec fn offsets_in_range(
    total: usize,
    tecto: usize,
    unidades: usize,
    vazia: UnidadeVazia,
) -> bool {
    ||| unidades == 0
    ||| tecto == 0
    ||| total > capacidade_spec(tecto, unidades)
    ||| if vazia == UnidadeVazia::Recusa && primeira_vazia(total, tecto) < unidades {
        primeira_vazia(total, tecto) * tecto <= usize::MAX
    } else {
        (unidades - 1) * tecto <= usize::MAX
    }
}

/// `ceil(a / b)` is the one `i` with `(i - 1) × b < a <= i × b`.
proof fn lemma_div_ceil_unique(a: int, b: int, i: int)
    requires
        a >= 0,
        b > 0,
        i >= 0,
        i * b >= a,
        i == 0 || (i - 1) * b < a,
    ensures
        i == div_ceil(a, b),
{
    lemma_div_ceil_covers(a, b);
    let d = div_ceil(a, b);
    if a == 0 && i > 0 {
        assert((i - 1) * b >= 0) by (nonlinear_arith)
            requires
                i >= 1,
                b > 0,
        ;
    } else if i < d {
        assert(i * b <= (d - 1) * b) by (nonlinear_arith)
            requires
                i <= d - 1,
                b > 0,
        ;
    } else if i > d {
        assert(d * b <= (i - 1) * b) by (nonlinear_arith)
            requires
                d <= i - 1,
                b > 0,
        ;
    }
}

/// Partitions `total` pixels over `unidades` units of at most `tecto` each. Every unit is
/// filled up to the ceiling and the remainder stays in the last unit that gets any, so the
/// partition depends only on the ceiling and the order: adding a unit at the end leaves the
/// earlier slices as they were.
pub fn repartir(total: usize, tecto: usize, unidades: usize, vazia: UnidadeVazia) -> (r: Result<
    Vec<Fatia>,
    RepartirError,
>)
    requires
        offsets_in_range(total, tecto, unidades, vazia),
    ensures
        match repartir_spec(total, tecto, unidades, vazia) {
            Ok(s) => r matches Ok(v) && v@ == s,
            Err(e) => r == Err::<Vec<Fatia>, RepartirError>(e),
        },
{
    if unidades == 0 {
        return Err(RepartirError::SemUnidades);
    }
    if tecto == 0 {
        return Err(RepartirError::TectoZero);
    }
    let capacidade = match tecto.checked_mul(unidades) {
        Some(c) => c,
        None => usize::MAX,
    };
    if total > capacidade {
        return Err(RepartirError::NaoCabe { total, tecto, unidades, capacidade });
    }
    let ghost k = primeira_vazia(total, tecto);
    proof {
        lemma_div_ceil_covers(total as int, tecto as int);
    }
    let mut fatias: Vec<Fatia> = Vec::new();
    let mut i: usize = 0;
    while i < unidades
        invariant
            0 < tecto,
            0 < unidades,
            i <= unidades,
            total <= capacidade_spec(tecto, unidades),
            offsets_in_range(total, tecto, unidades, vazia),
            k == primeira_vazia(total, tecto),
            k * tecto >= total,
            k == 0 || (k - 1) * tecto < total,
            vazia == UnidadeVazia::Recusa ==> (i == 0 || (i - 1) * tecto < total),
            fatias@ == Seq::new(i as nat, |j: int| fatia_spec(total, tecto, j)),
        decreases unidades - i,
    {
        proof {
            if vazia == UnidadeVazia::Recusa && k < unidades {
                if i > k {
                    assert(k * tecto <= (i - 1) * tecto) by (nonlinear_arith)
                        requires
                            k <= i - 1,
                            tecto > 0,
                    ;
                }
                assert(i * tecto <= k * tecto) by (nonlinear_arith)
                    requires
                        i <= k,
                        tecto > 0,
                ;
            } else {
                assert(i * tecto <= (unidades - 1) * tecto) by (nonlinear_arith)
                    requires
                        i <= unidades - 1,
                        tecto > 0,
                ;
            }
        }
        let inicio = i * tecto;
        let resto = if total >= inicio {
            total - inicio
        } else {
            0
        };
        let conta = if resto < tecto {
            resto
        } else {
            tecto
        };
        if conta == 0 && vazia == UnidadeVazia::Recusa {
            proof {
                lemma_div_ceil_unique(total as int, tecto as int, i as int);
                assert(i == 0 || (i - 1) * tecto < total);
            }
            return Err(
                RepartirError::UnidadeSemPixeis { indice: i, total, tecto, unidades, cabem_em: i },
            );
        }
        fatias.push(Fatia { pixel_offset: inicio as u32, pixel_count: conta });
        proof {
            assert(fatias@ =~= Seq::new((i + 1) as nat, |j: int| fatia_spec(total, tecto, j)));
            if vazia == UnidadeVazia::Recusa {
                assert(i * tecto < total);
            }
        }
        i = i + 1;
    }
    proof {
        if vazia == UnidadeVazia::Recusa && k < unidades {
            assert(k * tecto <= (unidades - 1) * tecto) by (nonlinear_arith)
                requires
                    k <= unidades - 1,
                    tecto > 0,
            ;
        }
    }
    Ok(fatias)
}

/// Pixels carried by a list of slices.
pub open spec fn soma_contas(s: Seq<Fatia>) -> int
    decreases s.len(),
{
    if s.len() == 0 {
        0
    } else {
        soma_contas(s.drop_last()) + s.last().pixel_count
    }
}

/// The first `n` units carry `min(total, n × tecto)` pixels.
proof fn lemma_prefix_sum(total: usize, tecto: usize, n: nat)
    requires
        tecto > 0,
    ensures
        soma_contas(Seq::new(n, |j: int| fatia_spec(total, tecto, j))) == if total <= n * tecto {
            total as int
        } else {
            n * tecto
        },
    decreases n,
{
    let s = Seq::new(n, |j: int| fatia_spec(total, tecto, j));
    if n > 0 {
        let m = (n - 1) as nat;
        lemma_prefix_sum(total, tecto, m);
        assert(s.drop_last() =~= Seq::new(m, |j: int| fatia_spec(total, tecto, j)));
        assert(n * tecto == m * tecto + tecto) by (nonlinear_arith)
            requires
                n == m + 1,
        ;
        assert(m * tecto >= 0) by (nonlinear_arith);
        let c = count_spec(total as int, tecto as int, m as int);
        assert(0 <= c <= tecto);
        assert(s.last().pixel_count == c);
        assert(soma_contas(s) == soma_contas(s.drop_last()) + c);
        let mt = m * tecto;
        assert(c == if total >= mt { if total - mt < tecto { total - mt } else { tecto as int } } else { 0 });
    } else {
        assert(n * tecto == 0) by (nonlinear_arith)
            requires
                n == 0,
        ;
    }
}

/// Law: a partition that succeeds hands out every pixel exactly once: the counts add up to
/// the total, each unit starts where the previous full units end, and none exceeds the
/// ceiling.
pub proof fn lemma_partition_covers_the_show(
    total: usize,
    tecto: usize,
    unidades: usize,
    vazia: UnidadeVazia,
)
    requires
        repartir_spec(total, tecto, unidades, vazia) is Ok,
    ensures
        ({
            let s = repartir_spec(total, tecto, unidades, vazia)->Ok_0;
            &&& s.len() == unidades
            &&& soma_contas(s) == total
            &&& forall|i: int|
                0 <= i < s.len() ==> (#[trigger] s[i]).pixel_count <= tecto && s[i].pixel_offset
                    == (i * tecto) as u32
        }),
{
    lemma_prefix_sum(total, tecto, unidades as nat);
}

/// Law: one rule at both levels. Partitioning over nodes of `portas × cap_porta` pixels and
/// then each node over its ports gives, port by port, the slices of a single partition over
/// `nos × portas` units of `cap_porta`.
pub proof fn lemma_nodes_then_ports_is_one_partition(
    total: int,
    cap_porta: int,
    portas: int,
    no: int,
    k: int,
)
    requires
        total >= 0,
        cap_porta >= 0,
        0 <= no,
        0 <= k < portas,
    ensures
        ({
            let tecto_no = portas * cap_porta;
            let no_count = count_spec(total, tecto_no, no);
            &&& no * tecto_no + k * cap_porta == (no * portas + k) * cap_porta
            &&& count_spec(no_count, cap_porta, k) == count_spec(total, cap_porta, no * portas + k)
        }),
{
    let tecto_no = portas * cap_porta;
    assert(no * tecto_no + k * cap_porta == (no * portas + k) * cap_porta) by (nonlinear_arith)
        requires
            tecto_no == portas * cap_porta,
    ;
    assert((k + 1) * cap_porta <= tecto_no) by (nonlinear_arith)
        requires
            tecto_no == portas * cap_porta,
            k + 1 <= portas,
            cap_porta >= 0,
    ;
    assert(k * cap_porta >= 0) by (nonlinear_arith)
        requires
            k >= 0,
            cap_porta >= 0,
    ;
    assert((k + 1) * cap_porta == k * cap_porta + cap_porta) by (nonlinear_arith);
}

/// The split node by node, then each node port by port, concatenated: for each node of the
/// node-level partition (ceiling `cap × portas`), its port slices shifted by the node's
/// offset.
pub open spec fn por_nos_e_portas(total: usize, cap: usize, portas: usize, nos: usize) -> Seq<
    Fatia,
> {
    let nodes = repartir_spec(total, (cap * portas) as usize, nos, UnidadeVazia::Aceita)->Ok_0;
    Seq::new(
        nos as nat,
        |n: int|
            repartir_spec(nodes[n].pixel_count, cap, portas, UnidadeVazia::Aceita)->Ok_0.map_values(
                |q: Fatia|
                    Fatia {
                        pixel_offset: (nodes[n].pixel_offset + q.pixel_offset) as u32,
                        pixel_count: q.pixel_count,
                    },
            ),
    ).flatten()
}

/// Element `n × p + k` of a concatenation of sequences of length `p` is element `k` of the
/// `n`-th.
proof fn lemma_flatten_uniform<A>(s: Seq<Seq<A>>, p: int, n: int, k: int)
    requires
        p >= 0,
        forall|i: int| 0 <= i < s.len() ==> (#[trigger] s[i]).len() == p,
        0 <= n < s.len(),
        0 <= k < p,
    ensures
        s.flatten().len() == s.len() * p,
        s.flatten()[n * p + k] == s[n][k],
    decreases s.len(),
{
    lemma_flatten_len(s, p);
    let rest = s.drop_first();
    assert forall|i: int| 0 <= i < rest.len() implies (#[trigger] rest[i]).len() == p by {
        assert(rest[i] == s[i + 1]);
    }
    assert(s[0].len() == p);
    assert(s.flatten() == s.first() + rest.flatten());
    if n > 0 {
        lemma_flatten_uniform(rest, p, n - 1, k);
        let idx = (n - 1) * p + k;
        assert(n * p + k == p + idx) by (nonlinear_arith)
            requires
                idx == (n - 1) * p + k,
        ;
        assert(idx >= 0) by (nonlinear_arith)
            requires
                idx == (n - 1) * p + k,
                n >= 1,
                p >= 0,
                k >= 0,
        ;
        assert(idx < rest.len() * p) by (nonlinear_arith)
            requires
                idx == (n - 1) * p + k,
                n <= rest.len(),
                n >= 1,
                0 <= k < p,
        ;
        assert((s.first() + rest.flatten())[p + idx] == rest.flatten()[idx]);
        assert(rest[n - 1] == s[n]);
    } else {
        assert(n * p + k == k) by (nonlinear_arith)
            requires
                n == 0,
        ;
        assert((s.first() + rest.flatten())[k] == s.first()[k]);
    }
}

proof fn lemma_flatten_len<A>(s: Seq<Seq<A>>, p: int)
    requires
        p >= 0,
        forall|i: int| 0 <= i < s.len() ==> (#[trigger] s[i]).len() == p,
    ensures
        s.flatten().len() == s.len() * p,
    decreases s.len(),
{
    if s.len() > 0 {
        let rest = s.drop_first();
        assert forall|i: int| 0 <= i < rest.len() implies (#[trigger] rest[i]).len() == p by {
            assert(rest[i] == s[i + 1]);
        }
        lemma_flatten_len(rest, p);
        assert(s.len() * p == p + rest.len() * p) by (nonlinear_arith)
            requires
                rest.len() == s.len() - 1,
        ;
    }
}

/// Law: one rule at both levels. Partitioning `total` pixels over `nos` nodes of
/// `cap × portas` pixels and then each node over its `portas` ports of `cap`, with the port
/// slices of each node shifted by the node's offset and concatenated node by node, gives
/// exactly the single partition of `total` over `nos × portas` units of `cap`.
pub proof fn lemma_nodes_then_ports_concatenate(total: usize, cap: usize, portas: usize, nos: usize)
    requires
        cap > 0,
        portas > 0,
        nos > 0,
        nos * portas * cap <= u32::MAX,
        total <= nos * portas * cap,
    ensures
        ({
            let nodes = repartir_spec(total, (cap * portas) as usize, nos, UnidadeVazia::Aceita);
            &&& nodes is Ok
            &&& forall|n: int|
                0 <= n < nos ==> (#[trigger] repartir_spec(
                    nodes->Ok_0[n].pixel_count,
                    cap,
                    portas,
                    UnidadeVazia::Aceita,
                )) is Ok
            &&& repartir_spec(total, cap, (nos * portas) as usize, UnidadeVazia::Aceita) is Ok
            &&& por_nos_e_portas(total, cap, portas, nos) == repartir_spec(
                total,
                cap,
                (nos * portas) as usize,
                UnidadeVazia::Aceita,
            )->Ok_0
        }),
{
    let tn = cap * portas;
    let units = nos * portas;
    assert(tn <= nos * portas * cap && units <= nos * portas * cap && tn > 0 && units > 0
        && nos * tn == units * cap && nos * portas * cap == units * cap) by (nonlinear_arith)
        requires
            cap > 0,
            portas > 0,
            nos > 0,
            tn == cap * portas,
            units == nos * portas,
    ;
    let tnu = tn as usize;
    let uu = units as usize;
    assert(tn * nos == nos * tn && cap * units == units * cap) by (nonlinear_arith);
    assert(capacidade_spec(tnu, nos) == nos * tn);
    assert(capacidade_spec(cap, uu) == units * cap);
    let nodes = repartir_spec(total, tnu, nos, UnidadeVazia::Aceita);
    assert(nodes is Ok);
    let ns = nodes->Ok_0;
    assert forall|n: int| 0 <= n < nos implies (#[trigger] repartir_spec(
        ns[n].pixel_count,
        cap,
        portas,
        UnidadeVazia::Aceita,
    )) is Ok by {
        assert(ns[n] == fatia_spec(total, tnu, n));
        assert(capacidade_spec(cap, portas) == tn);
    }
    let flat = repartir_spec(total, cap, uu, UnidadeVazia::Aceita);
    assert(flat is Ok);
    let inner = |n: int|
        repartir_spec(ns[n].pixel_count, cap, portas, UnidadeVazia::Aceita)->Ok_0.map_values(
            |q: Fatia|
                Fatia {
                    pixel_offset: (ns[n].pixel_offset + q.pixel_offset) as u32,
                    pixel_count: q.pixel_count,
                },
        );
    let s = Seq::new(nos as nat, inner);
    assert forall|i: int| 0 <= i < s.len() implies (#[trigger] s[i]).len() == portas by {
        assert(repartir_spec(ns[i].pixel_count, cap, portas, UnidadeVazia::Aceita) is Ok) by {
            assert(ns[i] == fatia_spec(total, tnu, i));
            assert(capacidade_spec(cap, portas) == tn);
        }
    }
    lemma_flatten_len(s, portas as int);
    assert(por_nos_e_portas(total, cap, portas, nos) == s.flatten());
    let f = flat->Ok_0;
    assert forall|j: int| 0 <= j < f.len() implies #[trigger] s.flatten()[j] == f[j] by {
        let n = j / (portas as int);
        let k = j % (portas as int);
        assert(j == n * portas + k && 0 <= n < nos && 0 <= k < portas) by (nonlinear_arith)
            requires
                portas > 0,
                0 <= j < nos * portas,
                n == j / (portas as int),
                k == j % (portas as int),
        ;
        lemma_flatten_uniform(s, portas as int, n, k);
        lemma_nodes_then_ports_is_one_partition(total as int, cap as int, portas as int, n, k);
        assert(n * tn + k * cap <= units * cap && 0 <= k * cap && 0 <= n * tn && j * cap
            <= units * cap) by (nonlinear_arith)
            requires
                0 <= n < nos,
                0 <= k < portas,
                j == n * portas + k,
                j < units,
                tn == cap * portas,
                units == nos * portas,
                cap > 0,
        ;
        assert(ns[n] == fatia_spec(total, tnu, n));
        let node = ns[n];
        assert(repartir_spec(node.pixel_count, cap, portas, UnidadeVazia::Aceita) is Ok) by {
            assert(capacidade_spec(cap, portas) == tn);
        }
        let ports = repartir_spec(node.pixel_count, cap, portas, UnidadeVazia::Aceita)->Ok_0;
        assert(ports[k] == fatia_spec(node.pixel_count, cap, k));
        assert(node.pixel_count == count_spec(total as int, tn, n));
        assert(f[j] == fatia_spec(total, cap, j));
    }
    assert(s.flatten() =~= f);
}

/// Law: adding a unit at the end leaves the slices of the earlier units as they were.
pub proof fn lemma_appending_a_unit_keeps_earlier_slices(
    total: usize,
    tecto: usize,
    unidades: usize,
    vazia: UnidadeVazia,
)
    requires
        unidades < usize::MAX,
        repartir_spec(total, tecto, unidades, vazia) is Ok,
        repartir_spec(total, tecto, (unidades + 1) as usize, vazia) is Ok,
    ensures
        repartir_spec(total, tecto, (unidades + 1) as usize, vazia)->Ok_0.subrange(0, unidades as int)
            == repartir_spec(total, tecto, unidades, vazia)->Ok_0,
{
    assert(repartir_spec(total, tecto, (unidades + 1) as usize, vazia)->Ok_0.subrange(
        0,
        unidades as int,
    ) =~= repartir_spec(total, tecto, unidades, vazia)->Ok_0);
}

/// `ceil` grows with its numerator.
proof fn lemma_div_ceil_monotone(a: int, b: int, c: int)
    requires
        0 <= a <= b,
        c > 0,
    ensures
        div_ceil(a, c) <= div_ceil(b, c),
{
    lemma_div_ceil_covers(a, c);
    lemma_div_ceil_covers(b, c);
    let da = div_ceil(a, c);
    let db = div_ceil(b, c);
    if da > db && a > 0 {
        assert(db * c <= (da - 1) * c) by (nonlinear_arith)
            requires
                db <= da - 1,
                c > 0,
        ;
    }
}

/// The first port whose start universe would pass `u16::MAX`.
pub open spec fn primeira_fora(first_universe: u16, por_porta: int) -> int {
    div_ceil(0x1_0000 - first_universe, por_porta)
}

/// Universes each port spans: `ceil(capacity per port / pixels per universe)`.
pub open spec fn universos_por_porta(cap: int, ppu: int) -> int {
    div_ceil(cap, ppu)
}

/// Capacity per port: the declared maximum split evenly over the ports.
pub open spec fn cap_por_porta(p: HardwareProfile) -> int {
    p.limits.max_pixels as int / p.capabilities.ports as int
}

/// The partition of a node's pixels over its physical ports, each starting a universe.
pub open spec fn repartir_portas_spec(
    p: HardwareProfile,
    pixeis: usize,
    first_universe: u16,
) -> Result<Seq<FatiaDePorta>, RepartirError> {
    let ports = p.capabilities.ports;
    let ppu = p.limits.pixels_per_universe;
    if ports == 0 {
        Err(RepartirError::SemUnidades)
    } else if ppu == 0 {
        Err(RepartirError::TectoZero)
    } else {
        let cap = cap_por_porta(p);
        match repartir_spec(pixeis, cap as usize, ports as usize, UnidadeVazia::Aceita) {
            Err(e) => Err(e),
            Ok(fatias) => {
                let upp = universos_por_porta(cap, ppu as int);
                let k0 = primeira_fora(first_universe, upp);
                if k0 < ports {
                    Err(
                        RepartirError::UniversoForaDeFaixa {
                            porta: k0 as u16,
                            universo: (first_universe + k0 * upp) as u32,
                        },
                    )
                } else {
                    Ok(
                        Seq::new(
                            ports as nat,
                            |k: int|
                                FatiaDePorta {
                                    index: k as u16,
                                    pixel_offset: fatias[k].pixel_offset,
                                    pixel_count: fatias[k].pixel_count,
                                    universe_start: (first_universe + k * upp) as u16,
                                },
                        ),
                    )
                }
            },
        }
    }
}

/// The derived start universes that are computed stay within `u32`: up to the first one
/// past `u16::MAX`, when there is one.
pub open spec fn universes_in_range(p: HardwareProfile, pixeis: usize, first_universe: u16) -> bool {
    let ports = p.capabilities.ports;
    let ppu = p.limits.pixels_per_universe;
    let cap = cap_por_porta(p);
    let upp = universos_por_porta(cap, ppu as int);
    let k0 = primeira_fora(first_universe, upp);
    ||| ports == 0
    ||| ppu == 0
    ||| cap == 0
    ||| pixeis > cap * ports
    ||| k0 >= ports
    ||| first_universe + k0 * upp <= u32::MAX
}

/// Partitions a node's pixels over its physical ports. The capacity of a port is derived,
/// `max_pixels / ports`; an empty port is valid; and each port starts a universe of its own
/// at channel 0, `ceil(capacity / pixels_per_universe)` universes after the previous one.
pub fn repartir_portas(profile: &HardwareProfile, pixeis_do_no: usize, first_universe: u16) -> (r:
    Result<Vec<FatiaDePorta>, RepartirError>)
    requires
        universes_in_range(*profile, pixeis_do_no, first_universe),
    ensures
        match repartir_portas_spec(*profile, pixeis_do_no, first_universe) {
            Ok(s) => r matches Ok(v) && v@ == s,
            Err(e) => r == Err::<Vec<FatiaDePorta>, RepartirError>(e),
        },
{
    let portas = profile.capabilities.ports as usize;
    if portas == 0 {
        return Err(RepartirError::SemUnidades);
    }
    let ppu = profile.limits.pixels_per_universe as usize;
    if ppu == 0 {
        return Err(RepartirError::TectoZero);
    }
    let capacidade_por_porta = profile.limits.max_pixels as usize / portas;
    proof {
        assert(capacidade_por_porta * portas <= profile.limits.max_pixels) by (nonlinear_arith)
            requires
                capacidade_por_porta == profile.limits.max_pixels as int / portas as int,
                portas > 0,
        ;
        assert((portas - 1) * capacidade_por_porta <= capacidade_por_porta * portas)
            by (nonlinear_arith)
            requires
                portas >= 1,
        ;
    }
    let fatias = match repartir(pixeis_do_no, capacidade_por_porta, portas, UnidadeVazia::Aceita) {
        Ok(v) => v,
        Err(e) => {
            return Err(e);
        },
    };
    let ghost sf = fatias@;
    // The quotient rounded up is what keeps ports off each other's universes.
    let whole = capacidade_por_porta / ppu;
    let universos = if capacidade_por_porta % ppu != 0 {
        assert(whole < usize::MAX) by (nonlinear_arith)
            requires
                whole == capacidade_por_porta / ppu,
                capacidade_por_porta % ppu != 0,
                ppu >= 1,
        ;
        whole + 1
    } else {
        whole
    };
    let ghost upp = universos_por_porta(capacidade_por_porta as int, ppu as int);
    let ghost k0 = primeira_fora(first_universe, upp);
    proof {
        lemma_div_ceil_covers(capacidade_por_porta as int, ppu as int);
        lemma_div_ceil_monotone(1, capacidade_por_porta as int, ppu as int);
        lemma_div_ceil_covers(1, ppu as int);
        lemma_div_ceil_covers(0x1_0000 - first_universe, upp);
        assert(universos as int == upp);
        assert(upp <= capacidade_por_porta) by (nonlinear_arith)
            requires
                (upp - 1) * ppu < capacidade_por_porta,
                ppu >= 1,
                upp >= 1,
        ;
    }
    let mut out: Vec<FatiaDePorta> = Vec::new();
    let mut k: usize = 0;
    while k < portas
        invariant
            portas == profile.capabilities.ports,
            ppu == profile.limits.pixels_per_universe,
            ppu > 0,
            portas > 0,
            capacidade_por_porta == cap_por_porta(*profile),
            upp == universos_por_porta(capacidade_por_porta as int, ppu as int),
            repartir_spec(pixeis_do_no, capacidade_por_porta, portas, UnidadeVazia::Aceita)
                == Ok::<Seq<Fatia>, RepartirError>(sf),
            sf.len() == portas,
            fatias@ == sf,
            1 <= universos,
            universos as int == upp,
            upp <= capacidade_por_porta,
            capacidade_por_porta * portas <= profile.limits.max_pixels,
            k0 == primeira_fora(first_universe, upp),
            k0 * upp >= 0x1_0000 - first_universe,
            k0 == 0 || (k0 - 1) * upp < 0x1_0000 - first_universe,
            k0 >= portas || first_universe + k0 * upp <= u32::MAX,
            k <= portas,
            k <= k0,
            out@ == Seq::new(
                k as nat,
                |j: int|
                    FatiaDePorta {
                        index: j as u16,
                        pixel_offset: sf[j].pixel_offset,
                        pixel_count: sf[j].pixel_count,
                        universe_start: (first_universe + j * upp) as u16,
                    },
            ),
        decreases portas - k,
    {
        proof {
            if k < k0 {
                assert(k * upp <= (k0 - 1) * upp) by (nonlinear_arith)
                    requires
                        k <= k0 - 1,
                        upp >= 1,
                ;
            }
            assert(k * upp >= 0) by (nonlinear_arith)
                requires
                    upp >= 1,
            ;
        }
        let universo: u32 = first_universe as u32 + (k * universos) as u32;
        if universo > 0xffff {
            proof {
                assert(k * upp >= 0x1_0000 - first_universe);
                if k > 0 {
                    assert((k - 1) * upp <= (k0 - 1) * upp) by (nonlinear_arith)
                        requires
                            k <= k0,
                            upp >= 1,
                    ;
                }
                lemma_div_ceil_unique(
                    0x1_0000 - first_universe,
                    upp,
                    k as int,
                );
            }
            proof {
                assert(k == k0);
                assert(universo == (first_universe + k0 * upp) as u32);
                assert(repartir_spec(
                    pixeis_do_no,
                    capacidade_por_porta,
                    portas,
                    UnidadeVazia::Aceita,
                ) is Ok);
            }
            return Err(RepartirError::UniversoForaDeFaixa { porta: k as u16, universo });
        }
        let f = fatias[k];
        out.push(
            FatiaDePorta {
                index: k as u16,
                pixel_offset: f.pixel_offset,
                pixel_count: f.pixel_count,
                universe_start: universo as u16,
            },
        );
        proof {
            if k + 1 > k0 {
                assert(k0 * upp <= k * upp) by (nonlinear_arith)
                    requires
                        k0 <= k,
                        upp >= 1,
                ;
            }
        }
        k = k + 1;
    }
    proof {
        if k0 < portas {
            assert(k0 * upp <= (portas - 1) * upp) by (nonlinear_arith)
                requires
                    k0 <= portas - 1,
                    upp >= 1,
            ;
        }
    }
    Ok(out)
}

/// Law: two ports never share a universe. A port spans `ceil(count / pixels_per_universe)`
/// universes from its start, and the next port starts after the last of them.
pub proof fn lemma_ports_never_share_a_universe(
    p: HardwareProfile,
    pixeis: usize,
    first_universe: u16,
    k: int,
)
    requires
        repartir_portas_spec(p, pixeis, first_universe) is Ok,
        0 <= k,
        k + 1 < repartir_portas_spec(p, pixeis, first_universe)->Ok_0.len(),
    ensures
        ({
            let s = repartir_portas_spec(p, pixeis, first_universe)->Ok_0;
            let ppu = p.limits.pixels_per_universe as int;
            s[k].universe_start + div_ceil(s[k].pixel_count as int, ppu) <= s[k + 1].universe_start
        }),
{
    let ppu = p.limits.pixels_per_universe as int;
    let cap = cap_por_porta(p);
    let upp = universos_por_porta(cap, ppu);
    let fatias = repartir_spec(pixeis, cap as usize, p.capabilities.ports as usize, UnidadeVazia::Aceita)->Ok_0;
    let s = repartir_portas_spec(p, pixeis, first_universe)->Ok_0;
    assert(repartir_spec(pixeis, cap as usize, p.capabilities.ports as usize, UnidadeVazia::Aceita) is Ok);
    assert(cap >= 0) by (nonlinear_arith)
        requires
            cap == p.limits.max_pixels as int / p.capabilities.ports as int,
            p.capabilities.ports > 0,
    ;
    assert(cap <= p.limits.max_pixels) by (nonlinear_arith)
        requires
            cap == p.limits.max_pixels as int / p.capabilities.ports as int,
            p.capabilities.ports > 0,
    ;
    assert(cap >= 1);
    assert(fatias[k].pixel_count <= cap);
    lemma_div_ceil_monotone(fatias[k].pixel_count as int, cap, ppu);
    lemma_div_ceil_covers(cap, ppu);
    assert(upp >= 1) by (nonlinear_arith)
        requires
            upp * ppu >= cap,
            cap >= 1,
            ppu > 0,
    ;
    lemma_div_ceil_covers(0x1_0000 - first_universe, upp);
    assert((k + 1) * upp == k * upp + upp) by (nonlinear_arith);
    let k0 = primeira_fora(first_universe, upp);
    assert((k + 1) * upp <= (k0 - 1) * upp) by (nonlinear_arith)
        requires
            k + 1 <= k0 - 1,
            upp >= 0,
    ;
    assert(k * upp >= 0) by (nonlinear_arith)
        requires
            k >= 0,
            upp >= 0,
    ;
}

} // verus!
