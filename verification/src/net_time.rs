//! Two-way time transfer for multi-node shows: the wire format of the request and the
//! reply, and the offset/delay arithmetic (the same as NTP's and PTP's delay
//! request-response):
//!
//! ```text
//! client t1 ──request──▶ server t2 (receive)
//! client t4 ◀──reply──── server t3 (send)      offset = ((t2-t1)+(t3-t4))/2
//!                                              delay  = (t4-t1)-(t3-t2)
//! ```
//!
//! A request is `"LMTS"` then `t1` (little endian); a reply is `"LMTS"`, the echoed `t1`,
//! then `t2` and `t3`. Sockets and clock reads live with the caller.

use vstd::prelude::*;

use crate::shared_clock::{adjusted, as_signed, ClockView, SharedClock};

verus! {

/// Length of a request: magic + `t1`.
pub const REQ_LEN: usize = 12;

/// Length of a reply: magic + `t1` + `t2` + `t3`.
pub const REP_LEN: usize = 28;

/// The four magic bytes, `"LMTS"`.
pub open spec fn magic() -> Seq<u8> {
    seq![76u8, 77u8, 84u8, 83u8]
}

/// One two-way measurement against a time server.
#[derive(Clone, Copy, Debug)]
pub struct TimeSample {
    /// Estimated offset to add to the local clock to match the server (ms).
    pub offset_ms: i64,
    /// Round-trip delay of the exchange (ms).
    pub delay_ms: u64,
}

/// The first `n` little-endian bytes of `t`.
pub open spec fn le_bytes(t: nat, n: nat) -> Seq<u8>
    decreases n,
{
    if n == 0 {
        Seq::empty()
    } else {
        seq![(t % 256) as u8] + le_bytes(t / 256, (n - 1) as nat)
    }
}

/// The number whose little-endian bytes are `b`.
pub open spec fn from_le(b: Seq<u8>) -> nat
    decreases b.len(),
{
    if b.len() == 0 {
        0
    } else {
        b[0] as nat + 256 * from_le(b.drop_first())
    }
}

/// `256^n`.
pub open spec fn pow256(n: nat) -> nat
    decreases n,
{
    if n == 0 { 1 } else { 256 * pow256((n - 1) as nat) }
}

proof fn lemma_le_bytes_len(t: nat, n: nat)
    ensures
        le_bytes(t, n).len() == n,
    decreases n,
{
    if n > 0 {
        lemma_le_bytes_len(t / 256, (n - 1) as nat);
    }
}

proof fn lemma_from_le_bound(b: Seq<u8>)
    ensures
        from_le(b) < pow256(b.len()),
    decreases b.len(),
{
    if b.len() > 0 {
        lemma_from_le_bound(b.drop_first());
        let r = from_le(b.drop_first());
        let p = pow256((b.len() - 1) as nat);
        assert(b[0] as nat + 256 * r < 256 * p) by (nonlinear_arith)
            requires r < p, b[0] < 256;
    }
}

/// Reading back bytes that were written: `from_le(le_bytes(t, n)) == t` when `t` fits.
pub proof fn lemma_le_round_trip(t: nat, n: nat)
    requires
        t < pow256(n),
    ensures
        from_le(le_bytes(t, n)) == t,
    decreases n,
{
    if n > 0 {
        let q = t / 256;
        let p = pow256((n - 1) as nat);
        assert(q < p) by (nonlinear_arith)
            requires t < 256 * p, q == t / 256;
        lemma_le_round_trip(q, (n - 1) as nat);
        lemma_le_bytes_len(q, (n - 1) as nat);
        assert(le_bytes(t, n).drop_first() =~= le_bytes(q, (n - 1) as nat));
        assert(t == t % 256 + 256 * q) by (nonlinear_arith)
            requires q == t / 256;
    }
}

proof fn lemma_pow256_8()
    ensures
        pow256(8) == 0x1_0000_0000_0000_0000,
{
    reveal_with_fuel(pow256, 9);
}

/// The 8 little-endian bytes of a `u64`.
pub fn u64_to_le(t: u64) -> (b: [u8; 8])
    ensures
        b@ == le_bytes(t as nat, 8),
{
    let mut b = [0u8; 8];
    let mut v = t;
    let mut k: usize = 0;
    while k < 8
        invariant
            0 <= k <= 8,
            b@.len() == 8,
            le_bytes(t as nat, 8) == b@.subrange(0, k as int) + le_bytes(v as nat, (8 - k) as nat),
        decreases 8 - k,
    {
        proof {
            lemma_le_bytes_len(v as nat, (8 - k) as nat);
        }
        b[k] = (v % 256) as u8;
        proof {
            assert(le_bytes(v as nat, (8 - k) as nat) =~= seq![(v % 256) as u8] + le_bytes(
                (v / 256) as nat,
                (8 - k - 1) as nat,
            ));
            assert(b@.subrange(0, k + 1) =~= b@.subrange(0, k as int) + seq![(v % 256) as u8]);
        }
        v = v / 256;
        k = k + 1;
    }
    assert(b@.subrange(0, 8) =~= b@);
    b
}

/// The `u64` whose little-endian bytes are `b[at..at + 8]`.
pub fn u64_from_le(b: &[u8], at: usize) -> (t: u64)
    requires
        at + 8 <= b@.len(),
    ensures
        t as nat == from_le(b@.subrange(at as int, at + 8)),
{
    let mut acc: u64 = 0;
    let mut k: usize = 8;
    let len = b.len();
    proof {
        reveal_with_fuel(pow256, 9);
    }
    while k > 0
        invariant
            0 <= k <= 8,
            at + 8 <= b@.len(),
            len == b@.len(),
            acc as nat == from_le(b@.subrange(at + k, at + 8)),
            acc < pow256((8 - k) as nat),
            pow256(8) == 0x1_0000_0000_0000_0000,
        decreases k,
    {
        let ghost s = b@.subrange(at + k - 1, at + 8);
        assert(s.drop_first() =~= b@.subrange(at + k, at + 8));
        proof {
            lemma_from_le_bound(s);
            assert(s.len() == 9 - k);
            assert(pow256((9 - k) as nat) == 256 * pow256((8 - k) as nat));
            assert(pow256((9 - k) as nat) <= pow256(8)) by {
                lemma_pow256_mono((9 - k) as nat, 8);
            }
        }
        let j: usize = at + (k - 1);
        acc = acc * 256 + b[j] as u64;
        k = k - 1;
    }
    acc
}

proof fn lemma_pow256_mono(a: nat, b: nat)
    requires
        a <= b,
    ensures
        pow256(a) <= pow256(b),
    decreases b,
{
    if a < b {
        lemma_pow256_mono(a, (b - 1) as nat);
    }
}

/// The request sent at local time `t1`.
pub open spec fn request_spec(t1: u64) -> Seq<u8> {
    magic() + le_bytes(t1 as nat, 8)
}

/// The reply to `req` received at `t2` and sent at `t3`, or `None` when `req` is not a
/// well-formed request (wrong length or magic).
pub open spec fn reply_spec(req: Seq<u8>, t2: u64, t3: u64) -> Option<Seq<u8>> {
    if req.len() != REQ_LEN || req.subrange(0, 4) != magic() {
        None
    } else {
        Some(magic() + req.subrange(4, 12) + le_bytes(t2 as nat, 8) + le_bytes(t3 as nat, 8))
    }
}

/// The `(t2, t3)` carried by `rep` when it is a well-formed reply to the request sent at
/// `t1` (right length, magic and echoed `t1`), else `None`.
pub open spec fn parse_reply_spec(rep: Seq<u8>, t1: u64) -> Option<(u64, u64)> {
    if rep.len() != REP_LEN || rep.subrange(0, 4) != magic() || rep.subrange(4, 12) != le_bytes(
        t1 as nat,
        8,
    ) {
        None
    } else {
        Some(
            (
                from_le(rep.subrange(12, 20)) as u64,
                from_le(rep.subrange(20, 28)) as u64,
            ),
        )
    }
}

fn has_magic(b: &[u8]) -> (r: bool)
    requires
        b@.len() >= 4,
    ensures
        r == (b@.subrange(0, 4) == magic()),
{
    let r = b[0] == 76u8 && b[1] == 77u8 && b[2] == 84u8 && b[3] == 83u8;
    if r {
        assert(b@.subrange(0, 4) =~= magic());
    } else {
        assert(b@.subrange(0, 4) != magic()) by {
            if b@.subrange(0, 4) == magic() {
                assert(b@.subrange(0, 4)[0] == 76u8);
                assert(b@.subrange(0, 4)[1] == 77u8);
                assert(b@.subrange(0, 4)[2] == 84u8);
                assert(b@.subrange(0, 4)[3] == 83u8);
            }
        }
    }
    r
}

fn push_all(out: &mut Vec<u8>, b: &[u8])
    ensures
        final(out)@ == old(out)@ + b@,
{
    let mut i: usize = 0;
    while i < b.len()
        invariant
            0 <= i <= b@.len(),
            out@ == old(out)@ + b@.subrange(0, i as int),
        decreases b@.len() - i,
    {
        out.push(b[i]);
        assert(b@.subrange(0, i + 1) =~= b@.subrange(0, i as int).push(b@[i as int]));
        i = i + 1;
    }
    assert(b@.subrange(0, b@.len() as int) =~= b@);
}

/// The request for a measurement started at local time `t1`.
pub fn encode_request(t1: u64) -> (req: Vec<u8>)
    ensures
        req@ == request_spec(t1),
{
    let mut req: Vec<u8> = Vec::new();
    req.push(76u8);
    req.push(77u8);
    req.push(84u8);
    req.push(83u8);
    let t = u64_to_le(t1);
    push_all(&mut req, &t);
    assert(req@ =~= request_spec(t1));
    req
}

/// The server's answer to `req` (see [`reply_spec`]).
pub fn reply_for(req: &[u8], t2: u64, t3: u64) -> (rep: Option<Vec<u8>>)
    ensures
        match rep {
            Some(r) => reply_spec(req@, t2, t3) == Some(r@),
            None => reply_spec(req@, t2, t3).is_none(),
        },
{
    if req.len() != REQ_LEN || !has_magic(req) {
        return None;
    }
    let mut rep: Vec<u8> = Vec::new();
    rep.push(76u8);
    rep.push(77u8);
    rep.push(84u8);
    rep.push(83u8);
    let mut i: usize = 4;
    while i < 12
        invariant
            4 <= i <= 12,
            req@.len() == 12,
            rep@ == magic() + req@.subrange(4, i as int),
        decreases 12 - i,
    {
        rep.push(req[i]);
        assert(req@.subrange(4, i + 1) =~= req@.subrange(4, i as int).push(req@[i as int]));
        i = i + 1;
    }
    let a = u64_to_le(t2);
    push_all(&mut rep, &a);
    let b = u64_to_le(t3);
    push_all(&mut rep, &b);
    assert(rep@ =~= magic() + req@.subrange(4, 12) + le_bytes(t2 as nat, 8) + le_bytes(
        t3 as nat,
        8,
    ));
    Some(rep)
}

/// Reads `(t2, t3)` out of a reply to the request sent at `t1` (see [`parse_reply_spec`]).
pub fn parse_reply(rep: &[u8], t1: u64) -> (r: Option<(u64, u64)>)
    ensures
        r == parse_reply_spec(rep@, t1),
{
    if rep.len() != REP_LEN || !has_magic(rep) {
        return None;
    }
    let e = u64_to_le(t1);
    let mut k: usize = 0;
    while k < 8
        invariant
            0 <= k <= 8,
            rep@.len() == 28,
            e@ == le_bytes(t1 as nat, 8),
            forall|j: int| 0 <= j < k ==> rep@[4 + j] == e@[j],
        decreases 8 - k,
    {
        if rep[4 + k] != e[k] {
            assert(rep@.subrange(4, 12) != le_bytes(t1 as nat, 8)) by {
                assert(rep@.subrange(4, 12)[k as int] == rep@[4 + k]);
            }
            return None;
        }
        k = k + 1;
    }
    assert(rep@.subrange(4, 12) =~= le_bytes(t1 as nat, 8)) by {
        lemma_le_bytes_len(t1 as nat, 8);
    }
    let t2 = u64_from_le(rep, 12);
    let t3 = u64_from_le(rep, 20);
    Some((t2, t3))
}

/// Truncating division by two (towards zero), as Rust's integer `/` does.
pub open spec fn half_toward_zero(x: int) -> int {
    if x >= 0 { x / 2 } else { -((-x) / 2) }
}

/// The sample for one exchange: offset `((t2−t1)+(t3−t4))/2` (timestamps read as signed,
/// division toward zero) and delay `(t4−t1)−(t3−t2)` (each subtraction saturating at zero).
pub open spec fn sample_spec(t1: u64, t2: u64, t3: u64, t4: u64) -> TimeSample {
    let sum = (as_signed(t2) - as_signed(t1)) + (as_signed(t3) - as_signed(t4));
    let up = if t4 >= t1 { t4 - t1 } else { 0 };
    let server = if t3 >= t2 { t3 - t2 } else { 0 };
    TimeSample {
        offset_ms: half_toward_zero(sum) as i64,
        delay_ms: (if up >= server { up - server } else { 0 }) as u64,
    }
}

/// Whether the signed differences of an exchange fit in an `i64` (outside of it the
/// arithmetic overflows).
pub open spec fn sample_in_range(t1: u64, t2: u64, t3: u64, t4: u64) -> bool {
    let d1 = as_signed(t2) - as_signed(t1);
    let d2 = as_signed(t3) - as_signed(t4);
    &&& i64::MIN <= d1 <= i64::MAX
    &&& i64::MIN <= d2 <= i64::MAX
    &&& i64::MIN <= d1 + d2 <= i64::MAX
}

fn signed(x: u64) -> (r: i64)
    ensures
        r == as_signed(x),
{
    if x <= 0x7FFF_FFFF_FFFF_FFFFu64 {
        x as i64
    } else {
        let y = (x - 0x8000_0000_0000_0000u64) as i64;
        y - 0x7FFF_FFFF_FFFF_FFFFi64 - 1
    }
}

/// The measurement from the four timestamps of one exchange (see [`sample_spec`]).
pub fn sample_from(t1: u64, t2: u64, t3: u64, t4: u64) -> (s: TimeSample)
    requires
        sample_in_range(t1, t2, t3, t4),
    ensures
        s == sample_spec(t1, t2, t3, t4),
{
    let d1 = signed(t2) - signed(t1);
    let d2 = signed(t3) - signed(t4);
    let sum = d1 + d2;
    let offset_ms: i64 = if sum >= 0 {
        sum / 2
    } else if sum == i64::MIN {
        -0x4000_0000_0000_0000i64
    } else {
        -((-sum) / 2)
    };
    let delay_ms = t4.saturating_sub(t1).saturating_sub(t3.saturating_sub(t2));
    TimeSample { offset_ms, delay_ms }
}

/// The measurement of one exchange, or `None` when its signed differences overflow.
pub fn checked_sample(t1: u64, t2: u64, t3: u64, t4: u64) -> (r: Option<TimeSample>)
    ensures
        r == (if sample_in_range(t1, t2, t3, t4) {
            Some(sample_spec(t1, t2, t3, t4))
        } else {
            None::<TimeSample>
        }),
{
    let d1 = match signed(t2).checked_sub(signed(t1)) {
        Some(d) => d,
        None => {
            return None;
        },
    };
    let d2 = match signed(t3).checked_sub(signed(t4)) {
        Some(d) => d,
        None => {
            return None;
        },
    };
    match d1.checked_add(d2) {
        Some(_) => Some(sample_from(t1, t2, t3, t4)),
        None => None,
    }
}

/// Whether `s` replaces `best` when picking the lowest-delay sample: it does when there is
/// none yet, or when its delay is strictly lower (so the earliest of equal delays stays).
pub open spec fn replaces(best: Option<TimeSample>, s: TimeSample) -> bool {
    match best {
        None => true,
        Some(b) => s.delay_ms < b.delay_ms,
    }
}

/// The lowest-delay sample of `samples`, the earliest among equals; `None` when empty.
pub open spec fn best_spec(samples: Seq<TimeSample>) -> Option<TimeSample>
    decreases samples.len(),
{
    if samples.len() == 0 {
        None
    } else {
        let b = best_spec(samples.drop_last());
        if replaces(b, samples.last()) {
            Some(samples.last())
        } else {
            b
        }
    }
}

/// One step of the lowest-delay selection (see [`replaces`]).
pub fn keep_best(best: Option<TimeSample>, s: TimeSample) -> (r: Option<TimeSample>)
    ensures
        r == (if replaces(best, s) { Some(s) } else { best }),
{
    match best {
        None => Some(s),
        Some(b) => if s.delay_ms < b.delay_ms {
            Some(s)
        } else {
            Some(b)
        },
    }
}

/// The lowest-delay sample of a series of measurements (see [`best_spec`]).
pub fn best_sample(samples: &[TimeSample]) -> (r: Option<TimeSample>)
    ensures
        r == best_spec(samples@),
{
    let mut best: Option<TimeSample> = None;
    let mut i: usize = 0;
    while i < samples.len()
        invariant
            0 <= i <= samples@.len(),
            best == best_spec(samples@.subrange(0, i as int)),
        decreases samples@.len() - i,
    {
        assert(samples@.subrange(0, i + 1).drop_last() =~= samples@.subrange(0, i as int));
        best = keep_best(best, samples[i]);
        i = i + 1;
    }
    assert(samples@.subrange(0, samples@.len() as int) =~= samples@);
    best
}

/// The selected sample has the lowest delay of all, and is one of them.
pub proof fn lemma_best_is_minimal(samples: Seq<TimeSample>)
    ensures
        samples.len() == 0 <==> best_spec(samples).is_none(),
        best_spec(samples) matches Some(b) ==> (samples.contains(b) && forall|i: int|
            0 <= i < samples.len() ==> b.delay_ms <= #[trigger] samples[i].delay_ms),
    decreases samples.len(),
{
    if samples.len() > 0 {
        let rest = samples.drop_last();
        lemma_best_is_minimal(rest);
        let b = best_spec(samples).unwrap();
        assert forall|i: int| 0 <= i < samples.len() implies b.delay_ms
            <= #[trigger] samples[i].delay_ms by {
            if i < samples.len() - 1 {
                assert(samples[i] == rest[i]);
            }
        }
        if replaces(best_spec(rest), samples.last()) {
            assert(samples[samples.len() - 1] == b);
        } else {
            let rb = best_spec(rest).unwrap();
            let k = choose|k: int| 0 <= k < rest.len() && rest[k] == rb;
            assert(samples[k] == rb);
        }
    }
}

/// Law: the offset of an exchange is the server's lead. When the server's clock reads the
/// client's plus `d`, and the request and the reply each take `x >= 0` ms on the wire
/// (`t2 = t1 + x + d`, `t4 = t3 - d + x`, the server holding the request `t3 - t2 >= 0`
/// ms), the exchange can be measured, the sample's offset is `d` and its delay is the round
/// trip `2x` (timestamps and `2d` within `i64`).
pub proof fn lemma_symmetric_exchange_measures_the_lead(t1: u64, t2: u64, t3: u64, t4: u64, d: int, x: int)
    requires
        x >= 0,
        t2 == t1 + x + d,
        t3 >= t2,
        t4 == t3 - d + x,
        t1 <= i64::MAX,
        t2 <= i64::MAX,
        t3 <= i64::MAX,
        t4 <= i64::MAX,
        i64::MIN <= 2 * d <= i64::MAX,
    ensures
        sample_in_range(t1, t2, t3, t4),
        sample_spec(t1, t2, t3, t4).offset_ms == d,
        sample_spec(t1, t2, t3, t4).delay_ms == 2 * x,
{
    let sum = (as_signed(t2) - as_signed(t1)) + (as_signed(t3) - as_signed(t4));
    assert(sum == 2 * d);
    assert(half_toward_zero(2 * d) == d);
}

/// Law: applying the sample of such an exchange brings a follower to the server's time. A
/// follower whose clock reads `wall + offset` reads `d` more after the sample is added to
/// its offset (readings within `0..=u64::MAX`).
pub proof fn lemma_applied_sample_reads_server_time(
    t1: u64,
    t2: u64,
    t3: u64,
    t4: u64,
    d: int,
    x: int,
    wall: u64,
    offset: i64,
)
    requires
        x >= 0,
        t2 == t1 + x + d,
        t3 >= t2,
        t4 == t3 - d + x,
        t1 <= i64::MAX,
        t2 <= i64::MAX,
        t3 <= i64::MAX,
        t4 <= i64::MAX,
        i64::MIN <= 2 * d <= i64::MAX,
        i64::MIN <= offset + d <= i64::MAX,
        0 <= wall + offset <= u64::MAX,
        0 <= wall + offset + d <= u64::MAX,
    ensures
        adjusted(wall, (offset + sample_spec(t1, t2, t3, t4).offset_ms) as i64) == adjusted(wall, offset) + d,
{
    lemma_symmetric_exchange_measures_the_lead(t1, t2, t3, t4, d, x);
}

/// Applies a measurement to a follower: its offset becomes `offset + sample.offset_ms`.
pub fn apply_sample(follower: &mut SharedClock, s: TimeSample)
    requires
        i64::MIN <= old(follower)@.offset_ms + s.offset_ms <= i64::MAX,
    ensures
        final(follower)@ == (ClockView {
            offset_ms: (old(follower)@.offset_ms + s.offset_ms) as i64,
            ..old(follower)@
        }),
{
    let o = follower.offset_ms() + s.offset_ms;
    follower.set_offset_ms(o);
}

/// A server's reply, read by the client that sent the request, gives back exactly the
/// `t2` and `t3` the server wrote.
pub proof fn lemma_reply_round_trip(t1: u64, t2: u64, t3: u64)
    ensures
        reply_spec(request_spec(t1), t2, t3) matches Some(rep) && parse_reply_spec(rep, t1)
            == Some((t2, t3)),
{
    lemma_le_bytes_len(t1 as nat, 8);
    lemma_le_bytes_len(t2 as nat, 8);
    lemma_le_bytes_len(t3 as nat, 8);
    let req = request_spec(t1);
    assert(req.subrange(0, 4) =~= magic());
    assert(req.subrange(4, 12) =~= le_bytes(t1 as nat, 8));
    let rep = magic() + req.subrange(4, 12) + le_bytes(t2 as nat, 8) + le_bytes(t3 as nat, 8);
    assert(rep.subrange(0, 4) =~= magic());
    assert(rep.subrange(4, 12) =~= le_bytes(t1 as nat, 8));
    assert(rep.subrange(12, 20) =~= le_bytes(t2 as nat, 8));
    assert(rep.subrange(20, 28) =~= le_bytes(t3 as nat, 8));
    lemma_pow256_8();
    lemma_le_round_trip(t2 as nat, 8);
    lemma_le_round_trip(t3 as nat, 8);
}

} // verus!
