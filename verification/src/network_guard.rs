//! `NetworkGuard` — the WiFi-forbidden rule, checked once at show start.
//!
//! The probes that look at the host (processes, `/sys`) belong to the caller; this module
//! holds the policy: the error type and its messages, the guards' contract, the parser of
//! `networksetup -listallhardwareports` output, and the verdicts drawn from what was probed.

use vstd::prelude::*;

use crate::text::{
    chars_of, lemma_trimmed_is_word, push_char, push_str, reads_as, starts_with, starts_with_at, trim,
    trim_bounds,
};

verus! {

/// Returned when a network policy violation is detected.
#[derive(Debug, Clone, PartialEq, Eq)]
pub enum NetworkPolicyError {
    /// One or more Wi-Fi interfaces were found active, listed by name.
    WifiActive { interfaces: Vec<String> },
    /// The network state could not be determined; the show may proceed with a warning.
    ProbeUnavailable { reason: String },
}

/// The names of `names`, separated by `", "`.
pub open spec fn joined(names: Seq<Seq<char>>) -> Seq<char>
    decreases names.len(),
{
    if names.len() == 0 {
        Seq::empty()
    } else if names.len() == 1 {
        names[0]
    } else {
        joined(names.drop_last()) + ", "@ + names.last()
    }
}

/// The views of a list of strings.
pub open spec fn string_views(v: Seq<String>) -> Seq<Seq<char>> {
    v.map_values(|s: String| s@)
}

/// The operator-facing message of an error.
pub open spec fn message_spec(e: NetworkPolicyError) -> Seq<char> {
    match e {
        NetworkPolicyError::WifiActive { interfaces } => "[LUMYX CRITICAL] WiFi active on interface(s): "@
            + joined(string_views(interfaces@))
            + ". Disable WiFi before starting a live show (Hardware Rule)."@,
        NetworkPolicyError::ProbeUnavailable { reason } => "[LUMYX WARNING] WiFi check unavailable ("@
            + reason@ + "). Cannot enforce WiFi-forbidden rule \u{2014} verify manually."@,
    }
}

impl NetworkPolicyError {
    /// The operator-facing message (see [`message_spec`]).
    pub fn to_string(&self) -> (s: String)
        ensures
            s@ == message_spec(*self),
    {
        let mut out = String::new();
        match self {
            NetworkPolicyError::WifiActive { interfaces } => {
                push_str(&mut out, "[LUMYX CRITICAL] WiFi active on interface(s): ");
                let ghost base = out@;
                let ghost names = string_views(interfaces@);
                let mut i: usize = 0;
                while i < interfaces.len()
                    invariant
                        0 <= i <= interfaces@.len(),
                        names == string_views(interfaces@),
                        out@ == base + joined(names.subrange(0, i as int)),
                    decreases interfaces@.len() - i,
                {
                    if i > 0 {
                        push_str(&mut out, ", ");
                    }
                    push_str(&mut out, interfaces[i].as_str());
                    proof {
                        let sub = names.subrange(0, i + 1);
                        assert(sub.drop_last() =~= names.subrange(0, i as int));
                        if i == 0 {
                            assert(out@ =~= base + joined(sub));
                        } else {
                            assert(out@ =~= base + joined(sub));
                        }
                    }
                    i = i + 1;
                }
                assert(names.subrange(0, interfaces@.len() as int) =~= names);
                push_str(&mut out, ". Disable WiFi before starting a live show (Hardware Rule).");
            },
            NetworkPolicyError::ProbeUnavailable { reason } => {
                push_str(&mut out, "[LUMYX WARNING] WiFi check unavailable (");
                push_str(&mut out, reason.as_str());
                push_str(&mut out, "). Cannot enforce WiFi-forbidden rule \u{2014} verify manually.");
            },
        }
        out
    }
}

/// Checks that the network satisfies the hardware policy before the show starts.
/// Called once, never per frame.
pub trait NetworkGuard: Send + Sync {
    /// `Ok(())` when the policy is satisfied, or the violation.
    fn check(&self) -> Result<(), NetworkPolicyError>;

    /// Human-readable name of this guard, for logging.
    fn name(&self) -> &'static str;
}

/// A guard that always lets the show proceed (tests, simulator, unsupported hosts).
pub struct PermissiveGuard;

impl NetworkGuard for PermissiveGuard {
    fn check(&self) -> (r: Result<(), NetworkPolicyError>)
        ensures
            r is Ok,
    {
        Ok(())
    }

    fn name(&self) -> (r: &'static str)
        ensures
            r@ == "PermissiveGuard (no enforcement)"@,
    {
        "PermissiveGuard (no enforcement)"
    }
}

/// The refusal on a platform no probe covers, naming the platform.
pub fn unsupported_platform(os: &str) -> (e: NetworkPolicyError)
    ensures
        e matches NetworkPolicyError::ProbeUnavailable { reason }
            && reason@ == "unsupported platform '"@ + os@ + "' \u{2014} WiFi check not implemented"@,
{
    let mut reason = String::new();
    push_str(&mut reason, "unsupported platform '");
    push_str(&mut reason, os);
    push_str(&mut reason, "' \u{2014} WiFi check not implemented");
    NetworkPolicyError::ProbeUnavailable { reason }
}

/// The verdict once the active Wi-Fi interfaces are known: none is `Ok`, any is
/// `WifiActive` naming them in order.
pub fn verdict(active: Vec<String>) -> (r: Result<(), NetworkPolicyError>)
    ensures
        active@.len() == 0 ==> r is Ok,
        active@.len() > 0 ==> r == Err::<(), NetworkPolicyError>(
            NetworkPolicyError::WifiActive { interfaces: active },
        ),
{
    if active.len() == 0 {
        Ok(())
    } else {
        Err(NetworkPolicyError::WifiActive { interfaces: active })
    }
}

/// The start of `s[lo..hi]` after every leading repetition of `p` is removed
/// (`str::trim_start_matches`).
pub open spec fn strip_prefixes(s: Seq<char>, lo: int, hi: int, p: Seq<char>) -> int
    decreases hi - lo,
{
    if p.len() > 0 && starts_with_at(s, lo, hi, p) {
        strip_prefixes(s, lo + p.len(), hi, p)
    } else {
        lo
    }
}

fn strip_all(s: &Vec<char>, lo: usize, hi: usize, p: &[char]) -> (r: usize)
    requires
        lo <= hi <= s@.len(),
    ensures
        r == strip_prefixes(s@, lo as int, hi as int, p@),
        lo <= r <= hi,
{
    let mut a = lo;
    while p.len() > 0 && starts_with(s, a, hi, p)
        invariant
            lo <= a <= hi <= s@.len(),
            strip_prefixes(s@, lo as int, hi as int, p@) == strip_prefixes(
                s@,
                a as int,
                hi as int,
                p@,
            ),
        decreases hi - a,
    {
        a = a + p.len();
    }
    a
}

/// ASCII lower-casing of one character (other characters are kept).
pub open spec fn lower(c: char) -> char {
    if 'A' <= c && c <= 'Z' { ((c as u32) + 32) as char } else { c }
}

fn to_lower(c: char) -> (r: char)
    ensures
        r == lower(c),
{
    if 'A' <= c && c <= 'Z' {
        let v: u32 = (c as u32) + 32;
        assert(v < 0xD800);
        let b: u8 = v as u8;
        b as char
    } else {
        c
    }
}

/// Whether `s[lo..hi]` equals `p` ignoring ASCII case (`str::eq_ignore_ascii_case`).
pub open spec fn eq_ignore_case_at(s: Seq<char>, lo: int, hi: int, p: Seq<char>) -> bool {
    hi - lo == p.len() && forall|j: int| 0 <= j < p.len() ==> lower(s[lo + j]) == lower(p[j])
}

fn eq_ignore_case(s: &Vec<char>, lo: usize, hi: usize, p: &[char]) -> (r: bool)
    requires
        lo <= hi <= s@.len(),
    ensures
        r == eq_ignore_case_at(s@, lo as int, hi as int, p@),
{
    if hi - lo != p.len() {
        return false;
    }
    let mut k: usize = 0;
    while k < p.len()
        invariant
            0 <= k <= p@.len(),
            hi - lo == p@.len(),
            hi <= s@.len(),
            forall|j: int| 0 <= j < k ==> lower(s@[lo + j]) == lower(p@[j]),
        decreases p@.len() - k,
    {
        if to_lower(s[lo + k]) != to_lower(p[k]) {
            return false;
        }
        k = k + 1;
    }
    true
}

fn string_of(s: &Vec<char>, lo: usize, hi: usize) -> (r: String)
    requires
        lo <= hi <= s@.len(),
    ensures
        r@ == s@.subrange(lo as int, hi as int),
{
    let mut out = String::new();
    let mut i = lo;
    while i < hi
        invariant
            lo <= i <= hi <= s@.len(),
            out@ == s@.subrange(lo as int, i as int),
        decreases hi - i,
    {
        push_char(&mut out, s[i]);
        assert(s@.subrange(lo as int, i + 1) =~= s@.subrange(lo as int, i as int).push(s@[i as int]));
        i = i + 1;
    }
    out
}

// ── networksetup parsing ─────────────────────────────────────────────────────

/// The line that opens a hardware port block.
pub open spec fn port_prefix() -> Seq<char> {
    seq!['H', 'a', 'r', 'd', 'w', 'a', 'r', 'e', ' ', 'P', 'o', 'r', 't', ':']
}

/// The line that names the port's device.
pub open spec fn device_prefix() -> Seq<char> {
    seq!['D', 'e', 'v', 'i', 'c', 'e', ':']
}

/// A Wi-Fi port's name, in lower case.
pub open spec fn wifi_name() -> Seq<char> {
    seq!['w', 'i', '-', 'f', 'i']
}

/// The older name of a Wi-Fi port, in lower case.
pub open spec fn airport_name() -> Seq<char> {
    seq!['a', 'i', 'r', 'p', 'o', 'r', 't']
}

/// The end of the line that starts at `i` and breaks at `j`: a `'\r'` before the `'\n'` is
/// not part of the line (`str::lines`).
pub open spec fn line_end(s: Seq<char>, i: int, j: int) -> int {
    if j < s.len() && j > i && s[j - 1] == '\r' { j - 1 } else { j }
}

/// The parser state after the line `[lo, hi)`: the interfaces found so far and whether the
/// current port block is a Wi-Fi block.
pub open spec fn step_line(s: Seq<char>, lo: int, hi: int, found: Seq<Seq<char>>, in_wifi: bool) -> (
    Seq<Seq<char>>,
    bool,
) {
    let (a, b) = trim_bounds(s, lo, hi);
    if starts_with_at(s, a, b, port_prefix()) {
        let c = strip_prefixes(s, a, b, port_prefix());
        let (pa, pb) = trim_bounds(s, c, b);
        (
            found,
            eq_ignore_case_at(s, pa, pb, wifi_name()) || eq_ignore_case_at(
                s,
                pa,
                pb,
                airport_name(),
            ),
        )
    } else if in_wifi && starts_with_at(s, a, b, device_prefix()) {
        let c = strip_prefixes(s, a, b, device_prefix());
        let (da, db) = trim_bounds(s, c, b);
        (if da < db { found.push(s.subrange(da, db)) } else { found }, false)
    } else {
        (found, in_wifi)
    }
}

/// Runs the parser over `s` from index `i`, where the current line started at `line_start`.
pub open spec fn parse_from(s: Seq<char>, i: int, line_start: int, found: Seq<Seq<char>>, in_wifi: bool) -> Seq<
    Seq<char>,
>
    decreases s.len() - i,
{
    if i >= s.len() {
        if line_start < s.len() {
            step_line(s, line_start, s.len() as int, found, in_wifi).0
        } else {
            found
        }
    } else if s[i] == '\n' {
        let (f2, w2) = step_line(s, line_start, line_end(s, line_start, i), found, in_wifi);
        parse_from(s, i + 1, i + 1, f2, w2)
    } else {
        parse_from(s, i + 1, line_start, found, in_wifi)
    }
}

/// The Wi-Fi device names listed in `networksetup -listallhardwareports` output: every
/// `Device:` line that follows a `Hardware Port: Wi-Fi` (or `AirPort`, any case) line.
pub open spec fn wifi_interfaces_spec(output: Seq<char>) -> Seq<Seq<char>> {
    parse_from(output, 0, 0, Seq::empty(), false)
}

/// Parses `networksetup -listallhardwareports` output (see [`wifi_interfaces_spec`]).
pub fn parse_macos_wifi_interfaces(output: &str) -> (r: Vec<String>)
    ensures
        string_views(r@) == wifi_interfaces_spec(output@),
{
    let s = chars_of(output);
    let port: [char; 14] = ['H', 'a', 'r', 'd', 'w', 'a', 'r', 'e', ' ', 'P', 'o', 'r', 't', ':'];
    let device: [char; 7] = ['D', 'e', 'v', 'i', 'c', 'e', ':'];
    let wifi: [char; 5] = ['w', 'i', '-', 'f', 'i'];
    let airport: [char; 7] = ['a', 'i', 'r', 'p', 'o', 'r', 't'];
    assert(port@ =~= port_prefix());
    assert(device@ =~= device_prefix());
    assert(wifi@ =~= wifi_name());
    assert(airport@ =~= airport_name());
    let mut found: Vec<String> = Vec::new();
    let mut in_wifi = false;
    let mut i: usize = 0;
    let n = s.len();
    assert(string_views(found@) =~= Seq::<Seq<char>>::empty());
    while i < n
        invariant
            n == s@.len(),
            s@ == output@,
            0 <= i <= n,
            port@ == port_prefix(),
            device@ == device_prefix(),
            wifi@ == wifi_name(),
            airport@ == airport_name(),
            parse_from(s@, 0, 0, Seq::empty(), false) == parse_from(
                s@,
                i as int,
                i as int,
                string_views(found@),
                in_wifi,
            ),
        decreases n - i,
    {
        let mut j = i;
        while j < n && s[j] != '\n'
            invariant
                i <= j <= n,
                n == s@.len(),
                parse_from(s@, i as int, i as int, string_views(found@), in_wifi) == parse_from(
                    s@,
                    j as int,
                    i as int,
                    string_views(found@),
                    in_wifi,
                ),
            decreases n - j,
        {
            j = j + 1;
        }
        let end = if j < n && j > i && s[j - 1] == '\r' { j - 1 } else { j };
        let ghost f0 = string_views(found@);
        let ghost w0 = in_wifi;
        assert(end == line_end(s@, i as int, j as int));
        let (a, b) = trim(&s, i, end);
        if starts_with(&s, a, b, &port) {
            let c = strip_all(&s, a, b, &port);
            let (pa, pb) = trim(&s, c, b);
            in_wifi = eq_ignore_case(&s, pa, pb, &wifi) || eq_ignore_case(&s, pa, pb, &airport);
        } else if in_wifi && starts_with(&s, a, b, &device) {
            let c = strip_all(&s, a, b, &device);
            let (da, db) = trim(&s, c, b);
            if da < db {
                let name = string_of(&s, da, db);
                found.push(name);
                assert(string_views(found@) =~= f0.push(s@.subrange(da as int, db as int)));
            }
            in_wifi = false;
        }
        proof {
            let st = step_line(s@, i as int, end as int, f0, w0);
            assert(string_views(found@) == st.0 && in_wifi == st.1);
        }
        if j >= n {
            i = n;
        } else {
            i = j + 1;
        }
    }
    found
}

// ── Verdicts drawn from probes ───────────────────────────────────────────────

/// Whether `s` contains `p` as a contiguous run.
pub open spec fn contains_run(s: Seq<char>, p: Seq<char>) -> bool {
    exists|i: int| 0 <= i && i + p.len() <= s.len() && #[trigger] s.subrange(i, i + p.len()) == p
}

/// The `ifconfig` status of an interface that is up.
pub open spec fn status_active() -> Seq<char> {
    seq!['s', 't', 'a', 't', 'u', 's', ':', ' ', 'a', 'c', 't', 'i', 'v', 'e']
}

/// Whether `ifconfig <iface>` output reports the interface connected (`"status: active"`).
pub fn ifconfig_reports_active(text: &str) -> (r: bool)
    ensures
        r == contains_run(text@, status_active()),
{
    let s = chars_of(text);
    let pat: [char; 14] = ['s', 't', 'a', 't', 'u', 's', ':', ' ', 'a', 'c', 't', 'i', 'v', 'e'];
    assert(pat@ =~= status_active());
    let n = s.len();
    let mut i: usize = 0;
    while n >= 14 && i <= n - 14
        invariant
            n == s@.len(),
            s@ == text@,
            pat@ == status_active(),
            forall|k: int| 0 <= k < i ==> #[trigger] s@.subrange(k, k + 14) != status_active(),
        decreases n - i,
    {
        if starts_with(&s, i, n, &pat) {
            assert(s@.subrange(i as int, i + 14) == status_active());
            return true;
        }
        i = i + 1;
    }
    assert forall|k: int| 0 <= k && k + 14 <= s@.len() implies #[trigger] s@.subrange(k, k + 14)
        != status_active() by {
        assert(k < i);
    }
    false
}

/// What the host reported about one network interface.
pub struct InterfaceProbe {
    pub name: String,
    /// The interface has a `wireless/` or `phy80211/` entry.
    pub wireless: bool,
    /// The contents of its `operstate` file, when it could be read.
    pub operstate: Option<String>,
}

/// Whether a probed interface is an active wireless one: wireless, and an `operstate` that
/// reads `up` once surrounding whitespace is removed.
pub open spec fn is_active_wireless(p: InterfaceProbe) -> bool {
    p.wireless && match p.operstate {
        Some(st) => {
            let (a, b) = trim_bounds(st@, 0, st@.len() as int);
            st@.subrange(a, b) == seq!['u', 'p']
        },
        None => false,
    }
}

/// The names of the active wireless interfaces among `probes`, in order.
pub open spec fn active_names(probes: Seq<InterfaceProbe>) -> Seq<Seq<char>>
    decreases probes.len(),
{
    if probes.len() == 0 {
        Seq::empty()
    } else {
        let rest = active_names(probes.drop_last());
        if is_active_wireless(probes.last()) {
            rest.push(probes.last().name@)
        } else {
            rest
        }
    }
}

fn operstate_is_up(st: &String) -> (r: bool)
    ensures
        r == ({
            let (a, b) = trim_bounds(st@, 0, st@.len() as int);
            st@.subrange(a, b) == seq!['u', 'p']
        }),
{
    let s = chars_of(st.as_str());
    let (a, b) = trim(&s, 0, s.len());
    let r = b - a == 2 && s[a] == 'u' && s[a + 1] == 'p';
    if r {
        assert(s@.subrange(a as int, b as int) =~= seq!['u', 'p']);
    } else if b - a == 2 {
        assert(s@.subrange(a as int, b as int) != seq!['u', 'p']) by {
            if s@.subrange(a as int, b as int) == seq!['u', 'p'] {
                assert(s@.subrange(a as int, b as int)[0] == 'u');
                assert(s@.subrange(a as int, b as int)[1] == 'p');
            }
        }
    } else {
        assert(s@.subrange(a as int, b as int).len() != seq!['u', 'p'].len());
    }
    r
}

/// The verdict of a Linux probe: `Ok` when no probed interface is an active wireless one,
/// otherwise `WifiActive` naming each of them in probe order.
pub fn linux_verdict(probes: &Vec<InterfaceProbe>) -> (r: Result<(), NetworkPolicyError>)
    ensures
        active_names(probes@).len() == 0 ==> r is Ok,
        active_names(probes@).len() > 0 ==> (r matches Err(NetworkPolicyError::WifiActive {
            interfaces,
        }) && string_views(interfaces@) == active_names(probes@)),
{
    let mut active: Vec<String> = Vec::new();
    let mut i: usize = 0;
    while i < probes.len()
        invariant
            0 <= i <= probes@.len(),
            string_views(active@) == active_names(probes@.subrange(0, i as int)),
        decreases probes@.len() - i,
    {
        let p = &probes[i];
        let ghost prev = string_views(active@);
        assert(probes@.subrange(0, i + 1).drop_last() =~= probes@.subrange(0, i as int));
        let up = match &p.operstate {
            Some(st) => operstate_is_up(st),
            None => false,
        };
        if p.wireless && up {
            active.push(p.name.clone());
            assert(string_views(active@) =~= prev.push(p.name@));
        }
        i = i + 1;
    }
    assert(probes@.subrange(0, probes@.len() as int) =~= probes@);
    verdict(active)
}

/// Whether a probe shows a Wi-Fi interface in use: wireless, with an `operstate` that is
/// the word `up` with only whitespace around it.
pub open spec fn reads_up_wifi(p: InterfaceProbe) -> bool {
    p.wireless && match p.operstate {
        Some(st) => reads_as(st@, seq!['u', 'p']),
        None => false,
    }
}

/// Whether `name` is the name of one of `probes` that shows a Wi-Fi interface in use.
pub open spec fn names_an_up_wifi(probes: Seq<InterfaceProbe>, name: Seq<char>) -> bool {
    exists|i: int| 0 <= i < probes.len() && reads_up_wifi(#[trigger] probes[i]) && name == probes[i].name@
}

/// Law: the Linux verdict names exactly the Wi-Fi interfaces that read `up`. Every name it
/// reports belongs to a wireless probe whose `operstate`, trimmed, is exactly `up` (so a
/// `dormant`, `unknown` or `lowerlayerdown` adapter is never named), and every such probe
/// is named; the names keep probe order and there is one per such probe.
pub proof fn lemma_linux_names_only_up_wifi(probes: Seq<InterfaceProbe>)
    ensures
        forall|j: int|
            0 <= j < active_names(probes).len() ==> names_an_up_wifi(probes, #[trigger] active_names(probes)[j]),
        forall|i: int|
            0 <= i < probes.len() && reads_up_wifi(#[trigger] probes[i]) ==> active_names(
                probes,
            ).contains(probes[i].name@),
        active_names(probes).len() == probes.filter(|p: InterfaceProbe| reads_up_wifi(p)).len(),
    decreases probes.len(),
{
    if probes.len() > 0 {
        let rest = probes.drop_last();
        let last = probes.last();
        lemma_linux_names_only_up_wifi(rest);
        assert(is_active_wireless(last) == reads_up_wifi(last)) by {
            if let Some(st) = last.operstate {
                lemma_trimmed_is_word(st@, seq!['u', 'p']);
            }
        }
        let names = active_names(probes);
        let rn = active_names(rest);
        if is_active_wireless(last) {
            assert(names == rn.push(last.name@));
        } else {
            assert(names == rn);
        }
        assert forall|j: int| 0 <= j < active_names(probes).len() implies names_an_up_wifi(
            probes,
            #[trigger] active_names(probes)[j],
        ) by {
            if j < rn.len() {
                assert(names[j] == rn[j]);
                assert(names_an_up_wifi(rest, rn[j]));
                let i = choose|i: int| 0 <= i < rest.len() && reads_up_wifi(#[trigger] rest[i]) && rn[j] == rest[i].name@;
                assert(probes[i] == rest[i]);
            } else {
                assert(names[j] == last.name@);
                assert(reads_up_wifi(probes[probes.len() - 1]));
            }
        }
        assert forall|i: int| 0 <= i < probes.len() && reads_up_wifi(#[trigger] probes[i]) implies names.contains(
            probes[i].name@,
        ) by {
            if i < rest.len() {
                assert(rest[i] == probes[i]);
                assert(rn.contains(probes[i].name@));
                let w = choose|w: int| 0 <= w < rn.len() && rn[w] == probes[i].name@;
                assert(names[w] == rn[w]);
            } else {
                assert(probes[i] == last);
                assert(names[names.len() - 1] == last.name@);
            }
        }
        reveal_with_fuel(Seq::filter, 1);
        assert(probes.drop_last() == rest);
    } else {
        assert(active_names(probes).len() == 0);
        assert(probes.filter(|p: InterfaceProbe| reads_up_wifi(p)) =~= Seq::empty());
    }
}

} // verus!
