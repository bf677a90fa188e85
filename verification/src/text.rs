//! Building text in verified code: decimal rendering of integers and the
//! character-level helpers the JSON and exposition writers share.

use vstd::prelude::*;
use vstd::string::*;

verus! {

/// The ASCII digit for a value below ten.
pub open spec fn digit_char(d: nat) -> char {
    ((d + 48) as char)
}

/// Decimal rendering of a natural number, without leading zeros (`0` is `"0"`).
pub open spec fn dec(n: nat) -> Seq<char>
    decreases n,
{
    if n < 10 {
        seq![digit_char(n)]
    } else {
        dec(n / 10).push(digit_char(n % 10))
    }
}

/// Decimal rendering of a signed integer: a minus sign before the magnitude.
pub open spec fn dec_signed(n: int) -> Seq<char> {
    if n < 0 {
        seq!['-'] + dec((-n) as nat)
    } else {
        dec(n as nat)
    }
}

/// Appends one character. Wraps `String::push`.
#[verifier::external_body]
pub(crate) fn push_char(s: &mut String, c: char)
    ensures
        final(s)@ == old(s)@.push(c),
{
    s.push(c);
}

/// The characters of a string slice, in order.
pub(crate) fn chars_of(s: &str) -> (v: Vec<char>)
    ensures
        v@ == s@,
{
    broadcast use vstd::string::axiom_spec_iter;

    let mut v: Vec<char> = Vec::new();
    for c in it: s.chars()
        invariant
            it.seq() == s@,
            v@ == s@.take(it.index() as int),
    {
        v.push(c);
        proof {
            assert(v@ =~= s@.take(it.index() + 1));
        }
    }
    proof {
        assert(v@ =~= s@);
    }
    v
}

/// Whether two strings hold the same characters.
pub(crate) fn str_eq(a: &str, b: &str) -> (r: bool)
    ensures
        r == (a@ == b@),
{
    let x = chars_of(a);
    let y = chars_of(b);
    if x.len() != y.len() {
        return false;
    }
    let mut i: usize = 0;
    while i < x.len()
        invariant
            x@ == a@,
            y@ == b@,
            x@.len() == y@.len(),
            i <= x@.len(),
            forall|j: int| 0 <= j < i ==> x@[j] == y@[j],
        decreases x@.len() - i,
    {
        if x[i] != y[i] {
            return false;
        }
        i = i + 1;
    }
    assert(x@ =~= y@);
    true
}

/// Appends a string slice.
pub fn push_str(s: &mut String, t: &str)
    ensures
        final(s)@ == old(s)@ + t@,
{
    s.append(t);
}

fn digit(d: u64) -> (c: char)
    requires
        d < 10,
    ensures
        c == digit_char(d as nat),
{
    let b: u8 = 48u8 + (d as u8);
    b as char
}

/// Appends the decimal rendering of `n`.
pub fn push_u64(s: &mut String, n: u64)
    ensures
        final(s)@ == old(s)@ + dec(n as nat),
    decreases n,
{
    if n >= 10 {
        push_u64(s, n / 10);
    }
    push_char(s, digit(n % 10));
    proof {
        if n >= 10 {
            assert(old(s)@ + dec((n / 10) as nat) + seq![digit_char((n % 10) as nat)] =~= old(s)@
                + dec(n as nat));
        } else {
            assert(old(s)@.push(digit_char(n as nat)) =~= old(s)@ + dec(n as nat));
        }
    }
}

/// Appends the decimal rendering of a signed `n`.
pub fn push_i64(s: &mut String, n: i64)
    ensures
        final(s)@ == old(s)@ + dec_signed(n as int),
{
    if n < 0 {
        push_char(s, '-');
        let m: u64 = if n == i64::MIN {
            9223372036854775808u64
        } else {
            (-n) as u64
        };
        push_u64(s, m);
        assert(final(s)@ =~= old(s)@ + dec_signed(n as int));
    } else {
        push_u64(s, n as u64);
    }
}

/// `v` written with exactly `w` digits, leading zeros kept (digits above `w` dropped).
pub open spec fn padded(v: nat, w: nat) -> Seq<char>
    decreases w,
{
    if w == 0 {
        Seq::empty()
    } else {
        padded(v / 10, (w - 1) as nat).push(digit_char(v % 10))
    }
}

/// Removes trailing decimal zeros from a `w`-digit fraction `v`: the pair of the shortened
/// value and its width.
pub open spec fn strip_zeros(v: nat, w: nat) -> (nat, nat)
    decreases w,
{
    if w > 0 && v != 0 && v % 10 == 0 {
        strip_zeros(v / 10, (w - 1) as nat)
    } else {
        (v, w)
    }
}

/// The six-digit fraction `f` (in millionths) without its trailing zeros.
pub open spec fn frac6(f: nat) -> Seq<char> {
    let (v, w) = strip_zeros(f, 6);
    padded(v, w)
}

/// `n` microseconds written in seconds as a plain decimal: the integer part, then, when the
/// remainder is not zero, a point and the remainder without trailing zeros.
pub open spec fn micros_as_seconds(n: nat) -> Seq<char> {
    if n % 1000000 == 0 {
        dec(n / 1000000)
    } else {
        dec(n / 1000000) + seq!['.'] + frac6(n % 1000000)
    }
}

fn push_padded(s: &mut String, v: u64, w: u64)
    ensures
        final(s)@ == old(s)@ + padded(v as nat, w as nat),
    decreases w,
{
    if w > 0 {
        push_padded(s, v / 10, w - 1);
        push_char(s, digit(v % 10));
        assert(old(s)@ + padded((v / 10) as nat, (w - 1) as nat) + seq![digit_char((v % 10) as nat)]
            =~= old(s)@ + padded(v as nat, w as nat));
    } else {
        assert(old(s)@ + padded(v as nat, w as nat) =~= old(s)@);
    }
}

/// Appends `n` microseconds written in seconds (see [`micros_as_seconds`]).
pub fn push_micros_as_seconds(s: &mut String, n: u64)
    ensures
        final(s)@ == old(s)@ + micros_as_seconds(n as nat),
{
    push_u64(s, n / 1000000);
    let f = n % 1000000;
    if f != 0 {
        push_char(s, '.');
        let mut v: u64 = f;
        let mut w: u64 = 6;
        while w > 0 && v != 0 && v % 10 == 0
            invariant
                w <= 6,
                strip_zeros(v as nat, w as nat) == strip_zeros(f as nat, 6),
            decreases w,
        {
            v = v / 10;
            w = w - 1;
        }
        let ghost mid = s@;
        push_padded(s, v, w);
        assert(s@ =~= old(s)@ + micros_as_seconds(n as nat));
    }
}

// ── Character-level helpers ─────────────────────────────────────────────────

/// Whether `c` is a Unicode `White_Space` character (what `char::is_whitespace` tests).
pub open spec fn is_ws(c: char) -> bool {
    ||| c == '\t' || c == '\n' || c == '\u{0B}' || c == '\u{0C}' || c == '\r' || c == ' '
    ||| c == '\u{85}' || c == '\u{A0}' || c == '\u{1680}'
    ||| ('\u{2000}' <= c && c <= '\u{200A}')
    ||| c == '\u{2028}' || c == '\u{2029}' || c == '\u{202F}' || c == '\u{205F}' || c == '\u{3000}'
}

/// Whether `c` is whitespace in the sense of `is_ws`.
pub fn char_is_ws(c: char) -> (r: bool)
    ensures
        r == is_ws(c),
{
    c == '\t' || c == '\n' || c == '\u{0B}' || c == '\u{0C}' || c == '\r' || c == ' '
        || c == '\u{85}' || c == '\u{A0}' || c == '\u{1680}' || ('\u{2000}' <= c && c
        <= '\u{200A}') || c == '\u{2028}' || c == '\u{2029}' || c == '\u{202F}' || c
        == '\u{205F}' || c == '\u{3000}'
}

/// Index of the first non-whitespace character of `s[lo..hi]` (`hi` when all are).
pub open spec fn skip_ws(s: Seq<char>, lo: int, hi: int) -> int
    decreases hi - lo,
{
    if lo >= hi {
        hi
    } else if is_ws(s[lo]) {
        skip_ws(s, lo + 1, hi)
    } else {
        lo
    }
}

/// One past the last non-whitespace character of `s[lo..hi]` (`lo` when all are).
pub open spec fn back_ws(s: Seq<char>, lo: int, hi: int) -> int
    decreases hi - lo,
{
    if lo >= hi {
        lo
    } else if is_ws(s[hi - 1]) {
        back_ws(s, lo, hi - 1)
    } else {
        hi
    }
}

/// `s[lo..hi]` with leading and trailing whitespace removed, as bounds.
pub open spec fn trim_bounds(s: Seq<char>, lo: int, hi: int) -> (int, int) {
    let a = skip_ws(s, lo, hi);
    (a, back_ws(s, a, hi))
}

/// Skipping leading whitespace stays within the range.
pub proof fn lemma_skip_ws_bounds(s: Seq<char>, lo: int, hi: int)
    requires
        lo <= hi,
    ensures
        lo <= skip_ws(s, lo, hi) <= hi,
    decreases hi - lo,
{
    if lo < hi && is_ws(s[lo]) {
        lemma_skip_ws_bounds(s, lo + 1, hi);
    }
}

/// Dropping trailing whitespace stays within the range.
pub proof fn lemma_back_ws_bounds(s: Seq<char>, lo: int, hi: int)
    requires
        lo <= hi,
    ensures
        lo <= back_ws(s, lo, hi) <= hi,
    decreases hi - lo,
{
    if lo < hi && is_ws(s[hi - 1]) {
        lemma_back_ws_bounds(s, lo, hi - 1);
    }
}

/// Whether every character of `s` is whitespace.
pub open spec fn all_ws(s: Seq<char>) -> bool {
    forall|i: int| 0 <= i < s.len() ==> is_ws(#[trigger] s[i])
}

/// Whether `s` is `word` with only whitespace around it.
pub open spec fn reads_as(s: Seq<char>, word: Seq<char>) -> bool {
    exists|l: Seq<char>, r: Seq<char>| all_ws(l) && all_ws(r) && s == l + word + r
}

proof fn lemma_skip_ws_at(s: Seq<char>, lo: int, hi: int, x: int)
    requires
        0 <= lo <= x <= hi <= s.len(),
        forall|k: int| lo <= k < x ==> is_ws(#[trigger] s[k]),
        x < hi ==> !is_ws(s[x]),
    ensures
        skip_ws(s, lo, hi) == x,
    decreases x - lo,
{
    if lo < x {
        assert(is_ws(s[lo]));
        lemma_skip_ws_at(s, lo + 1, hi, x);
    }
}

proof fn lemma_back_ws_at(s: Seq<char>, lo: int, hi: int, y: int)
    requires
        0 <= lo <= y <= hi <= s.len(),
        forall|k: int| y <= k < hi ==> is_ws(#[trigger] s[k]),
        y > lo ==> !is_ws(s[y - 1]),
    ensures
        back_ws(s, lo, hi) == y,
    decreases hi - y,
{
    if y < hi {
        assert(is_ws(s[hi - 1]));
        lemma_back_ws_at(s, lo, hi - 1, y);
    }
}

proof fn lemma_skip_ws_skips_ws(s: Seq<char>, lo: int, hi: int)
    requires
        0 <= lo <= hi <= s.len(),
    ensures
        forall|k: int| lo <= k < skip_ws(s, lo, hi) ==> is_ws(#[trigger] s[k]),
    decreases hi - lo,
{
    if lo < hi && is_ws(s[lo]) {
        lemma_skip_ws_skips_ws(s, lo + 1, hi);
    }
}

proof fn lemma_back_ws_skips_ws(s: Seq<char>, lo: int, hi: int)
    requires
        0 <= lo <= hi <= s.len(),
    ensures
        forall|k: int| back_ws(s, lo, hi) <= k < hi ==> is_ws(#[trigger] s[k]),
    decreases hi - lo,
{
    if lo < hi && is_ws(s[hi - 1]) {
        lemma_back_ws_skips_ws(s, lo, hi - 1);
    }
}

/// Trimming leaves exactly `word` (which starts and ends with a non-whitespace character)
/// precisely when the text is `word` with only whitespace around it.
pub proof fn lemma_trimmed_is_word(s: Seq<char>, word: Seq<char>)
    requires
        word.len() > 0,
        !is_ws(word[0]),
        !is_ws(word.last()),
    ensures
        ({
            let (a, b) = trim_bounds(s, 0, s.len() as int);
            s.subrange(a, b) == word
        }) <==> reads_as(s, word),
{
    let n = s.len() as int;
    let (a, b) = trim_bounds(s, 0, n);
    lemma_skip_ws_bounds(s, 0, n);
    lemma_back_ws_bounds(s, a, n);
    if s.subrange(a, b) == word {
        lemma_skip_ws_skips_ws(s, 0, n);
        lemma_back_ws_skips_ws(s, a, n);
        let l = s.subrange(0, a);
        let r = s.subrange(b, n);
        assert(all_ws(l)) by {
            assert forall|i: int| 0 <= i < l.len() implies is_ws(#[trigger] l[i]) by {
                assert(l[i] == s[i]);
            }
        }
        assert(all_ws(r)) by {
            assert forall|i: int| 0 <= i < r.len() implies is_ws(#[trigger] r[i]) by {
                assert(r[i] == s[b + i]);
            }
        }
        assert(s =~= l + word + r);
    }
    if reads_as(s, word) {
        let (l, r) = choose|l: Seq<char>, r: Seq<char>| all_ws(l) && all_ws(r) && s == l + word + r;
        let x = l.len() as int;
        let y = x + word.len();
        assert forall|k: int| 0 <= k < x implies is_ws(#[trigger] s[k]) by {
            assert(s[k] == l[k]);
        }
        assert(s[x] == word[0]);
        lemma_skip_ws_at(s, 0, n, x);
        assert forall|k: int| y <= k < n implies is_ws(#[trigger] s[k]) by {
            assert(s[k] == r[k - y]);
        }
        assert(s[y - 1] == word.last());
        lemma_back_ws_at(s, x, n, y);
        assert(s.subrange(x, y) =~= word);
    }
}

/// The bounds of `s[lo..hi]` with leading and trailing whitespace removed.
pub fn trim(s: &Vec<char>, lo: usize, hi: usize) -> (r: (usize, usize))
    requires
        lo <= hi <= s@.len(),
    ensures
        r.0 == trim_bounds(s@, lo as int, hi as int).0,
        r.1 == trim_bounds(s@, lo as int, hi as int).1,
        lo <= r.0 <= r.1 <= hi,
{
    let mut a = lo;
    while a < hi && char_is_ws(s[a])
        invariant
            lo <= a <= hi <= s@.len(),
            skip_ws(s@, lo as int, hi as int) == skip_ws(s@, a as int, hi as int),
        decreases hi - a,
    {
        a = a + 1;
    }
    let mut b = hi;
    while b > a && char_is_ws(s[b - 1])
        invariant
            lo <= a <= b <= hi <= s@.len(),
            back_ws(s@, a as int, hi as int) == back_ws(s@, a as int, b as int),
        decreases b - a,
    {
        b = b - 1;
    }
    (a, b)
}

/// Whether `s[lo..hi]` begins with `p`.
pub open spec fn starts_with_at(s: Seq<char>, lo: int, hi: int, p: Seq<char>) -> bool {
    hi - lo >= p.len() && s.subrange(lo, lo + p.len()) == p
}

/// Whether `s[lo..hi]` starts with `p`.
pub fn starts_with(s: &Vec<char>, lo: usize, hi: usize, p: &[char]) -> (r: bool)
    requires
        lo <= hi <= s@.len(),
    ensures
        r == starts_with_at(s@, lo as int, hi as int, p@),
{
    if hi - lo < p.len() {
        return false;
    }
    let mut k: usize = 0;
    while k < p.len()
        invariant
            0 <= k <= p@.len(),
            lo + p@.len() <= hi <= s@.len(),
            forall|j: int| 0 <= j < k ==> s@[lo + j] == p@[j],
        decreases p@.len() - k,
    {
        if s[lo + k] != p[k] {
            assert(s@.subrange(lo as int, lo + p@.len())[k as int] != p@[k as int]);
            return false;
        }
        k = k + 1;
    }
    assert(s@.subrange(lo as int, lo + p@.len()) =~= p@);
    true
}

} // verus!
