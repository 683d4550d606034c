//! Character-level helpers shared by the parsers: conversions between `str`,
//! `String` and character vectors, whitespace, case folding and decimal
//! numbers.

use vstd::prelude::*;
use vstd::std_specs::iter::IteratorSpec;

verus! {

/// The characters of `s`, in order.
pub fn chars_of(s: &str) -> (v: Vec<char>)
    ensures
        v@ == s@,
{
    let mut v: Vec<char> = Vec::new();
    for c in iter: s.chars()
        invariant
            iter.seq() == s@,
            v@ == s@.take(iter.index()),
    {
        proof {
            assert(s@.take(iter.index() + 1) =~= s@.take(iter.index()).push(c));
        }
        v.push(c);
    }
    proof {
        assert(v@ =~= s@);
    }
    v
}

/// The string made of the characters of `v`, in order.
///
/// Calls `String::from_iter` on the characters of `v`.
#[verifier::external_body]
pub fn string_of(v: &[char]) -> (s: String)
    ensures
        s@ == v@,
{
    String::from_iter(v.iter())
}

/// The string made of `v[lo..hi]`.
pub fn string_of_range(v: &Vec<char>, lo: usize, hi: usize) -> (s: String)
    requires
        lo <= hi <= v@.len(),
    ensures
        s@ == v@.subrange(lo as int, hi as int),
{
    let mut w: Vec<char> = Vec::new();
    let mut i = lo;
    while i < hi
        invariant
            lo <= i <= hi <= v@.len(),
            w@ == v@.subrange(lo as int, i as int),
        decreases hi - i,
    {
        w.push(v[i]);
        proof {
            assert(w@ =~= v@.subrange(lo as int, i + 1));
        }
        i = i + 1;
    }
    string_of(&w)
}

/// The Unicode `White_Space` property, which `char::is_whitespace` tests.
pub open spec fn is_ws(c: char) -> bool {
    ||| ('\u{9}' <= c && c <= '\u{d}')
    ||| c == ' '
    ||| c == '\u{85}'
    ||| c == '\u{a0}'
    ||| c == '\u{1680}'
    ||| ('\u{2000}' <= c && c <= '\u{200a}')
    ||| c == '\u{2028}'
    ||| c == '\u{2029}'
    ||| c == '\u{202f}'
    ||| c == '\u{205f}'
    ||| c == '\u{3000}'
}

/// Whether `c` is whitespace in the sense of `char::is_whitespace`.
pub fn is_whitespace(c: char) -> (b: bool)
    ensures
        b == is_ws(c),
{
    ('\u{9}' <= c && c <= '\u{d}') || c == ' ' || c == '\u{85}' || c == '\u{a0}' || c
        == '\u{1680}' || ('\u{2000}' <= c && c <= '\u{200a}') || c == '\u{2028}' || c
        == '\u{2029}' || c == '\u{202f}' || c == '\u{205f}' || c == '\u{3000}'
}

/// Number of leading whitespace characters of `s`.
pub open spec fn lead_ws(s: Seq<char>) -> nat
    decreases s.len(),
{
    if s.len() > 0 && is_ws(s[0]) {
        1 + lead_ws(s.drop_first())
    } else {
        0
    }
}

/// Number of trailing whitespace characters of `s`.
pub open spec fn trail_ws(s: Seq<char>) -> nat
    decreases s.len(),
{
    if s.len() > 0 && is_ws(s.last()) {
        1 + trail_ws(s.drop_last())
    } else {
        0
    }
}

/// `s` without leading whitespace, as `str::trim_start` gives it.
pub open spec fn trim_start(s: Seq<char>) -> Seq<char> {
    s.skip(lead_ws(s) as int)
}

/// `s` without trailing whitespace, as `str::trim_end` gives it.
pub open spec fn trim_end(s: Seq<char>) -> Seq<char> {
    s.take(s.len() - trail_ws(s))
}

/// `s` without leading and trailing whitespace, as `str::trim` gives it.
pub open spec fn trim(s: Seq<char>) -> Seq<char> {
    trim_end(trim_start(s))
}

pub proof fn lemma_lead_ws_bound(s: Seq<char>)
    ensures
        lead_ws(s) <= s.len(),
        forall|i: int| 0 <= i < lead_ws(s) ==> is_ws(#[trigger] s[i]),
        lead_ws(s) < s.len() ==> !is_ws(s[lead_ws(s) as int]),
    decreases s.len(),
{
    if s.len() > 0 && is_ws(s[0]) {
        lemma_lead_ws_bound(s.drop_first());
        assert forall|i: int| 0 <= i < lead_ws(s) implies is_ws(#[trigger] s[i]) by {
            if i > 0 {
                assert(s[i] == s.drop_first()[i - 1]);
            }
        }
        if lead_ws(s) < s.len() {
            assert(s[lead_ws(s) as int] == s.drop_first()[lead_ws(s.drop_first()) as int]);
        }
    }
}

pub proof fn lemma_trail_ws_bound(s: Seq<char>)
    ensures
        trail_ws(s) <= s.len(),
        forall|i: int| s.len() - trail_ws(s) <= i < s.len() ==> is_ws(#[trigger] s[i]),
        trail_ws(s) < s.len() ==> !is_ws(s[s.len() - trail_ws(s) - 1]),
    decreases s.len(),
{
    if s.len() > 0 && is_ws(s.last()) {
        lemma_trail_ws_bound(s.drop_last());
        assert forall|i: int| s.len() - trail_ws(s) <= i < s.len() implies is_ws(
            #[trigger] s[i],
        ) by {
            if i < s.len() - 1 {
                assert(s[i] == s.drop_last()[i]);
            }
        }
        if trail_ws(s) < s.len() {
            assert(s[s.len() - trail_ws(s) - 1] == s.drop_last()[s.drop_last().len() - trail_ws(
                s.drop_last(),
            ) - 1]);
        }
    }
}

/// A position characterises the leading whitespace count.
pub proof fn lemma_lead_ws_at(s: Seq<char>, k: int)
    requires
        0 <= k <= s.len(),
        forall|i: int| 0 <= i < k ==> is_ws(#[trigger] s[i]),
        k < s.len() ==> !is_ws(s[k]),
    ensures
        lead_ws(s) == k,
    decreases s.len(),
{
    if k > 0 {
        assert forall|i: int| 0 <= i < k - 1 implies is_ws(#[trigger] s.drop_first()[i]) by {
            assert(s.drop_first()[i] == s[i + 1]);
        }
        if k - 1 < s.drop_first().len() {
            assert(s.drop_first()[k - 1] == s[k]);
        }
        lemma_lead_ws_at(s.drop_first(), k - 1);
    }
}

/// A position characterises the trailing whitespace count.
pub proof fn lemma_trail_ws_at(s: Seq<char>, k: int)
    requires
        0 <= k <= s.len(),
        forall|i: int| k <= i < s.len() ==> is_ws(#[trigger] s[i]),
        k > 0 ==> !is_ws(s[k - 1]),
    ensures
        trail_ws(s) == s.len() - k,
    decreases s.len(),
{
    if k < s.len() {
        let t = s.drop_last();
        assert forall|i: int| k <= i < t.len() implies is_ws(#[trigger] t[i]) by {
            assert(t[i] == s[i]);
        }
        if k > 0 {
            assert(t[k - 1] == s[k - 1]);
        }
        lemma_trail_ws_at(t, k);
    }
}

/// Bounds `(start, end)` of `s[lo..hi]` with surrounding whitespace removed.
pub fn trim_bounds(s: &Vec<char>, lo: usize, hi: usize) -> (r: (usize, usize))
    requires
        lo <= hi <= s.len(),
    ensures
        lo <= r.0 <= r.1 <= hi,
        s@.subrange(r.0 as int, r.1 as int) == trim(s@.subrange(lo as int, hi as int)),
{
    let mut a = lo;
    while a < hi && is_whitespace(s[a])
        invariant
            lo <= a <= hi <= s.len(),
            forall|i: int| lo <= i < a ==> is_ws(#[trigger] s@[i]),
        decreases hi - a,
    {
        a = a + 1;
    }
    let mut b = hi;
    while b > a && is_whitespace(s[b - 1])
        invariant
            lo <= a <= b <= hi <= s.len(),
            forall|i: int| b <= i < hi ==> is_ws(#[trigger] s@[i]),
        decreases b - a,
    {
        b = b - 1;
    }
    proof {
        let t = s@.subrange(lo as int, hi as int);
        assert forall|i: int| 0 <= i < a - lo implies is_ws(#[trigger] t[i]) by {
            assert(t[i] == s@[lo + i]);
        }
        if a - lo < t.len() {
            assert(t[a - lo] == s@[a as int]);
        }
        lemma_lead_ws_at(t, a - lo);
        let u = trim_start(t);
        assert(u =~= s@.subrange(a as int, hi as int));
        assert forall|i: int| b - a <= i < u.len() implies is_ws(#[trigger] u[i]) by {
            assert(u[i] == s@[a + i]);
        }
        if b - a > 0 {
            assert(u[b - a - 1] == s@[b - 1]);
        }
        lemma_trail_ws_at(u, b - a);
        assert(trim_end(u) =~= s@.subrange(a as int, b as int));
    }
    (a, b)
}

/// ASCII letters compare equal regardless of case; `t` is the upper-case form.
pub open spec fn ascii_ci(c: char, t: char) -> bool {
    c == t || ('A' <= t && t <= 'Z' && c as int == t as int + 32)
}

/// `c` equals the ASCII letter or symbol `t` up to ASCII case.
pub fn char_ci(c: char, t: char) -> (b: bool)
    ensures
        b == ascii_ci(c, t),
{
    c == t || ('A' <= t && t <= 'Z' && (c as u32) == (t as u32) + 32)
}

/// `s` equals `t` character by character up to ASCII case.
pub open spec fn seq_ci(s: Seq<char>, t: Seq<char>) -> bool {
    s.len() == t.len() && forall|i: int| 0 <= i < s.len() ==> ascii_ci(#[trigger] s[i], t[i])
}

/// Whether `s[lo..hi]` equals `t` up to ASCII case.
pub fn range_ci(s: &Vec<char>, lo: usize, hi: usize, t: &[char]) -> (b: bool)
    requires
        lo <= hi <= s.len(),
    ensures
        b == seq_ci(s@.subrange(lo as int, hi as int), t@),
{
    if hi - lo != t.len() {
        return false;
    }
    let mut i: usize = 0;
    while i < t.len()
        invariant
            hi - lo == t.len(),
            lo <= hi <= s.len(),
            0 <= i <= t.len(),
            forall|j: int| 0 <= j < i ==> ascii_ci(#[trigger] s@[lo + j], t@[j]),
        decreases t.len() - i,
    {
        if !char_ci(s[lo + i], t[i]) {
            proof {
                let u = s@.subrange(lo as int, hi as int);
                assert(u[i as int] == s@[lo + i]);
            }
            return false;
        }
        i = i + 1;
    }
    proof {
        let u = s@.subrange(lo as int, hi as int);
        assert forall|j: int| 0 <= j < u.len() implies ascii_ci(#[trigger] u[j], t@[j]) by {
            assert(u[j] == s@[lo + j]);
        }
    }
    true
}

/// Whether `s[lo..hi]` equals `t` exactly.
pub fn range_eq(s: &Vec<char>, lo: usize, hi: usize, t: &[char]) -> (b: bool)
    requires
        lo <= hi <= s.len(),
    ensures
        b == (s@.subrange(lo as int, hi as int) == t@),
{
    if hi - lo != t.len() {
        proof {
            assert(s@.subrange(lo as int, hi as int).len() != t@.len());
        }
        return false;
    }
    let mut i: usize = 0;
    while i < t.len()
        invariant
            hi - lo == t.len(),
            lo <= hi <= s.len(),
            0 <= i <= t.len(),
            forall|j: int| 0 <= j < i ==> s@[lo + j] == t@[j],
        decreases t.len() - i,
    {
        if s[lo + i] != t[i] {
            proof {
                let u = s@.subrange(lo as int, hi as int);
                assert(u[i as int] == s@[lo + i]);
            }
            return false;
        }
        i = i + 1;
    }
    proof {
        let u = s@.subrange(lo as int, hi as int);
        assert forall|j: int| 0 <= j < u.len() implies u[j] == t@[j] by {
            assert(u[j] == s@[lo + j]);
        }
        assert(u =~= t@);
    }
    true
}

/// Whether `t` occurs in `s` starting at position `i`.
pub open spec fn occurs_at(s: Seq<char>, t: Seq<char>, i: int) -> bool {
    0 <= i && i + t.len() <= s.len() && s.subrange(i, i + t.len()) == t
}

/// Whether `s[pos..]` starts with `t`.
pub fn starts_with_at(s: &Vec<char>, pos: usize, t: &[char]) -> (b: bool)
    requires
        pos <= s.len(),
    ensures
        b == occurs_at(s@, t@, pos as int),
{
    if t.len() > s.len() - pos {
        return false;
    }
    range_eq(s, pos, pos + t.len(), t)
}

/// The value of a decimal digit character.
pub open spec fn digit_val(c: char) -> int {
    c as int - '0' as int
}

pub open spec fn is_digit(c: char) -> bool {
    '0' <= c && c <= '9'
}

/// The number that the decimal digits `s` spell.
pub open spec fn digits_value(s: Seq<char>) -> int
    decreases s.len(),
{
    if s.len() == 0 {
        0
    } else {
        digits_value(s.drop_last()) * 10 + digit_val(s.last())
    }
}

/// What `u32::from_str` accepts: an optional `+` and then one or more ASCII
/// digits whose value fits in a `u32`.
pub open spec fn u32_parse(s: Seq<char>) -> Option<u32> {
    let d = unsigned_digits(s);
    if d.len() > 0 && all_digits(d) && digits_value(d) <= u32::MAX {
        Some(digits_value(d) as u32)
    } else {
        None
    }
}

/// `s` without one leading `+`.
pub open spec fn unsigned_digits(s: Seq<char>) -> Seq<char> {
    if s.len() > 0 && s[0] == '+' {
        s.drop_first()
    } else {
        s
    }
}

pub open spec fn all_digits(d: Seq<char>) -> bool {
    forall|i: int| 0 <= i < d.len() ==> is_digit(#[trigger] d[i])
}

/// What `u8::from_str` accepts: as [`u32_parse`] with values up to 255.
pub open spec fn u8_parse(s: Seq<char>) -> Option<u8> {
    match u32_parse(s) {
        Some(v) => if v <= 255 {
            Some(v as u8)
        } else {
            None
        },
        None => None,
    }
}

proof fn lemma_digits_value_nonneg(s: Seq<char>)
    requires
        forall|i: int| 0 <= i < s.len() ==> is_digit(#[trigger] s[i]),
    ensures
        digits_value(s) >= 0,
    decreases s.len(),
{
    if s.len() > 0 {
        assert forall|i: int| 0 <= i < s.drop_last().len() implies is_digit(
            #[trigger] s.drop_last()[i],
        ) by {
            assert(s.drop_last()[i] == s[i]);
        }
        lemma_digits_value_nonneg(s.drop_last());
    }
}

/// Parses `s[lo..hi]` as `u32::from_str` does.
pub fn parse_u32_range(s: &Vec<char>, lo: usize, hi: usize) -> (r: Option<u32>)
    requires
        lo <= hi <= s.len(),
    ensures
        r == u32_parse(s@.subrange(lo as int, hi as int)),
{
    let ghost full = s@.subrange(lo as int, hi as int);
    let mut start = lo;
    if lo < hi && s[lo] == '+' {
        start = lo + 1;
    }
    let ghost d = s@.subrange(start as int, hi as int);
    proof {
        if lo < hi && s@[lo as int] == '+' {
            assert(full[0] == s@[lo as int]);
            assert(d =~= full.drop_first());
        } else {
            if lo < hi {
                assert(full[0] == s@[lo as int]);
            }
            assert(d =~= full);
        }
    }
    if start == hi {
        return None;
    }
    let mut value: u64 = 0;
    let mut i = start;
    while i < hi
        invariant
            lo <= start <= i <= hi <= s.len(),
            d == s@.subrange(start as int, hi as int),
            full == s@.subrange(lo as int, hi as int),
            d == unsigned_digits(full),
            forall|j: int| start <= j < i ==> is_digit(#[trigger] s@[j]),
            value == digits_value(s@.subrange(start as int, i as int)),
            value <= u32::MAX,
        decreases hi - i,
    {
        let c = s[i];
        if !('0' <= c && c <= '9') {
            proof {
                assert(d[i - start] == c);
                assert(!is_digit(d[i - start]));
                assert(!all_digits(d));
            }
            return None;
        }
        let dv = (c as u32 - '0' as u32) as u64;
        proof {
            let p = s@.subrange(start as int, i + 1);
            assert(p.drop_last() =~= s@.subrange(start as int, i as int));
            assert(p.last() == c);
        }
        let next = value * 10 + dv;
        if next > 4294967295u64 {
            proof {
                // the value of a longer digit string is at least that of its prefix
                let p = s@.subrange(start as int, i + 1);
                if all_digits(d) {
                    lemma_prefix_value_le(d, (i + 1 - start) as int);
                    assert(d.subrange(0, (i + 1 - start) as int) =~= p);
                }
            }
            return None;
        }
        value = next;
        i = i + 1;
    }
    proof {
        assert(s@.subrange(start as int, hi as int) =~= d);
        assert forall|j: int| 0 <= j < d.len() implies is_digit(#[trigger] d[j]) by {
            assert(d[j] == s@[start + j]);
        }
    }
    Some(value as u32)
}

/// The value of a digit string is at least the value of any of its prefixes.
proof fn lemma_prefix_value_le(d: Seq<char>, k: int)
    requires
        0 <= k <= d.len(),
        forall|i: int| 0 <= i < d.len() ==> is_digit(#[trigger] d[i]),
    ensures
        digits_value(d.subrange(0, k)) <= digits_value(d),
    decreases d.len() - k,
{
    if k < d.len() {
        let e = d.subrange(0, k + 1);
        assert forall|i: int| 0 <= i < e.len() implies is_digit(#[trigger] e[i]) by {
            assert(e[i] == d[i]);
        }
        assert(e.drop_last() =~= d.subrange(0, k));
        assert forall|i: int| 0 <= i < e.drop_last().len() implies is_digit(
            #[trigger] e.drop_last()[i],
        ) by {
            assert(e.drop_last()[i] == d[i]);
        }
        lemma_digits_value_nonneg(e.drop_last());
        assert(is_digit(e.last()));
        lemma_prefix_value_le(d, k + 1);
    } else {
        assert(d.subrange(0, k) =~= d);
    }
}

/// The decimal digits of `n`, most significant first, as `u32::to_string` writes them.
pub open spec fn decimal(n: nat) -> Seq<char>
    decreases n,
{
    if n < 10 {
        seq![digit_char(n)]
    } else {
        decimal(n / 10).push(digit_char(n % 10))
    }
}

pub open spec fn digit_char(d: nat) -> char {
    ('0' as int + d) as char
}

proof fn lemma_decimal(n: nat)
    ensures
        decimal(n).len() > 0,
        all_digits(decimal(n)),
        digits_value(decimal(n)) == n,
    decreases n,
{
    if n >= 10 {
        lemma_decimal(n / 10);
        let d = decimal(n / 10);
        let s = decimal(n);
        assert(s.drop_last() =~= d);
        assert(s.last() == digit_char(n % 10));
        assert forall|i: int| 0 <= i < s.len() implies is_digit(#[trigger] s[i]) by {
            if i < d.len() {
                assert(s[i] == d[i]);
            }
        }
        assert((n / 10) * 10 + n % 10 == n) by (nonlinear_arith);
        assert(digit_val(digit_char(n % 10)) == n % 10);
        assert(digits_value(s) == digits_value(d) * 10 + digit_val(s.last()));
    } else {
        assert(decimal(n) == seq![digit_char(n)]);
        assert(decimal(n).drop_last() =~= Seq::<char>::empty());
        assert(digit_val(digit_char(n)) == n);
        assert(digits_value(decimal(n)) == digits_value(decimal(n).drop_last()) * 10 + digit_val(
            decimal(n).last(),
        ));
    }
}

/// The digits of a number are decimal digits, and there is at least one.
pub proof fn lemma_decimal_digits(n: nat)
    ensures
        decimal(n).len() > 0,
        all_digits(decimal(n)),
{
    lemma_decimal(n);
}

/// Text that starts and ends with a non-whitespace character is its own trim.
pub proof fn lemma_trim_unchanged(s: Seq<char>)
    requires
        s.len() > 0 ==> !is_ws(s[0]) && !is_ws(s[s.len() - 1]),
    ensures
        trim(s) == s,
{
    lemma_lead_ws_at(s, 0);
    assert(s.skip(0) =~= s);
    lemma_trail_ws_at(s, s.len() as int);
    assert(s.take(s.len() as int) =~= s);
}

proof fn lemma_pieces_none(s: Seq<char>, sep: char, i: int)
    requires
        0 <= i <= s.len(),
        forall|j: int| 0 <= j < s.len() ==> #[trigger] s[j] != sep,
    ensures
        pieces_from(s, i, s.take(i), sep) == seq![s],
    decreases s.len() - i,
{
    if i < s.len() {
        assert(s.take(i).push(s[i]) =~= s.take(i + 1));
        lemma_pieces_none(s, sep, i + 1);
    } else {
        assert(s.take(i) =~= s);
    }
}

/// Text without the separator is a single piece.
pub proof fn lemma_split_none(s: Seq<char>, sep: char)
    requires
        forall|j: int| 0 <= j < s.len() ==> #[trigger] s[j] != sep,
    ensures
        split_on(s, sep) == seq![s],
{
    lemma_pieces_none(s, sep, 0);
    assert(s.take(0) =~= Seq::<char>::empty());
}

proof fn lemma_pieces_two(a: Seq<char>, b: Seq<char>, sep: char, i: int)
    requires
        0 <= i <= a.len(),
        forall|j: int| 0 <= j < a.len() ==> #[trigger] a[j] != sep,
        forall|j: int| 0 <= j < b.len() ==> #[trigger] b[j] != sep,
    ensures
        pieces_from(a + seq![sep] + b, i, a.take(i), sep) == seq![a, b],
    decreases a.len() - i + 1,
{
    let s = a + seq![sep] + b;
    if i < a.len() {
        assert(s[i] == a[i]);
        assert(a.take(i).push(a[i]) =~= a.take(i + 1));
        lemma_pieces_two(a, b, sep, i + 1);
    } else {
        assert(s[i] == sep);
        assert(a.take(i) =~= a);
        lemma_pieces_rest(a, b, sep, 0);
        assert(b.take(0) =~= Seq::<char>::empty());
        assert(seq![a] + seq![b] =~= seq![a, b]);
    }
}

proof fn lemma_pieces_rest(a: Seq<char>, b: Seq<char>, sep: char, j: int)
    requires
        0 <= j <= b.len(),
        forall|k: int| 0 <= k < b.len() ==> #[trigger] b[k] != sep,
    ensures
        pieces_from(a + seq![sep] + b, a.len() + 1 + j, b.take(j), sep) == seq![b],
    decreases b.len() - j,
{
    let s = a + seq![sep] + b;
    if j < b.len() {
        assert(s[a.len() + 1 + j] == b[j]);
        assert(b.take(j).push(b[j]) =~= b.take(j + 1));
        lemma_pieces_rest(a, b, sep, j + 1);
    } else {
        assert(b.take(j) =~= b);
    }
}

/// Two pieces without the separator, joined by it, split back into them.
pub proof fn lemma_split_two(a: Seq<char>, b: Seq<char>, sep: char)
    requires
        forall|j: int| 0 <= j < a.len() ==> #[trigger] a[j] != sep,
        forall|j: int| 0 <= j < b.len() ==> #[trigger] b[j] != sep,
    ensures
        split_on(a + seq![sep] + b, sep) == seq![a, b],
{
    lemma_pieces_two(a, b, sep, 0);
    assert(a.take(0) =~= Seq::<char>::empty());
}

/// Reading the decimal digits that a number is written with gives back the number.
pub proof fn law_decimal_roundtrip(n: u32)
    ensures
        u32_parse(decimal(n as nat)) == Some(n),
{
    lemma_decimal(n as nat);
    let d = decimal(n as nat);
    assert(is_digit(d[0]));
    assert(unsigned_digits(d) == d);
}

/// Appends the decimal digits of `n` to `out`.
pub fn push_decimal(out: &mut Vec<char>, n: u64)
    ensures
        final(out)@ == old(out)@ + decimal(n as nat),
    decreases n,
{
    if n < 10 {
        let c = char_from_digit(n);
        out.push(c);
        proof {
            assert(decimal(n as nat) =~= seq![c]);
        }
    } else {
        push_decimal(out, n / 10);
        let c = char_from_digit(n % 10);
        out.push(c);
    }
}

fn char_from_digit(d: u64) -> (c: char)
    requires
        d < 10,
    ensures
        c == digit_char(d as nat),
{
    match d {
        0 => '0',
        1 => '1',
        2 => '2',
        3 => '3',
        4 => '4',
        5 => '5',
        6 => '6',
        7 => '7',
        8 => '8',
        _ => '9',
    }
}

/// The words of `s[i..]` separated by whitespace, the current word `cur`
/// being read when `i` is reached.
pub open spec fn words_from(s: Seq<char>, i: int, cur: Seq<char>) -> Seq<Seq<char>>
    decreases s.len() - i,
{
    if i < 0 || i >= s.len() {
        if cur.len() > 0 {
            seq![cur]
        } else {
            seq![]
        }
    } else if is_ws(s[i]) {
        (if cur.len() > 0 {
            seq![cur]
        } else {
            seq![]
        }) + words_from(s, i + 1, seq![])
    } else {
        words_from(s, i + 1, cur.push(s[i]))
    }
}

/// The non-empty runs of non-whitespace characters of `s`, as
/// `str::split_whitespace` gives them.
pub open spec fn split_ws(s: Seq<char>) -> Seq<Seq<char>> {
    words_from(s, 0, seq![])
}

/// The pieces of `s[i..]` between separators `sep`, the current piece `cur`
/// being read when `i` is reached.
pub open spec fn pieces_from(s: Seq<char>, i: int, cur: Seq<char>, sep: char) -> Seq<Seq<char>>
    decreases s.len() - i,
{
    if i < 0 || i >= s.len() {
        seq![cur]
    } else if s[i] == sep {
        seq![cur] + pieces_from(s, i + 1, seq![], sep)
    } else {
        pieces_from(s, i + 1, cur.push(s[i]), sep)
    }
}

/// The pieces of `s` between the separators `sep`, empty ones included, as
/// `str::split` with a character gives them.
pub open spec fn split_on(s: Seq<char>, sep: char) -> Seq<Seq<char>> {
    pieces_from(s, 0, seq![], sep)
}

/// The views of a vector of character vectors.
pub open spec fn views(w: Seq<Vec<char>>) -> Seq<Seq<char>> {
    w.map_values(|x: Vec<char>| x@)
}

proof fn lemma_views_push(w: Seq<Vec<char>>, x: Vec<char>)
    ensures
        views(w.push(x)) == views(w).push(x@),
{
    assert(views(w.push(x)) =~= views(w).push(x@));
}

/// Splits `v` into whitespace-separated words.
pub fn split_whitespace(v: &Vec<char>) -> (w: Vec<Vec<char>>)
    ensures
        views(w@) == split_ws(v@),
{
    let mut words: Vec<Vec<char>> = Vec::new();
    let mut cur: Vec<char> = Vec::new();
    let mut i: usize = 0;
    while i < v.len()
        invariant
            0 <= i <= v@.len(),
            split_ws(v@) == views(words@) + words_from(v@, i as int, cur@),
        decreases v@.len() - i,
    {
        let c = v[i];
        if is_whitespace(c) {
            if cur.len() > 0 {
                let ghost before = words@;
                let ghost cv = cur@;
                words.push(cur);
                cur = Vec::new();
                proof {
                    lemma_views_push(before, words@.last());
                    assert(views(words@) + words_from(v@, i + 1, cur@) =~= views(before) + (seq![
                        cv,
                    ] + words_from(v@, i + 1, seq![])));
                }
            } else {
                proof {
                    assert(words_from(v@, i as int, cur@) =~= Seq::<Seq<char>>::empty()
                        + words_from(v@, i + 1, seq![]));
                    assert(cur@ =~= Seq::<char>::empty());
                }
            }
        } else {
            cur.push(c);
        }
        i = i + 1;
    }
    if cur.len() > 0 {
        let ghost before = words@;
        words.push(cur);
        proof {
            lemma_views_push(before, words@.last());
        }
    } else {
        proof {
            assert(views(words@) + words_from(v@, i as int, cur@) =~= views(words@));
        }
    }
    words
}

/// Splits `v` at each occurrence of `sep`.
pub fn split_char(v: &Vec<char>, sep: char) -> (w: Vec<Vec<char>>)
    ensures
        views(w@) == split_on(v@, sep),
{
    let mut pieces: Vec<Vec<char>> = Vec::new();
    let mut cur: Vec<char> = Vec::new();
    let mut i: usize = 0;
    while i < v.len()
        invariant
            0 <= i <= v@.len(),
            split_on(v@, sep) == views(pieces@) + pieces_from(v@, i as int, cur@, sep),
        decreases v@.len() - i,
    {
        let c = v[i];
        if c == sep {
            let ghost before = pieces@;
            let ghost cv = cur@;
            pieces.push(cur);
            cur = Vec::new();
            proof {
                lemma_views_push(before, pieces@.last());
                assert(views(pieces@) + pieces_from(v@, i + 1, cur@, sep) =~= views(before) + (seq![
                    cv,
                ] + pieces_from(v@, i + 1, seq![], sep)));
            }
        } else {
            cur.push(c);
        }
        i = i + 1;
    }
    let ghost before = pieces@;
    pieces.push(cur);
    proof {
        lemma_views_push(before, pieces@.last());
    }
    pieces
}

/// A copy of `v[lo..hi]`.
pub fn sub_chars(v: &Vec<char>, lo: usize, hi: usize) -> (w: Vec<char>)
    requires
        lo <= hi <= v@.len(),
    ensures
        w@ == v@.subrange(lo as int, hi as int),
{
    let mut w: Vec<char> = Vec::new();
    let mut i = lo;
    while i < hi
        invariant
            lo <= i <= hi <= v@.len(),
            w@ == v@.subrange(lo as int, i as int),
        decreases hi - i,
    {
        w.push(v[i]);
        proof {
            assert(w@ =~= v@.subrange(lo as int, i + 1));
        }
        i = i + 1;
    }
    w
}

/// What `i8::from_str` accepts: an optional sign and one or more ASCII
/// digits whose value fits in an `i8`.
pub open spec fn i8_parse(s: Seq<char>) -> Option<i8> {
    if s.len() > 0 && s[0] == '-' {
        let d = s.drop_first();
        if d.len() > 0 && all_digits(d) && digits_value(d) <= 128 {
            Some((-digits_value(d)) as i8)
        } else {
            None
        }
    } else {
        let d = unsigned_digits(s);
        if d.len() > 0 && all_digits(d) && digits_value(d) <= 127 {
            Some(digits_value(d) as i8)
        } else {
            None
        }
    }
}

/// Parses `s[lo..hi]` as `i8::from_str` does.
pub fn parse_i8_range(s: &Vec<char>, lo: usize, hi: usize) -> (r: Option<i8>)
    requires
        lo <= hi <= s.len(),
    ensures
        r == i8_parse(s@.subrange(lo as int, hi as int)),
{
    let ghost full = s@.subrange(lo as int, hi as int);
    if lo < hi && s[lo] == '-' {
        let ghost d = s@.subrange(lo + 1, hi as int);
        proof {
            assert(full[0] == s@[lo as int]);
            assert(d =~= full.drop_first());
        }
        if lo + 1 < hi && s[lo + 1] == '+' {
            proof {
                assert(d[0] == '+');
                assert(!is_digit(d[0]));
            }
            return None;
        }
        proof {
            if d.len() > 0 {
                assert(d[0] == s@[lo + 1]);
            }
            assert(unsigned_digits(d) =~= d);
        }
        match parse_u32_range(s, lo + 1, hi) {
            Some(n) => {
                proof {
                    lemma_digits_value_nonneg(d);
                    assert(n == digits_value(d));
                    assert(full.len() > 0 && full[0] == '-');
                }
                if n <= 128 {
                    let m: i16 = 0 - (n as i16);
                    proof {
                        assert(m == -digits_value(d));
                    }
                    Some(m as i8)
                } else {
                    None
                }
            },
            None => {
                proof {
                    if d.len() > 0 && all_digits(d) && digits_value(d) <= 128 {
                        assert(false);
                    }
                }
                None
            },
        }
    } else {
        proof {
            if lo < hi {
                assert(full[0] == s@[lo as int]);
            }
        }
        match parse_u32_range(s, lo, hi) {
            Some(n) => {
                proof {
                    lemma_digits_value_nonneg(unsigned_digits(full));
                    assert(n == digits_value(unsigned_digits(full)));
                }
                if n <= 127 {
                    Some(n as i8)
                } else {
                    None
                }
            },
            None => None,
        }
    }
}

/// `l` without one trailing carriage return.
pub open spec fn drop_cr(l: Seq<char>) -> Seq<char> {
    if l.len() > 0 && l.last() == '\r' {
        l.drop_last()
    } else {
        l
    }
}

/// The lines of `s[i..]`, the current line `cur` being read when `i` is
/// reached: split at `\n`, a `\r` before the `\n` dropped, no empty last line.
pub open spec fn lines_from(s: Seq<char>, i: int, cur: Seq<char>) -> Seq<Seq<char>>
    decreases s.len() - i,
{
    if i < 0 || i >= s.len() {
        if cur.len() > 0 {
            seq![cur]
        } else {
            seq![]
        }
    } else if s[i] == '\n' {
        seq![drop_cr(cur)] + lines_from(s, i + 1, seq![])
    } else {
        lines_from(s, i + 1, cur.push(s[i]))
    }
}

/// The lines of `s`, as `str::lines` gives them.
pub open spec fn lines_of(s: Seq<char>) -> Seq<Seq<char>> {
    lines_from(s, 0, seq![])
}

/// Splits `v` into lines.
pub fn split_lines(v: &Vec<char>) -> (w: Vec<Vec<char>>)
    ensures
        views(w@) == lines_of(v@),
{
    let mut lines: Vec<Vec<char>> = Vec::new();
    let mut cur: Vec<char> = Vec::new();
    let mut i: usize = 0;
    while i < v.len()
        invariant
            0 <= i <= v@.len(),
            lines_of(v@) == views(lines@) + lines_from(v@, i as int, cur@),
        decreases v@.len() - i,
    {
        let c = v[i];
        if c == '\n' {
            let ghost before = lines@;
            let ghost cv = cur@;
            if cur.len() > 0 && cur[cur.len() - 1] == '\r' {
                cur.pop();
            }
            proof {
                assert(cur@ =~= drop_cr(cv));
            }
            lines.push(cur);
            cur = Vec::new();
            proof {
                lemma_views_push(before, lines@.last());
                assert(views(lines@) + lines_from(v@, i + 1, cur@) =~= views(before) + (seq![
                    drop_cr(cv),
                ] + lines_from(v@, i + 1, seq![])));
            }
        } else {
            cur.push(c);
        }
        i = i + 1;
    }
    if cur.len() > 0 {
        let ghost before = lines@;
        lines.push(cur);
        proof {
            lemma_views_push(before, lines@.last());
        }
    } else {
        proof {
            assert(views(lines@) + lines_from(v@, i as int, cur@) =~= views(lines@));
        }
    }
    lines
}

/// The lines `ls` joined with `sep` between each two.
pub open spec fn join_with(ls: Seq<Seq<char>>, sep: Seq<char>) -> Seq<char>
    decreases ls.len(),
{
    if ls.len() == 0 {
        seq![]
    } else if ls.len() == 1 {
        ls[0]
    } else {
        join_with(ls.drop_last(), sep) + sep + ls.last()
    }
}

/// Joins the lines `ls` with the character `sep` between each two.
pub fn join_chars(ls: &Vec<Vec<char>>, sep: char) -> (out: Vec<char>)
    ensures
        out@ == join_with(views(ls@), seq![sep]),
{
    let mut out: Vec<char> = Vec::new();
    let mut i: usize = 0;
    while i < ls.len()
        invariant
            0 <= i <= ls@.len(),
            out@ == join_with(views(ls@).take(i as int), seq![sep]),
        decreases ls@.len() - i,
    {
        let ghost before = out@;
        if i > 0 {
            out.push(sep);
        }
        let line = &ls[i];
        let mut j: usize = 0;
        let ghost mid = out@;
        while j < line.len()
            invariant
                0 <= j <= line@.len(),
                out@ == mid + line@.take(j as int),
            decreases line@.len() - j,
        {
            out.push(line[j]);
            proof {
                assert(line@.take(j + 1) =~= line@.take(j as int).push(line@[j as int]));
            }
            j = j + 1;
        }
        proof {
            let w = views(ls@);
            assert(line@.take(line@.len() as int) =~= line@);
            assert(w[i as int] == line@);
            assert(w.take(i + 1).drop_last() =~= w.take(i as int));
            assert(w.take(i + 1).last() == line@);
            if i == 0 {
                assert(out@ =~= join_with(w.take(i + 1), seq![sep]));
            } else {
                assert(out@ =~= join_with(w.take(i + 1), seq![sep]));
            }
        }
        i = i + 1;
    }
    proof {
        assert(views(ls@).take(ls@.len() as int) =~= views(ls@));
    }
    out
}

/// Whether `c` occurs in `v`.
pub fn contains_char(v: &Vec<char>, c: char) -> (b: bool)
    ensures
        b == v@.contains(c),
{
    let mut i: usize = 0;
    while i < v.len()
        invariant
            0 <= i <= v@.len(),
            forall|j: int| 0 <= j < i ==> v@[j] != c,
        decreases v@.len() - i,
    {
        if v[i] == c {
            proof {
                assert(v@[i as int] == c);
            }
            return true;
        }
        i = i + 1;
    }
    false
}

} // verus!
