//! Tag pairs: `[Name "Value"]`.

use crate::text::{chars_of, is_whitespace, is_ws, lead_ws, string_of, string_of_range};
use vstd::prelude::*;

verus! {

/// A PBN tag pair: `[Name "Value"]`.
#[derive(Debug, Clone, PartialEq, Eq)]
pub struct TagPair {
    pub name: String,
    pub value: String,
}

impl TagPair {
    pub fn new(name: &str, value: &str) -> (t: TagPair)
        ensures
            t.name@ == name@,
            t.value@ == value@,
    {
        TagPair { name: name.to_owned(), value: value.to_owned() }
    }
}

/// What `char::is_alphanumeric` answers: whether `c` has the Unicode
/// `Alphabetic` or `Numeric` property.
pub uninterp spec fn spec_is_alphanumeric(c: char) -> bool;

/// What `char::is_alphabetic` answers: whether `c` has the Unicode
/// `Alphabetic` property.
pub uninterp spec fn spec_is_alphabetic(c: char) -> bool;

pub open spec fn is_ascii_letter(c: char) -> bool {
    ('A' <= c && c <= 'Z') || ('a' <= c && c <= 'z')
}

/// Calls `char::is_alphanumeric`. For ASCII characters its documentation makes
/// it the letters and digits.
#[verifier::external_body]
pub fn is_alphanumeric(c: char) -> (b: bool)
    ensures
        b == spec_is_alphanumeric(c),
        c <= '\u{7f}' ==> (b <==> (is_ascii_letter(c) || ('0' <= c && c <= '9'))),
{
    c.is_alphanumeric()
}

/// Calls `char::is_alphabetic`. For ASCII characters its documentation makes
/// it the letters.
#[verifier::external_body]
pub fn is_alphabetic(c: char) -> (b: bool)
    ensures
        b == spec_is_alphabetic(c),
        c <= '\u{7f}' ==> (b <==> is_ascii_letter(c)),
{
    c.is_alphabetic()
}

/// A character of a tag name: alphanumeric or `_` (for ASCII characters,
/// a letter, a digit or `_`).
pub open spec fn is_name_char(c: char) -> bool {
    if c <= '\u{7f}' {
        is_ascii_letter(c) || ('0' <= c && c <= '9') || c == '_'
    } else {
        spec_is_alphanumeric(c)
    }
}

/// End of the run of tag name characters that starts at `i`.
pub open spec fn name_end(s: Seq<char>, i: int) -> int
    decreases s.len() - i,
{
    if 0 <= i < s.len() && is_name_char(s[i]) {
        name_end(s, i + 1)
    } else {
        i
    }
}

/// End of the run of spaces and tabs that starts at `i`.
pub open spec fn blank_end(s: Seq<char>, i: int) -> int
    decreases s.len() - i,
{
    if 0 <= i < s.len() && (s[i] == ' ' || s[i] == '\t') {
        blank_end(s, i + 1)
    } else {
        i
    }
}

/// The rest of a quoted value from position `i` (past the opening quote),
/// with `acc` read so far: where it ends (past the closing quote) and its
/// text. `\n`, `\t`, `\\` and `\"` are escapes; any other backslash is kept
/// with the character after it.
pub open spec fn quoted_from(s: Seq<char>, i: int, acc: Seq<char>) -> Option<(int, Seq<char>)>
    decreases s.len() - i,
{
    if i < 0 || i >= s.len() {
        None
    } else if s[i] == '"' {
        Some((i + 1, acc))
    } else if s[i] == '\\' {
        if i + 1 >= s.len() {
            None
        } else {
            let n = s[i + 1];
            let add = if n == 'n' {
                seq!['\n']
            } else if n == 't' {
                seq!['\t']
            } else if n == '\\' {
                seq!['\\']
            } else if n == '"' {
                seq!['"']
            } else {
                seq!['\\', n]
            };
            quoted_from(s, i + 2, acc + add)
        }
    } else {
        quoted_from(s, i + 1, acc.push(s[i]))
    }
}

/// A tag pair at position `p` of `s`: where it ends, its name and its value.
pub open spec fn tag_at(s: Seq<char>, p: int) -> Option<(int, Seq<char>, Seq<char>)> {
    if !(0 <= p < s.len() && s[p] == '[') {
        None
    } else {
        let k = name_end(s, p + 1);
        let m = blank_end(s, k);
        if k == p + 1 || !(m < s.len() && s[m] == '"') {
            None
        } else {
            match quoted_from(s, m + 1, seq![]) {
                Some((e, value)) => if e < s.len() && s[e] == ']' {
                    Some((e + 1, s.subrange(p + 1, k), value))
                } else {
                    None
                },
                None => None,
            }
        }
    }
}

/// The tag pairs at the start of `s[pos..]`, each optionally preceded by whitespace.
pub open spec fn tags_from(s: Seq<char>, pos: int) -> Seq<(Seq<char>, Seq<char>)>
    decreases s.len() - pos,
{
    if pos < 0 || pos >= s.len() {
        seq![]
    } else {
        let p = pos + lead_ws(s.subrange(pos, s.len() as int));
        match tag_at(s, p) {
            Some((e, name, value)) => if e > pos {
                seq![(name, value)] + tags_from(s, e)
            } else {
                seq![]
            },
            None => seq![],
        }
    }
}

proof fn lemma_name_end(s: Seq<char>, i: int)
    requires
        0 <= i <= s.len(),
    ensures
        i <= name_end(s, i) <= s.len(),
    decreases s.len() - i,
{
    if 0 <= i < s.len() && is_name_char(s[i]) {
        lemma_name_end(s, i + 1);
    }
}

proof fn lemma_quoted_from(s: Seq<char>, i: int, acc: Seq<char>)
    requires
        0 <= i,
    ensures
        quoted_from(s, i, acc) matches Some((e, _)) ==> i < e <= s.len(),
    decreases s.len() - i,
{
    if 0 <= i < s.len() && s[i] != '"' {
        if s[i] == '\\' {
            if i + 1 < s.len() {
                let n = s[i + 1];
                let add = if n == 'n' {
                    seq!['\n']
                } else if n == 't' {
                    seq!['\t']
                } else if n == '\\' {
                    seq!['\\']
                } else if n == '"' {
                    seq!['"']
                } else {
                    seq!['\\', n]
                };
                lemma_quoted_from(s, i + 2, acc + add);
            }
        } else {
            lemma_quoted_from(s, i + 1, acc.push(s[i]));
        }
    }
}

/// Parses a tag pair at position `p` of `v`.
pub(crate) fn tag_at_exec(v: &Vec<char>, p: usize) -> (r: Option<(usize, TagPair)>)
    requires
        p <= v@.len(),
    ensures
        match r {
            Some((e, t)) => tag_at(v@, p as int) == Some((e as int, t.name@, t.value@)),
            None => tag_at(v@, p as int) is None,
        },
{
    let n = v.len();
    if p >= n || v[p] != '[' {
        return None;
    }
    let mut k = p + 1;
    while k < n && (is_alphanumeric(v[k]) || v[k] == '_')
        invariant
            p + 1 <= k <= n,
            n == v@.len(),
            name_end(v@, p + 1) == name_end(v@, k as int),
        decreases n - k,
    {
        k = k + 1;
    }
    if k == p + 1 {
        return None;
    }
    let mut m = k;
    while m < n && (v[m] == ' ' || v[m] == '\t')
        invariant
            k <= m <= n,
            n == v@.len(),
            blank_end(v@, k as int) == blank_end(v@, m as int),
        decreases n - m,
    {
        m = m + 1;
    }
    if m >= n || v[m] != '"' {
        return None;
    }
    // the quoted value
    let mut value: Vec<char> = Vec::new();
    let mut i = m + 1;
    let mut end: usize = 0;
    let mut closed = false;
    while i < n && !closed
        invariant
            m + 1 <= i <= n,
            n == v@.len(),
            p + 1 < k <= m < n,
            v@[p as int] == '[',
            v@[m as int] == '"',
            name_end(v@, p + 1) == k,
            blank_end(v@, k as int) == m,
            closed ==> quoted_from(v@, m + 1, seq![]) == Some((end as int, value@)),
            !closed ==> quoted_from(v@, m + 1, seq![]) == quoted_from(v@, i as int, value@),
        decreases n - i + (if closed {
            0int
        } else {
            1int
        }),
    {
        let c = v[i];
        if c == '"' {
            end = i + 1;
            closed = true;
        } else if c == '\\' {
            if i + 1 >= n {
                proof {
                    assert(quoted_from(v@, i as int, value@) is None);
                }
                return None;
            }
            let next = v[i + 1];
            let ghost before = value@;
            if next == 'n' {
                value.push('\n');
            } else if next == 't' {
                value.push('\t');
            } else if next == '\\' {
                value.push('\\');
            } else if next == '"' {
                value.push('"');
            } else {
                value.push('\\');
                value.push(next);
            }
            proof {
                let add = if next == 'n' {
                    seq!['\n']
                } else if next == 't' {
                    seq!['\t']
                } else if next == '\\' {
                    seq!['\\']
                } else if next == '"' {
                    seq!['"']
                } else {
                    seq!['\\', next]
                };
                assert(value@ =~= before + add);
            }
            i = i + 2;
        } else {
            value.push(c);
            i = i + 1;
        }
    }
    if !closed {
        return None;
    }
    if end >= n || v[end] != ']' {
        return None;
    }
    let name = string_of_range(v, p + 1, k);
    let val = string_of(&value);
    Some((end + 1, TagPair { name, value: val }))
}

/// How a tag pair is written: `[`, the name, a space, the value in quotes, `]`.
pub open spec fn tag_text(name: Seq<char>, value: Seq<char>) -> Seq<char> {
    seq!['['] + name + seq![' ', '"'] + value + seq!['"', ']']
}

/// A tag name: one or more name characters.
pub open spec fn valid_name(name: Seq<char>) -> bool {
    name.len() > 0 && forall|i: int| 0 <= i < name.len() ==> is_name_char(#[trigger] name[i])
}

/// A value that needs no escapes: no quote and no backslash.
pub open spec fn plain_value(value: Seq<char>) -> bool {
    forall|i: int| 0 <= i < value.len() ==> #[trigger] value[i] != '"' && value[i] != '\\'
}

proof fn lemma_written_name(name: Seq<char>, value: Seq<char>, j: int)
    requires
        valid_name(name),
        1 <= j <= name.len() + 1,
    ensures
        name_end(tag_text(name, value), j) == name.len() + 1,
    decreases name.len() + 1 - j,
{
    let s = tag_text(name, value);
    if j <= name.len() {
        assert(s[j] == name[j - 1]);
        lemma_written_name(name, value, j + 1);
    } else {
        assert(s[j] == ' ');
    }
}

proof fn lemma_written_value(name: Seq<char>, value: Seq<char>, j: int)
    requires
        plain_value(value),
        0 <= j <= value.len(),
    ensures
        quoted_from(tag_text(name, value), name.len() + 3 + j, value.take(j)) == Some(
            ((name.len() + 4 + value.len()) as int, value),
        ),
    decreases value.len() - j,
{
    let s = tag_text(name, value);
    let p = name.len() + 3 + j;
    if j < value.len() {
        assert(s[p] == value[j]);
        assert(value.take(j).push(value[j]) =~= value.take(j + 1));
        lemma_written_value(name, value, j + 1);
    } else {
        assert(s[p] == '"');
        assert(value.take(j) =~= value);
    }
}

/// Reading a written tag pair gives back its name and its value, and reads
/// the whole text.
pub proof fn law_tag_roundtrip(name: Seq<char>, value: Seq<char>)
    requires
        valid_name(name),
        plain_value(value),
    ensures
        tag_at(tag_text(name, value), 0) == Some((tag_text(name, value).len() as int, name, value)),
{
    let s = tag_text(name, value);
    let k: int = name.len() + 1int;
    lemma_written_name(name, value, 1);
    assert(s[k] == ' ');
    assert(s[k + 1] == '"');
    assert(blank_end(s, k + 1) == k + 1);
    assert(blank_end(s, k) == k + 1);
    lemma_written_value(name, value, 0);
    assert(value.take(0) =~= Seq::<char>::empty());
    let e: int = name.len() + 4int + value.len();
    assert(s[e] == ']');
    assert(s.subrange(1, k) =~= name);
}

/// Parses a complete tag pair `[Name "Value"]` at the start of `input`;
/// gives what follows it and the pair.
pub fn parse_tag_pair(input: &str) -> (r: Option<(&str, TagPair)>)
    ensures
        match r {
            Some((rest, t)) => exists|e: int|
                tag_at(input@, 0) == Some((e, t.name@, t.value@)) && rest@ == input@.subrange(
                    e,
                    input@.len() as int,
                ),
            None => tag_at(input@, 0) is None,
        },
{
    let v = chars_of(input);
    match tag_at_exec(&v, 0) {
        Some((e, t)) => {
            proof {
                lemma_quoted_bound(v@);
            }
            let rest = input.substring_char(e, v.len());
            Some((rest, t))
        },
        None => None,
    }
}

proof fn lemma_quoted_bound(s: Seq<char>)
    ensures
        tag_at(s, 0) matches Some((e, _, _)) ==> 0 < e <= s.len(),
{
    if 0 < s.len() && s[0] == '[' {
        lemma_name_end(s, 1);
        let k = name_end(s, 1);
        lemma_blank_end(s, k);
        let m = blank_end(s, k);
        if m < s.len() {
            lemma_quoted_from(s, m + 1, seq![]);
        }
    }
}

proof fn lemma_blank_end(s: Seq<char>, i: int)
    requires
        0 <= i <= s.len(),
    ensures
        i <= blank_end(s, i) <= s.len(),
    decreases s.len() - i,
{
    if 0 <= i < s.len() && (s[i] == ' ' || s[i] == '\t') {
        lemma_blank_end(s, i + 1);
    }
}

/// Parses the tag pairs at the start of `input`, each optionally preceded by
/// whitespace, stopping at the first thing that is not a tag pair.
pub fn parse_tag_pairs(input: &str) -> (pairs: Vec<TagPair>)
    ensures
        pairs@.map_values(|t: TagPair| (t.name@, t.value@)) == tags_from(input@, 0),
{
    let v = chars_of(input);
    let n = v.len();
    let mut pairs: Vec<TagPair> = Vec::new();
    let mut pos: usize = 0;
    while pos < n
        invariant
            0 <= pos <= n,
            n == v@.len(),
            v@ == input@,
            tags_from(v@, 0) == pairs@.map_values(|t: TagPair| (t.name@, t.value@)) + tags_from(
                v@,
                pos as int,
            ),
        decreases n - pos,
    {
        let mut p = pos;
        while p < n && is_whitespace(v[p])
            invariant
                pos <= p <= n,
                n == v@.len(),
                forall|j: int| pos <= j < p ==> is_ws(#[trigger] v@[j]),
            decreases n - p,
        {
            p = p + 1;
        }
        proof {
            let t = v@.subrange(pos as int, n as int);
            assert forall|j: int| 0 <= j < p - pos implies is_ws(#[trigger] t[j]) by {
                assert(t[j] == v@[pos + j]);
            }
            if p - pos < t.len() {
                assert(t[p - pos] == v@[p as int]);
            }
            crate::text::lemma_lead_ws_at(t, p - pos);
        }
        match tag_at_exec(&v, p) {
            Some((e, t)) => {
                proof {
                    lemma_tag_at_bound(v@, p as int);
                }
                let ghost before = pairs@;
                pairs.push(t);
                proof {
                    assert(pairs@.map_values(|t: TagPair| (t.name@, t.value@)) =~= before.map_values(
                        |t: TagPair| (t.name@, t.value@),
                    ) + seq![(t.name@, t.value@)]);
                }
                pos = e;
            },
            None => {
                proof {
                    assert(tags_from(v@, pos as int) =~= Seq::<(Seq<char>, Seq<char>)>::empty());
                    assert(pairs@.map_values(|t: TagPair| (t.name@, t.value@)) + tags_from(
                        v@,
                        pos as int,
                    ) =~= pairs@.map_values(|t: TagPair| (t.name@, t.value@)));
                }
                return pairs;
            },
        }
    }
    proof {
        assert(pairs@.map_values(|t: TagPair| (t.name@, t.value@)) + tags_from(v@, pos as int)
            =~= pairs@.map_values(|t: TagPair| (t.name@, t.value@)));
    }
    pairs
}

proof fn lemma_tag_at_bound(s: Seq<char>, p: int)
    requires
        0 <= p,
    ensures
        tag_at(s, p) matches Some((e, _, _)) ==> p < e <= s.len(),
{
    if 0 <= p < s.len() && s[p] == '[' {
        lemma_name_end(s, p + 1);
        let k = name_end(s, p + 1);
        lemma_blank_end(s, k);
        let m = blank_end(s, k);
        if m < s.len() {
            lemma_quoted_from(s, m + 1, seq![]);
        }
    }
}

} // verus!
