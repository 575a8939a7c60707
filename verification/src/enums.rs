//! Enum-valued flags: the closed value sets, the first-failing-rule check,
//! the byte-wise edit distance behind the "did you mean" hint, and the
//! double-quoted escape spelling used in the error text.

use vstd::prelude::*;
use vstd::string::*;
use crate::text::{
    append, chars_of, concat3, hex_digit, hex_digit_char, join, join_strs, owned, push_char,
    str_eq, str_views, to_lowercase, trim, trim_lower, trim_str, utf8_len,
};

verus! {

broadcast use vstd::seq_lib::group_seq_properties;

// ---------------------------------------------------------------------------
// Rules
// ---------------------------------------------------------------------------

/// One enum rule: a string flag constrained to a closed set of values. The
/// order of `allowed` is both the "expected one of" list and the order in
/// which suggestions are tried.
#[derive(Debug, Clone, Copy, PartialEq, Eq)]
pub struct EnumFlagRule {
    pub name: &'static str,
    pub allowed: &'static [&'static str],
}

/// Number of enum rules.
pub const ENUM_RULE_COUNT: usize = 2;

/// The flag of enum rule `k`.
pub open spec fn enum_rule_name(k: int) -> &'static str {
    if k == 0 {
        "graph-format"
    } else {
        "script-format"
    }
}

/// The allowed values of enum rule `k`.
pub open spec fn enum_rule_allowed(k: int) -> Seq<&'static str> {
    if k == 0 {
        seq!["json", "dot", "mermaid"]
    } else {
        seq!["bash", "fish", "zsh"]
    }
}

/// Enum rule `k`, in evaluation order.
pub fn enum_rule(k: usize) -> (r: EnumFlagRule)
    requires
        k < ENUM_RULE_COUNT,
    ensures
        r.name == enum_rule_name(k as int),
        r.allowed@ == enum_rule_allowed(k as int),
{
    if k == 0 {
        EnumFlagRule { name: "graph-format", allowed: &["json", "dot", "mermaid"] }
    } else {
        EnumFlagRule { name: "script-format", allowed: &["bash", "fish", "zsh"] }
    }
}

/// Every enum rule, in evaluation order.
pub fn enum_rules() -> (r: Vec<EnumFlagRule>)
    ensures
        r@.len() == ENUM_RULE_COUNT,
        forall|k: int|
            0 <= k < ENUM_RULE_COUNT ==> (#[trigger] r@[k]).name == enum_rule_name(k)
                && r@[k].allowed@ == enum_rule_allowed(k),
{
    let mut r: Vec<EnumFlagRule> = Vec::new();
    r.push(enum_rule(0));
    r.push(enum_rule(1));
    r
}

// ---------------------------------------------------------------------------
// Edit distance
// ---------------------------------------------------------------------------

pub open spec fn min_nat(x: nat, y: nat) -> nat {
    if x <= y {
        x
    } else {
        y
    }
}

/// The Levenshtein distance between two byte strings.
pub open spec fn edit_distance(a: Seq<u8>, b: Seq<u8>) -> nat
    decreases a.len() + b.len(),
{
    if a.len() == 0 {
        b.len()
    } else if b.len() == 0 {
        a.len()
    } else {
        let cost: nat = if a.last() == b.last() {
            0
        } else {
            1
        };
        min_nat(
            min_nat(edit_distance(a, b.drop_last()) + 1, edit_distance(a.drop_last(), b) + 1),
            edit_distance(a.drop_last(), b.drop_last()) + cost,
        )
    }
}

pub proof fn lemma_edit_distance_bound(a: Seq<u8>, b: Seq<u8>)
    ensures
        edit_distance(a, b) <= if a.len() >= b.len() {
            a.len()
        } else {
            b.len()
        },
    decreases a.len() + b.len(),
{
    if a.len() > 0 && b.len() > 0 {
        lemma_edit_distance_bound(a.drop_last(), b.drop_last());
    }
}

pub proof fn lemma_edit_distance_self(a: Seq<u8>)
    ensures
        edit_distance(a, a) == 0,
    decreases a.len(),
{
    if a.len() > 0 {
        lemma_edit_distance_self(a.drop_last());
    }
}

/// Byte-wise equality of two byte slices.
fn bytes_eq(x: &[u8], y: &[u8]) -> (r: bool)
    ensures
        r == (x@ == y@),
{
    if x.len() != y.len() {
        return false;
    }
    let mut i: usize = 0;
    while i < x.len()
        invariant
            x@.len() == y@.len(),
            i <= x@.len(),
            forall|j: int| 0 <= j < i ==> x@[j] == y@[j],
        decreases x@.len() - i,
    {
        if x[i] != y[i] {
            return false;
        }
        i += 1;
    }
    assert(x@ =~= y@);
    true
}

/// The Levenshtein distance between the UTF-8 bytes of two strings (a
/// multibyte character costs one edit per differing byte).
pub fn levenshtein_distance(a: &str, b: &str) -> (r: usize)
    ensures
        r == edit_distance(a.spec_bytes(), b.spec_bytes()),
{
    let x = a.as_bytes();
    let y = b.as_bytes();
    let ghost xs = x@;
    let ghost ys = y@;
    if bytes_eq(x, y) {
        proof {
            lemma_edit_distance_self(xs);
        }
        return 0;
    }
    if x.len() == 0 {
        return y.len();
    }
    if y.len() == 0 {
        return x.len();
    }
    let n = x.len();
    let m = y.len();
    let mut prev: Vec<usize> = Vec::new();
    let mut j: usize = 0;
    while j < m
        invariant
            j <= m,
            m == ys.len(),
            prev@.len() == j,
            forall|t: int| 0 <= t < j ==> prev@[t] == t,
        decreases m - j,
    {
        prev.push(j);
        j += 1;
    }
    prev.push(m);
    proof {
        assert forall|t: int| 0 <= t <= m implies prev@[t] == edit_distance(
            xs.take(0),
            ys.take(t),
        ) by {
            assert(xs.take(0).len() == 0);
        }
    }
    let mut i: usize = 0;
    while i < n
        invariant
            x@ == xs,
            y@ == ys,
            n == xs.len(),
            m == ys.len(),
            n > 0,
            m > 0,
            i <= n,
            prev@.len() == m + 1,
            forall|t: int| 0 <= t <= m ==> prev@[t] == edit_distance(xs.take(i as int), ys.take(t)),
        decreases n - i,
    {
        let mut cur: Vec<usize> = Vec::new();
        cur.push(i + 1);
        proof {
            assert(ys.take(0).len() == 0);
            assert(xs.take(i + 1).len() == i + 1);
        }
        let mut j: usize = 1;
        while j <= m
            invariant
                x@ == xs,
                y@ == ys,
                n == xs.len(),
                m == ys.len(),
                i < n,
                1 <= j <= m + 1,
                prev@.len() == m + 1,
                forall|t: int|
                    0 <= t <= m ==> prev@[t] == edit_distance(xs.take(i as int), ys.take(t)),
                cur@.len() == j,
                forall|t: int|
                    0 <= t < j ==> cur@[t] == edit_distance(xs.take(i + 1), ys.take(t)),
            decreases m + 1 - j,
        {
            let cost: usize = if x[i] != y[j - 1] {
                1
            } else {
                0
            };
            let c1 = cur[j - 1];
            let c2 = prev[j];
            let c3 = prev[j - 1];
            proof {
                lemma_edit_distance_bound(xs.take(i as int), ys.take(j - 1));
                let aa = xs.take(i + 1);
                let bb = ys.take(j as int);
                assert(aa.drop_last() =~= xs.take(i as int));
                assert(bb.drop_last() =~= ys.take(j - 1));
                assert(aa.last() == xs[i as int]);
                assert(bb.last() == ys[j - 1]);
            }
            let d1 = c1.saturating_add(1);
            let d2 = c2.saturating_add(1);
            let d3 = c3 + cost;
            let low = if d1 <= d2 {
                d1
            } else {
                d2
            };
            let v = if low <= d3 {
                low
            } else {
                d3
            };
            cur.push(v);
            j += 1;
        }
        prev = cur;
        i += 1;
    }
    assert(xs.take(n as int) =~= xs);
    assert(ys.take(m as int) =~= ys);
    prev[m]
}

// ---------------------------------------------------------------------------
// Suggestions
// ---------------------------------------------------------------------------

/// The suggestion ceiling for a value of the given UTF-8 byte length.
pub open spec fn max_distance_for(len: nat) -> nat {
    if len <= 4 {
        2
    } else if len <= 10 {
        3
    } else {
        4
    }
}

/// The length-tiered ceiling on how far a typo may be from a suggestion,
/// measured in UTF-8 bytes.
pub fn max_suggestion_distance(value: &str) -> (r: usize)
    ensures
        r == max_distance_for(utf8_len(value@)),
{
    let len = value.as_bytes().len();
    if len <= 4 {
        2
    } else if len <= 10 {
        3
    } else {
        4
    }
}

/// Byte-wise lexicographic order (the order of `String`).
pub open spec fn bytes_less(a: Seq<u8>, b: Seq<u8>) -> bool
    decreases a.len(),
{
    if b.len() == 0 {
        false
    } else if a.len() == 0 {
        true
    } else if a[0] != b[0] {
        a[0] < b[0]
    } else {
        bytes_less(a.drop_first(), b.drop_first())
    }
}

/// Whether `a` sorts strictly before `b` as strings.
pub fn str_less(a: &str, b: &str) -> (r: bool)
    ensures
        r == bytes_less(a.spec_bytes(), b.spec_bytes()),
{
    let x = a.as_bytes();
    let y = b.as_bytes();
    let ghost xs = x@;
    let ghost ys = y@;
    let mut i: usize = 0;
    assert(xs.skip(0) =~= xs);
    assert(ys.skip(0) =~= ys);
    while i < x.len() && i < y.len() && x[i] == y[i]
        invariant
            x@ == xs,
            y@ == ys,
            i <= xs.len(),
            i <= ys.len(),
            bytes_less(xs, ys) == bytes_less(xs.skip(i as int), ys.skip(i as int)),
        decreases xs.len() - i,
    {
        assert(xs.skip(i as int).drop_first() =~= xs.skip(i + 1));
        assert(ys.skip(i as int).drop_first() =~= ys.skip(i + 1));
        i += 1;
    }
    if i >= y.len() {
        false
    } else if i >= x.len() {
        true
    } else {
        x[i] < y[i]
    }
}

/// The UTF-8 bytes of a character sequence.
pub open spec fn bytes_of(s: Seq<char>) -> Seq<u8> {
    vstd::utf8::encode_utf8(s)
}

/// The closest allowed value, walking `allowed` from index `k` with the
/// current best index and distance.
pub open spec fn suggest_from(
    v: Seq<char>,
    allowed: Seq<&'static str>,
    k: int,
    best: Option<int>,
    best_dist: int,
) -> &'static str
    decreases allowed.len() - k,
{
    if k < 0 || k >= allowed.len() {
        match best {
            Some(i) => allowed[i],
            None => "",
        }
    } else {
        let n = trim_lower(allowed[k]@);
        if n.len() == 0 {
            suggest_from(v, allowed, k + 1, best, best_dist)
        } else {
            let d = edit_distance(bytes_of(v), bytes_of(n)) as int;
            if d <= best_dist && (best is None || d < best_dist || bytes_less(
                bytes_of(n),
                bytes_of(trim_lower(allowed[best->0]@)),
            )) {
                suggest_from(v, allowed, k + 1, Some(k), d)
            } else {
                suggest_from(v, allowed, k + 1, best, best_dist)
            }
        }
    }
}

/// The allowed value closest to `value` within the length-tiered ceiling;
/// on equal distance the one sorting first, and the first row on a full
/// tie. Empty when nothing is close enough.
pub open spec fn suggestion(value: Seq<char>, allowed: Seq<&'static str>) -> &'static str {
    let v = trim_lower(value);
    if v.len() == 0 || allowed.len() == 0 {
        ""
    } else {
        suggest_from(v, allowed, 0, None, max_distance_for(utf8_len(v)) as int)
    }
}

/// `trim` then `to_lowercase`, the normalization applied before every enum
/// comparison.
pub fn normalize_enum_value(value: &str) -> (r: String)
    ensures
        r@ == trim_lower(value@),
{
    to_lowercase(trim_str(value))
}

/// The allowed value closest to `value`, or `""`.
pub fn suggest_closest(value: &str, allowed: &[&'static str]) -> (r: &'static str)
    ensures
        r == suggestion(value@, allowed@),
{
    let v = normalize_enum_value(value);
    let vs = v.as_str();
    if vs.unicode_len() == 0 || allowed.len() == 0 {
        return "";
    }
    let mut best: Option<usize> = None;
    let mut best_dist: usize = max_suggestion_distance(vs);
    let mut k: usize = 0;
    while k < allowed.len()
        invariant
            vs@ == trim_lower(value@),
            k <= allowed@.len(),
            match best {
                Some(i) => i < k,
                None => true,
            },
            suggestion(value@, allowed@) == suggest_from(
                vs@,
                allowed@,
                k as int,
                match best {
                    Some(i) => Some(i as int),
                    None => None,
                },
                best_dist as int,
            ),
        decreases allowed@.len() - k,
    {
        let candidate = allowed[k];
        let normalized = normalize_enum_value(candidate);
        if normalized.unicode_len() > 0 {
            let dist = levenshtein_distance(vs, normalized.as_str());
            let better = match best {
                None => true,
                Some(i) => {
                    let incumbent = normalize_enum_value(allowed[i]);
                    dist < best_dist || str_less(normalized.as_str(), incumbent.as_str())
                },
            };
            if dist <= best_dist && better {
                best = Some(k);
                best_dist = dist;
            }
        }
        k += 1;
    }
    match best {
        Some(i) => allowed[i],
        None => "",
    }
}

/// The "did you mean" suffix for a rejected value, or empty.
pub open spec fn did_you_mean(value: Seq<char>, allowed: Seq<&'static str>) -> Seq<char> {
    let s = suggestion(value, allowed);
    if s@.len() == 0 {
        Seq::empty()
    } else {
        "; did you mean "@ + go_quoted(s@) + "?"@
    }
}

/// The "did you mean" suffix for a rejected value, or empty.
pub fn format_did_you_mean(value: &str, allowed: &[&'static str]) -> (r: String)
    ensures
        r@ == did_you_mean(value@, allowed@),
{
    let suggestion = suggest_closest(value, allowed);
    if suggestion.unicode_len() == 0 {
        return String::new();
    }
    let q = go_quote(suggestion);
    concat3("; did you mean ", q.as_str(), "?")
}

// ---------------------------------------------------------------------------
// Quoting
// ---------------------------------------------------------------------------

/// What `char::escape_debug` writes for a character.
pub uninterp spec fn char_escape_debug(c: char) -> Seq<char>;

/// Calls `char::escape_debug` and collects it. Its result is named
/// `char_escape_debug`; which characters it escapes is decided by the
/// standard library's Unicode tables and is not restated.
#[verifier::external_body]
fn escape_debug(c: char) -> (r: String)
    ensures
        r@ == char_escape_debug(c),
{
    c.escape_debug().to_string()
}

/// A hexadecimal digit.
pub open spec fn is_hex(c: char) -> bool {
    ('0' <= c && c <= '9') || ('a' <= c && c <= 'f') || ('A' <= c && c <= 'F')
}

/// The value of a hexadecimal digit.
pub open spec fn hex_val(c: char) -> nat {
    if '0' <= c && c <= '9' {
        ((c as u32) - 48) as nat
    } else if 'a' <= c && c <= 'f' {
        ((c as u32) - 87) as nat
    } else {
        ((c as u32) - 55) as nat
    }
}

/// The value of a run of hexadecimal digits.
pub open spec fn hex_number(s: Seq<char>) -> nat
    decreases s.len(),
{
    if s.len() == 0 {
        0
    } else {
        hex_number(s.drop_last()) * 16 + hex_val(s.last())
    }
}

/// The digits `u32::from_str_radix` reads: `s` without one leading `+`.
pub open spec fn hex_digits_of(s: Seq<char>) -> Seq<char> {
    if s.len() > 0 && s[0] == '+' {
        s.skip(1)
    } else {
        s
    }
}

/// Every character is a hexadecimal digit.
pub open spec fn all_hex(d: Seq<char>) -> bool {
    forall|i: int| 0 <= i < d.len() ==> is_hex(#[trigger] d[i])
}

/// `u32::from_str_radix(s, 16)`: an optional `+`, then at least one hex
/// digit, with a value that fits in a `u32`.
pub open spec fn parse_hex_u32(s: Seq<char>) -> Option<nat> {
    let digits = hex_digits_of(s);
    if digits.len() > 0 && all_hex(digits) && hex_number(digits) <= u32::MAX {
        Some(hex_number(digits))
    } else {
        None
    }
}

pub proof fn lemma_hex_number_monotone(s: Seq<char>, k: int)
    requires
        0 <= k <= s.len(),
    ensures
        hex_number(s.take(k)) <= hex_number(s),
    decreases s.len() - k,
{
    if k < s.len() {
        lemma_hex_number_monotone(s, k + 1);
        assert(s.take(k + 1).drop_last() =~= s.take(k));
    } else {
        assert(s.take(k) =~= s);
    }
}

/// Whether `hex` parses as a `u32` in base 16 to a value of at most 0xFFFF.
fn hex_fits_bmp(hex: &[char]) -> (r: bool)
    ensures
        r == match parse_hex_u32(hex@) {
            Some(v) => v <= 0xFFFF,
            None => false,
        },
{
    let ghost s = hex@;
    let start: usize = if hex.len() > 0 && hex[0] == '+' {
        1
    } else {
        0
    };
    let ghost digits = s.skip(start as int);
    assert(digits =~= hex_digits_of(s));
    if start >= hex.len() {
        return false;
    }
    let mut acc: u64 = 0;
    let mut i: usize = start;
    while i < hex.len()
        invariant
            hex@ == s,
            start <= i <= s.len(),
            digits == s.skip(start as int),
            digits == hex_digits_of(s),
            forall|t: int| 0 <= t < i - start ==> is_hex(#[trigger] digits[t]),
            acc as nat == hex_number(digits.take(i - start)),
            acc <= u32::MAX,
        decreases s.len() - i,
    {
        let c = hex[i];
        assert(digits[i - start] == s[i as int]);
        let d: u64 = if '0' <= c && c <= '9' {
            (c as u64) - 48
        } else if 'a' <= c && c <= 'f' {
            (c as u64) - 87
        } else if 'A' <= c && c <= 'F' {
            (c as u64) - 55
        } else {
            proof {
                assert(!is_hex(digits[i - start]));
                assert(!all_hex(digits));
                assert(parse_hex_u32(s) is None);
            }
            return false;
        };
        proof {
            assert(digits.take(i - start + 1).drop_last() =~= digits.take(i - start));
            assert(digits[i - start] == c);
            assert(d == hex_val(c));
        }
        let next = acc * 16 + d;
        if next > 0xFFFF_FFFF {
            proof {
                lemma_hex_number_monotone(digits, i - start + 1);
                assert(hex_number(digits) > u32::MAX);
                assert(parse_hex_u32(s) is None);
            }
            return false;
        }
        acc = next;
        i += 1;
    }
    assert(digits.take(s.len() - start) =~= digits);
    acc <= 0xFFFF
}

/// Escapes for the named control characters and the quoting characters.
pub open spec fn named_escape(c: char) -> Option<Seq<char>> {
    if c == '"' {
        Some(seq!['\\', '"'])
    } else if c == '\\' {
        Some(seq!['\\', '\\'])
    } else if c == '\'' {
        Some(seq!['\''])
    } else if c == '\u{7}' {
        Some(seq!['\\', 'a'])
    } else if c == '\u{8}' {
        Some(seq!['\\', 'b'])
    } else if c == '\u{c}' {
        Some(seq!['\\', 'f'])
    } else if c == '\n' {
        Some(seq!['\\', 'n'])
    } else if c == '\r' {
        Some(seq!['\\', 'r'])
    } else if c == '\t' {
        Some(seq!['\\', 't'])
    } else if c == '\u{b}' {
        Some(seq!['\\', 'v'])
    } else {
        None
    }
}

/// `n` zero characters.
pub open spec fn zeros(n: int) -> Seq<char> {
    Seq::new(if n > 0 {
        n as nat
    } else {
        0
    }, |_i: int| '0')
}

/// Reshapes a non-ASCII `escape_debug` spelling: `\u{XXXX}`
/// becomes `\uXXXX` (four hex digits) or `\UXXXXXXXX` (eight) above the
/// Basic Multilingual Plane; the character itself stays when it was not
/// escaped.
pub open spec fn reshaped_escape(c: char) -> Seq<char> {
    let e = char_escape_debug(c);
    if e == seq![c] {
        seq![c]
    } else if e.len() >= 4 && e[0] == '\\' && e[1] == 'u' && e[2] == '{' && e.last() == '}' {
        let hex = e.subrange(3, e.len() - 1);
        let fits = match parse_hex_u32(hex) {
            Some(v) => v <= 0xFFFF,
            None => false,
        };
        let width: int = if fits {
            4
        } else {
            8
        };
        (if width == 4 {
            seq!['\\', 'u']
        } else {
            seq!['\\', 'U']
        }) + zeros(width - utf8_len(hex)) + hex
    } else {
        e
    }
}

/// The quoted spelling of one character.
pub open spec fn quote_char(c: char) -> Seq<char> {
    match named_escape(c) {
        Some(e) => e,
        None => if (c as u32) < 0x20 || (c as u32) == 0x7f {
            seq!['\\', 'x', hex_digit((c as u32 / 16) as nat), hex_digit((c as u32 % 16) as nat)]
        } else {
            reshaped_escape(c)
        },
    }
}

/// The quoted body of a string, one character at a time.
pub open spec fn quote_body(s: Seq<char>) -> Seq<char>
    decreases s.len(),
{
    if s.len() == 0 {
        Seq::empty()
    } else {
        quote_body(s.drop_last()) + quote_char(s.last())
    }
}

/// The double-quoted spelling of a string: named escapes for quote,
/// backslash and the C control characters, `\xNN` for other ASCII control
/// characters, `\uXXXX` / `\UXXXXXXXX` for escaped non-ASCII ones.
pub open spec fn go_quoted(s: Seq<char>) -> Seq<char> {
    seq!['"'] + quote_body(s) + seq!['"']
}

/// Appends every character of `t`.
fn push_all(out: &mut String, t: &[char])
    ensures
        final(out)@ == old(out)@ + t@,
{
    let mut i: usize = 0;
    while i < t.len()
        invariant
            i <= t@.len(),
            out@ == old(out)@ + t@.take(i as int),
        decreases t@.len() - i,
    {
        push_char(out, t[i]);
        assert(t@.take(i + 1) =~= t@.take(i as int).push(t@[i as int]));
        i += 1;
    }
    assert(t@.take(t@.len() as int) =~= t@);
}

/// Appends the quoted spelling of a character that has no named escape.
fn push_reshaped(out: &mut String, ch: char)
    ensures
        final(out)@ == old(out)@ + reshaped_escape(ch),
{
    let escaped = escape_debug(ch);
    let e = chars_of(escaped.as_str());
    if e.len() == 1 && e[0] == ch {
        assert(e@ =~= seq![ch]);
        push_char(out, ch);
        return;
    }
    assert(e@ != seq![ch]);
    let n = e.len();
    if n >= 4 && e[0] == '\\' && e[1] == 'u' && e[2] == '{' && e[n - 1] == '}' {
        let mut hex: Vec<char> = Vec::new();
        let mut k: usize = 3;
        while k < n - 1
            invariant
                e@ == char_escape_debug(ch),
                n == e@.len(),
                n >= 4,
                3 <= k <= n - 1,
                hex@ == e@.subrange(3, k as int),
            decreases n - 1 - k,
        {
            hex.push(e[k]);
            assert(e@.subrange(3, k + 1) =~= e@.subrange(3, k as int).push(e@[k as int]));
            k += 1;
        }
        let width: usize = if hex_fits_bmp(hex.as_slice()) {
            4
        } else {
            8
        };
        if width == 4 {
            push_char(out, '\\');
            push_char(out, 'u');
        } else {
            push_char(out, '\\');
            push_char(out, 'U');
        }
        let hs = crate::text::string_of(hex.as_slice());
        let hlen = hs.as_str().as_bytes().len();
        let mut z: usize = hlen;
        let ghost before = out@;
        while z < width
            invariant
                hlen <= z,
                z == hlen || z <= width,
                out@ == before + zeros(z - hlen),
            decreases width - z,
        {
            push_char(out, '0');
            assert(zeros(z + 1 - hlen) =~= zeros(z - hlen).push('0'));
            z += 1;
        }
        assert(zeros(width - hlen) =~= zeros(z - hlen));
        push_all(out, hex.as_slice());
        assert((if width == 4 {
            seq!['\\', 'u']
        } else {
            seq!['\\', 'U']
        }) + zeros(width - utf8_len(hex@)) + hex@ == out@.subrange(old(out)@.len() as int, out@.len() as int));
        assert(out@ =~= old(out)@ + reshaped_escape(ch));
    } else {
        push_all(out, e.as_slice());
    }
}

/// Quotes a string the way the enum error text shows the offending value.
pub fn go_quote(s: &str) -> (r: String)
    ensures
        r@ == go_quoted(s@),
{
    let cs = chars_of(s);
    let mut out = String::new();
    push_char(&mut out, '"');
    let mut i: usize = 0;
    while i < cs.len()
        invariant
            cs@ == s@,
            i <= cs@.len(),
            out@ == seq!['"'] + quote_body(s@.take(i as int)),
        decreases cs@.len() - i,
    {
        let ch = cs[i];
        let ghost before = out@;
        if ch == '"' {
            push_char(&mut out, '\\');
            push_char(&mut out, '"');
        } else if ch == '\\' {
            push_char(&mut out, '\\');
            push_char(&mut out, '\\');
        } else if ch == '\'' {
            push_char(&mut out, '\'');
        } else if ch == '\u{7}' {
            push_char(&mut out, '\\');
            push_char(&mut out, 'a');
        } else if ch == '\u{8}' {
            push_char(&mut out, '\\');
            push_char(&mut out, 'b');
        } else if ch == '\u{c}' {
            push_char(&mut out, '\\');
            push_char(&mut out, 'f');
        } else if ch == '\n' {
            push_char(&mut out, '\\');
            push_char(&mut out, 'n');
        } else if ch == '\r' {
            push_char(&mut out, '\\');
            push_char(&mut out, 'r');
        } else if ch == '\t' {
            push_char(&mut out, '\\');
            push_char(&mut out, 't');
        } else if ch == '\u{b}' {
            push_char(&mut out, '\\');
            push_char(&mut out, 'v');
        } else if (ch as u32) < 0x20 || (ch as u32) == 0x7f {
            let code = ch as u32;
            push_char(&mut out, '\\');
            push_char(&mut out, 'x');
            push_char(&mut out, hex_digit_char(code / 16));
            push_char(&mut out, hex_digit_char(code % 16));
        } else {
            push_reshaped(&mut out, ch);
        }
        proof {
            assert(s@.take(i + 1).drop_last() =~= s@.take(i as int));
            assert(s@.take(i + 1).last() == ch);
            assert(out@ =~= before + quote_char(ch));
        }
        i += 1;
    }
    push_char(&mut out, '"');
    assert(s@.take(cs@.len() as int) =~= s@);
    out
}

// ---------------------------------------------------------------------------
// Validation
// ---------------------------------------------------------------------------

/// A rejected enum value with the parts of its error text.
#[derive(Debug, Clone, PartialEq, Eq)]
pub struct EnumFlagError {
    /// The flag name, without dashes.
    pub name: &'static str,
    /// The value exactly as supplied.
    pub value: String,
    /// The allowed values, in declaration order.
    pub allowed: &'static [&'static str],
    /// The "did you mean" suffix, or empty.
    pub did_you_mean: String,
}

/// The error text for a rejected enum value: no suggestion when the value is
/// blank after trimming and lowercasing.
pub open spec fn enum_error_text(
    name: Seq<char>,
    value: Seq<char>,
    allowed: Seq<Seq<char>>,
    suggestion: Seq<char>,
) -> Seq<char> {
    let base = "invalid --"@ + name + " "@ + go_quoted(value) + " (expected one of "@ + join(
        allowed,
        ", "@,
    ) + ")"@;
    if trim_lower(value).len() == 0 {
        base
    } else {
        base + suggestion
    }
}

impl EnumFlagError {
    /// The error text, byte for byte.
    pub fn message(&self) -> (r: String)
        ensures
            r@ == enum_error_text(self.name@, self.value@, str_views(self.allowed@), self.did_you_mean@),
    {
        let expected = join_strs(self.allowed, ", ");
        let q = go_quote(self.value.as_str());
        let mut out = owned("invalid --");
        append(&mut out, self.name);
        append(&mut out, " ");
        append(&mut out, q.as_str());
        append(&mut out, " (expected one of ");
        append(&mut out, expected.as_str());
        append(&mut out, ")");
        if !self.value_is_blank_after_normalizing() {
            append(&mut out, self.did_you_mean.as_str());
        }
        out
    }

    /// The value is empty after trimming and lowercasing.
    pub fn value_is_blank_after_normalizing(&self) -> (r: bool)
        ensures
            r == (trim_lower(self.value@).len() == 0),
    {
        let n = normalize_enum_value(self.value.as_str());
        n.as_str().unicode_len() == 0
    }
}

/// The character views of supplied `(flag, value)` pairs.
pub open spec fn pair_views(p: Seq<(&str, &str)>) -> Seq<(Seq<char>, Seq<char>)> {
    p.map_values(|x: (&str, &str)| (x.0@, x.1@))
}

/// The value of the last pair naming `name`.
pub open spec fn last_supplied(p: Seq<(Seq<char>, Seq<char>)>, name: Seq<char>) -> Option<Seq<char>>
    decreases p.len(),
{
    if p.len() == 0 {
        None
    } else if p.last().0 == name {
        Some(p.last().1)
    } else {
        last_supplied(p.drop_last(), name)
    }
}

/// The outcome of the enum checks from rule `k` on: the failing rule, the
/// offending value and its suggestion suffix, or `None`.
pub open spec fn enum_outcome_from(p: Seq<(Seq<char>, Seq<char>)>, k: int) -> Option<
    (int, Seq<char>, Seq<char>),
>
    decreases ENUM_RULE_COUNT - k,
{
    if k < 0 || k >= ENUM_RULE_COUNT {
        None
    } else {
        match last_supplied(p, enum_rule_name(k)@) {
            None => enum_outcome_from(p, k + 1),
            Some(v) => {
                let n = trim_lower(v);
                if n.len() == 0 {
                    Some((k, v, Seq::empty()))
                } else if !str_views(enum_rule_allowed(k)).contains(n) {
                    Some((k, v, did_you_mean(n, enum_rule_allowed(k))))
                } else {
                    enum_outcome_from(p, k + 1)
                }
            },
        }
    }
}

/// The last supplied value for `name`, scanning from the back.
fn last_value_for<'a>(supplied: &[(&'a str, &'a str)], name: &str) -> (r: Option<&'a str>)
    ensures
        match r {
            Some(v) => last_supplied(pair_views(supplied@), name@) == Some(v@),
            None => last_supplied(pair_views(supplied@), name@) is None,
        },
{
    let ghost p = pair_views(supplied@);
    let mut j: usize = supplied.len();
    assert(p.take(p.len() as int) =~= p);
    while j > 0
        invariant
            p == pair_views(supplied@),
            j <= supplied@.len(),
            last_supplied(p, name@) == last_supplied(p.take(j as int), name@),
        decreases j,
    {
        let ghost t = p.take(j as int);
        assert(t.drop_last() =~= p.take(j - 1));
        assert(t.last() == (supplied@[j - 1].0@, supplied@[j - 1].1@));
        let pair = supplied[j - 1];
        if str_eq(pair.0, name) {
            return Some(pair.1);
        }
        j -= 1;
    }
    None
}

/// Whether `value` is one of `allowed`.
fn allowed_contains(allowed: &[&'static str], value: &str) -> (r: bool)
    ensures
        r == str_views(allowed@).contains(value@),
{
    let ghost sv = str_views(allowed@);
    let mut k: usize = 0;
    while k < allowed.len()
        invariant
            sv == str_views(allowed@),
            k <= allowed@.len(),
            forall|t: int| 0 <= t < k ==> sv[t] != value@,
        decreases allowed@.len() - k,
    {
        if str_eq(allowed[k], value) {
            assert(sv[k as int] == value@);
            return true;
        }
        k += 1;
    }
    false
}

/// The first enum rule whose flag was supplied with a value outside its set.
/// Repeated flags use their last value; unsupplied flags are not checked.
pub fn validate_enum_flags(supplied: &[(&str, &str)]) -> (r: Option<EnumFlagError>)
    ensures
        match (r, enum_outcome_from(pair_views(supplied@), 0)) {
            (None, None) => true,
            (Some(e), Some(o)) => e.name == enum_rule_name(o.0) && e.allowed@ == enum_rule_allowed(
                o.0,
            ) && e.value@ == o.1 && e.did_you_mean@ == o.2,
            _ => false,
        },
{
    let ghost p = pair_views(supplied@);
    let mut k: usize = 0;
    while k < ENUM_RULE_COUNT
        invariant
            p == pair_views(supplied@),
            k <= ENUM_RULE_COUNT,
            enum_outcome_from(p, 0) == enum_outcome_from(p, k as int),
        decreases ENUM_RULE_COUNT - k,
    {
        let rule = enum_rule(k);
        match last_value_for(supplied, rule.name) {
            None => {},
            Some(value) => {
                let normalized = normalize_enum_value(value);
                if normalized.as_str().unicode_len() == 0 {
                    return Some(
                        EnumFlagError {
                            name: rule.name,
                            value: owned(value),
                            allowed: rule.allowed,
                            did_you_mean: String::new(),
                        },
                    );
                }
                if !allowed_contains(rule.allowed, normalized.as_str()) {
                    let dym = format_did_you_mean(normalized.as_str(), rule.allowed);
                    return Some(
                        EnumFlagError {
                            name: rule.name,
                            value: owned(value),
                            allowed: rule.allowed,
                            did_you_mean: dym,
                        },
                    );
                }
            },
        }
        k += 1;
    }
    None
}

} // verus!
