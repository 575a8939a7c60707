//! Character-level helpers shared by the argv rewriter, the validators and
//! the help renderer. Every helper is stated over the `Seq<char>` view of the
//! strings it reads and writes.

use vstd::prelude::*;
use vstd::string::*;

verus! {

/// The character views of a sequence of owned strings.
pub open spec fn views(v: Seq<String>) -> Seq<Seq<char>> {
    v.map_values(|s: String| s@)
}

/// The character views of a sequence of string slices.
pub open spec fn str_views(v: Seq<&str>) -> Seq<Seq<char>> {
    v.map_values(|s: &str| s@)
}

pub proof fn lemma_views_add(a: Seq<String>, b: Seq<String>)
    ensures
        views(a + b) == views(a) + views(b),
{
    assert(views(a + b) =~= views(a) + views(b));
}

pub proof fn lemma_views_push(a: Seq<String>, s: String)
    ensures
        views(a.push(s)) == views(a).push(s@),
{
    assert(views(a.push(s)) =~= views(a).push(s@));
}

pub proof fn lemma_views_skip(a: Seq<String>, n: int)
    requires
        0 <= n <= a.len(),
    ensures
        views(a.skip(n)) == views(a).skip(n),
{
    assert(views(a.skip(n)) =~= views(a).skip(n));
}

/// `p` is a prefix of `s`.
pub open spec fn has_prefix(s: Seq<char>, p: Seq<char>) -> bool {
    p.len() <= s.len() && s.subrange(0, p.len() as int) == p
}

/// The string starts with a dash.
pub open spec fn starts_with_dash(s: Seq<char>) -> bool {
    s.len() > 0 && s[0] == '-'
}

/// Index of the first occurrence of `c` in `s`, or `s.len()` when absent.
pub open spec fn index_of(s: Seq<char>, c: char) -> int
    decreases s.len(),
{
    if s.len() == 0 {
        0
    } else if s[0] == c {
        0
    } else {
        1 + index_of(s.drop_first(), c)
    }
}

pub proof fn lemma_index_of(s: Seq<char>, c: char)
    ensures
        0 <= index_of(s, c) <= s.len(),
        index_of(s, c) < s.len() ==> s[index_of(s, c)] == c,
        forall|j: int| 0 <= j < index_of(s, c) ==> s[j] != c,
    decreases s.len(),
{
    if s.len() > 0 && s[0] != c {
        lemma_index_of(s.drop_first(), c);
        assert forall|j: int| 0 <= j < index_of(s, c) implies s[j] != c by {
            if j > 0 {
                assert(s[j] == s.drop_first()[j - 1]);
            }
        }
    }
}

/// Unicode `White_Space`, the property `char::is_whitespace` tests.
pub open spec fn is_white_space(c: char) -> bool {
    ||| ('\t' <= c && c <= '\r')
    ||| c == ' '
    ||| c == '\u{85}'
    ||| c == '\u{a0}'
    ||| c == '\u{1680}'
    ||| ('\u{2000}' <= c && c <= '\u{200a}')
    ||| c == '\u{2028}'
    ||| c == '\u{2029}'
    ||| c == '\u{202f}'
    ||| c == '\u{205f}'
    ||| c == '\u{3000}'
}

/// Number of leading white-space characters.
pub open spec fn lead_ws(s: Seq<char>) -> int
    decreases s.len(),
{
    if s.len() > 0 && is_white_space(s[0]) {
        1 + lead_ws(s.drop_first())
    } else {
        0
    }
}

/// Number of trailing white-space characters.
pub open spec fn trail_ws(s: Seq<char>) -> int
    decreases s.len(),
{
    if s.len() > 0 && is_white_space(s.last()) {
        1 + trail_ws(s.drop_last())
    } else {
        0
    }
}

/// `s` without trailing white space (`str::trim_end`).
pub open spec fn trim_end(s: Seq<char>) -> Seq<char> {
    s.subrange(0, s.len() - trail_ws(s))
}

/// `s` without leading and trailing white space (`str::trim`).
pub open spec fn trim(s: Seq<char>) -> Seq<char> {
    trim_end(s.skip(lead_ws(s)))
}

/// A leading count of white space is the first non-white-space index.
pub proof fn lemma_lead_ws_unique(s: Seq<char>, k: int)
    requires
        0 <= k <= s.len(),
        forall|j: int| 0 <= j < k ==> is_white_space(s[j]),
        k < s.len() ==> !is_white_space(s[k]),
    ensures
        lead_ws(s) == k,
    decreases s.len(),
{
    if k > 0 {
        assert(is_white_space(s[0]));
        lemma_lead_ws_unique(s.drop_first(), k - 1);
    } else if s.len() > 0 {
        assert(!is_white_space(s[0]));
    }
}

pub proof fn lemma_trail_ws_unique(s: Seq<char>, k: int)
    requires
        0 <= k <= s.len(),
        forall|j: int| s.len() - k <= j < s.len() ==> is_white_space(s[j]),
        k < s.len() ==> !is_white_space(s[s.len() - k - 1]),
    ensures
        trail_ws(s) == k,
    decreases s.len(),
{
    if k > 0 {
        assert(is_white_space(s.last()));
        let t = s.drop_last();
        assert forall|j: int| t.len() - (k - 1) <= j < t.len() implies is_white_space(t[j]) by {
            assert(t[j] == s[j]);
        }
        if k - 1 < t.len() {
            assert(t[t.len() - (k - 1) - 1] == s[s.len() - k - 1]);
        }
        lemma_trail_ws_unique(t, k - 1);
    } else if s.len() > 0 {
        assert(!is_white_space(s.last()));
    }
}

/// ASCII-only lowercasing of one character (`char::to_ascii_lowercase`).
pub open spec fn ascii_lower_char(c: char) -> char {
    if 'A' <= c && c <= 'Z' {
        ((c as u32) + 32) as char
    } else {
        c
    }
}

/// ASCII-only lowercasing of a string (`str::to_ascii_lowercase`).
pub open spec fn ascii_lower(s: Seq<char>) -> Seq<char> {
    s.map_values(|c: char| ascii_lower_char(c))
}

/// Every character of `s` is ASCII.
pub open spec fn all_ascii(s: Seq<char>) -> bool {
    forall|i: int| 0 <= i < s.len() ==> (s[i] as u32) < 0x80
}

/// What `str::to_lowercase` returns for `s`: the Unicode lowercase mapping of
/// the whole string.
pub uninterp spec fn unicode_lowercase(s: Seq<char>) -> Seq<char>;

/// `str::trim(str::to_lowercase(s))`, the normalization applied to
/// subcommand words and format values.
pub open spec fn lower_trim(s: Seq<char>) -> Seq<char> {
    trim(unicode_lowercase(s))
}

/// `str::trim(s)` lowercased, the order used for enum values
/// (`to_lowercase` after `trim`).
pub open spec fn trim_lower(s: Seq<char>) -> Seq<char> {
    unicode_lowercase(trim(s))
}

/// Calls `str::to_lowercase`. Its result is named `unicode_lowercase`; on
/// an all-ASCII string it is the ASCII lowercasing (only `'A'..='Z'` change),
/// as the standard library documents for ASCII text. The Unicode mapping of
/// other characters (multi-character expansions, final sigma) is left unsaid.
#[verifier::external_body]
pub(crate) fn to_lowercase(s: &str) -> (r: String)
    ensures
        r@ == unicode_lowercase(s@),
        all_ascii(s@) ==> r@ == ascii_lower(s@),
{
    s.to_lowercase()
}

/// Appends one character (`String::push`).
#[verifier::external_body]
pub(crate) fn push_char(s: &mut String, c: char)
    ensures
        final(s)@ == old(s)@.push(c),
{
    s.push(c);
}

/// An owned copy of a string slice.
pub fn owned(s: &str) -> (r: String)
    ensures
        r@ == s@,
{
    String::from_str(s)
}

/// Appends `t` to `s`.
pub fn append(s: &mut String, t: &str)
    ensures
        final(s)@ == old(s)@ + t@,
{
    s.append(t);
}

/// `a` followed by `b`, as a new string.
pub fn concat2(a: &str, b: &str) -> (r: String)
    ensures
        r@ == a@ + b@,
{
    let mut r = String::from_str(a);
    r.append(b);
    r
}

/// `a`, `b` and `c` joined end to end.
pub fn concat3(a: &str, b: &str, c: &str) -> (r: String)
    ensures
        r@ == a@ + b@ + c@,
{
    let mut r = String::from_str(a);
    r.append(b);
    r.append(c);
    r
}

/// The characters of a string slice, in order.
pub fn chars_of(s: &str) -> (v: Vec<char>)
    ensures
        v@ == s@,
{
    let mut v: Vec<char> = Vec::new();
    for c in it: s.chars()
        invariant
            v@ == it.seq().take(it.index() as int),
    {
        v.push(c);
    }
    v
}

/// A string made of the given characters.
pub fn string_of(v: &[char]) -> (s: String)
    ensures
        s@ == v@,
{
    let mut s = String::new();
    let mut i: usize = 0;
    while i < v.len()
        invariant
            i <= v@.len(),
            s@ == v@.take(i as int),
        decreases v@.len() - i,
    {
        push_char(&mut s, v[i]);
        assert(v@.take(i + 1) =~= v@.take(i as int).push(v@[i as int]));
        i += 1;
    }
    assert(v@.take(v@.len() as int) =~= v@);
    s
}

/// Character-wise equality of two character slices.
pub fn chars_eq(x: &[char], y: &[char]) -> (r: bool)
    ensures
        r == (x@ == y@),
{
    if x.len() != y.len() {
        return false;
    }
    let mut i: usize = 0;
    while i < x.len()
        invariant
            x@.len() == y@.len(),
            i <= x@.len(),
            forall|j: int| 0 <= j < i ==> x@[j] == y@[j],
        decreases x@.len() - i,
    {
        if x[i] != y[i] {
            return false;
        }
        i += 1;
    }
    assert(x@ =~= y@);
    true
}

/// Character-wise equality of two string slices.
pub fn str_eq(a: &str, b: &str) -> (r: bool)
    ensures
        r == (a@ == b@),
{
    let x = chars_of(a);
    let y = chars_of(b);
    chars_eq(x.as_slice(), y.as_slice())
}

/// Whether `s` starts with `p`.
pub fn starts_with(s: &str, p: &str) -> (r: bool)
    ensures
        r == has_prefix(s@, p@),
{
    let x = chars_of(s);
    let y = chars_of(p);
    if y.len() > x.len() {
        return false;
    }
    let mut i: usize = 0;
    while i < y.len()
        invariant
            x@ == s@,
            y@ == p@,
            y@.len() <= x@.len(),
            i <= y@.len(),
            forall|j: int| 0 <= j < i ==> x@[j] == y@[j],
        decreases y@.len() - i,
    {
        if x[i] != y[i] {
            assert(s@.subrange(0, p@.len() as int)[i as int] != p@[i as int]);
            return false;
        }
        i += 1;
    }
    assert(s@.subrange(0, p@.len() as int) =~= p@);
    true
}

/// The part of `s` after the prefix `p`, when `s` starts with `p`
/// (`str::strip_prefix`).
pub fn strip_prefix<'a>(s: &'a str, p: &str) -> (r: Option<&'a str>)
    ensures
        has_prefix(s@, p@) ==> r is Some && r->0@ == s@.skip(p@.len() as int),
        !has_prefix(s@, p@) ==> r is None,
{
    if starts_with(s, p) {
        let n = s.unicode_len();
        let k = p.unicode_len();
        let t = s.substring_char(k, n);
        assert(t@ =~= s@.skip(p@.len() as int));
        Some(t)
    } else {
        None
    }
}

/// Whether the string starts with `-`.
pub fn is_dash_start(s: &str) -> (r: bool)
    ensures
        r == starts_with_dash(s@),
{
    let n = s.unicode_len();
    n > 0 && s.get_char(0) == '-'
}

/// Index of the first `c` in `s`, or the length of `s` when absent.
pub fn find_char(s: &str, c: char) -> (r: usize)
    ensures
        r == index_of(s@, c),
{
    proof {
        lemma_index_of(s@, c);
    }
    let x = chars_of(s);
    let mut i: usize = 0;
    while i < x.len()
        invariant
            x@ == s@,
            i <= x@.len(),
            forall|j: int| 0 <= j < i ==> x@[j] != c,
        decreases x@.len() - i,
    {
        if x[i] == c {
            proof {
                lemma_index_not_before(s@, c, i as int);
            }
            return i;
        }
        i += 1;
    }
    proof {
        lemma_index_not_before(s@, c, i as int);
    }
    i
}

/// `index_of` is the first position holding `c`.
pub proof fn lemma_index_not_before(s: Seq<char>, c: char, k: int)
    requires
        0 <= k <= s.len(),
        forall|j: int| 0 <= j < k ==> s[j] != c,
        k < s.len() ==> s[k] == c,
    ensures
        index_of(s, c) == k,
    decreases s.len(),
{
    if k > 0 {
        assert(s[0] != c);
        lemma_index_not_before(s.drop_first(), c, k - 1);
    }
}

/// `char::is_whitespace`.
pub fn is_whitespace(c: char) -> (r: bool)
    ensures
        r == is_white_space(c),
{
    ('\t' <= c && c <= '\r') || c == ' ' || c == '\u{85}' || c == '\u{a0}' || c == '\u{1680}'
        || ('\u{2000}' <= c && c <= '\u{200a}') || c == '\u{2028}' || c == '\u{2029}' || c
        == '\u{202f}' || c == '\u{205f}' || c == '\u{3000}'
}

/// `s` with leading and trailing white space removed (`str::trim`).
pub fn trim_str<'a>(s: &'a str) -> (r: &'a str)
    ensures
        r@ == trim(s@),
{
    let x = chars_of(s);
    let n = x.len();
    let mut a: usize = 0;
    while a < n && is_whitespace(x[a])
        invariant
            x@ == s@,
            n == x@.len(),
            a <= n,
            forall|j: int| 0 <= j < a ==> is_white_space(x@[j]),
        decreases n - a,
    {
        a += 1;
    }
    proof {
        lemma_lead_ws_unique(s@, a as int);
    }
    let mut b: usize = n;
    while b > a && is_whitespace(x[b - 1])
        invariant
            x@ == s@,
            n == x@.len(),
            a <= b <= n,
            forall|j: int| b <= j < n ==> is_white_space(x@[j]),
        decreases b - a,
    {
        b -= 1;
    }
    let ghost t = s@.skip(a as int);
    proof {
        assert forall|j: int| t.len() - (n - b) <= j < t.len() implies is_white_space(t[j]) by {
            assert(t[j] == s@[a + j]);
        }
        if n - b < t.len() {
            assert(t[t.len() - (n - b) - 1] == s@[b - 1]);
        }
        lemma_trail_ws_unique(t, (n - b) as int);
    }
    let r = s.substring_char(a, b);
    assert(r@ =~= trim(s@));
    r
}

/// `s` with trailing white space removed (`str::trim_end`).
pub fn trim_end_str<'a>(s: &'a str) -> (r: &'a str)
    ensures
        r@ == trim_end(s@),
{
    let x = chars_of(s);
    let n = x.len();
    let mut b: usize = n;
    while b > 0 && is_whitespace(x[b - 1])
        invariant
            x@ == s@,
            n == x@.len(),
            b <= n,
            forall|j: int| b <= j < n ==> is_white_space(x@[j]),
        decreases b,
    {
        b -= 1;
    }
    proof {
        lemma_trail_ws_unique(s@, (n - b) as int);
    }
    let r = s.substring_char(0, b);
    assert(r@ =~= trim_end(s@));
    r
}

/// `str::to_ascii_lowercase`.
pub fn to_ascii_lowercase(s: &str) -> (r: String)
    ensures
        r@ == ascii_lower(s@),
{
    let x = chars_of(s);
    let mut out = String::new();
    let mut i: usize = 0;
    while i < x.len()
        invariant
            x@ == s@,
            i <= x@.len(),
            out@ == ascii_lower(s@.take(i as int)),
        decreases x@.len() - i,
    {
        let c = x[i];
        let l = if 'A' <= c && c <= 'Z' {
            let code = (c as u32) + 32;
            assert(0x61 <= code <= 0x7a);
            char_of_ascii(code)
        } else {
            c
        };
        push_char(&mut out, l);
        assert(ascii_lower(s@.take(i + 1)) =~= ascii_lower(s@.take(i as int)).push(
            ascii_lower_char(c),
        ));
        i += 1;
    }
    assert(s@.take(x@.len() as int) =~= s@);
    out
}

/// The character with an ASCII code.
pub fn char_of_ascii(code: u32) -> (c: char)
    requires
        code < 0x80,
    ensures
        c == code as char,
{
    let b = code as u8;
    b as char
}

/// The pieces of `parts` joined with `sep` in between (`[T]::join`).
pub open spec fn join(parts: Seq<Seq<char>>, sep: Seq<char>) -> Seq<char>
    decreases parts.len(),
{
    if parts.len() == 0 {
        Seq::empty()
    } else if parts.len() == 1 {
        parts[0]
    } else {
        join(parts.drop_last(), sep) + sep + parts.last()
    }
}

/// Joins owned strings with a separator.
pub fn join_strings(parts: &[String], sep: &str) -> (r: String)
    ensures
        r@ == join(views(parts@), sep@),
{
    let mut r = String::new();
    let mut i: usize = 0;
    while i < parts.len()
        invariant
            i <= parts@.len(),
            r@ == join(views(parts@.take(i as int)), sep@),
        decreases parts@.len() - i,
    {
        let ghost prev = views(parts@.take(i as int));
        if i > 0 {
            r.append(sep);
        }
        r.append(parts[i].as_str());
        proof {
            let cur = views(parts@.take(i + 1));
            assert(cur.drop_last() =~= prev);
            assert(cur.last() == parts@[i as int]@);
            if i == 0 {
                assert(cur.len() == 1);
            }
        }
        i += 1;
    }
    assert(parts@.take(parts@.len() as int) =~= parts@);
    r
}

/// Joins string slices with a separator.
pub fn join_strs(parts: &[&str], sep: &str) -> (r: String)
    ensures
        r@ == join(str_views(parts@), sep@),
{
    let mut r = String::new();
    let mut i: usize = 0;
    while i < parts.len()
        invariant
            i <= parts@.len(),
            r@ == join(str_views(parts@.take(i as int)), sep@),
        decreases parts@.len() - i,
    {
        let ghost prev = str_views(parts@.take(i as int));
        if i > 0 {
            r.append(sep);
        }
        r.append(parts[i]);
        proof {
            let cur = str_views(parts@.take(i + 1));
            assert(cur.drop_last() =~= prev);
            assert(cur.last() == parts@[i as int]@);
            if i == 0 {
                assert(cur.len() == 1);
            }
        }
        i += 1;
    }
    assert(parts@.take(parts@.len() as int) =~= parts@);
    r
}

/// The decimal digits of a natural number.
pub open spec fn decimal(n: nat) -> Seq<char>
    decreases n,
{
    if n < 10 {
        seq![digit_char(n)]
    } else {
        decimal(n / 10).push(digit_char(n % 10))
    }
}

/// The ASCII digit for `d < 10`.
pub open spec fn digit_char(d: nat) -> char {
    ((d + 48) as u32) as char
}

/// Formats a `usize` in decimal (`usize::to_string`).
pub fn usize_to_decimal(n: usize) -> (r: String)
    ensures
        r@ == decimal(n as nat),
    decreases n,
{
    if n < 10 {
        let mut r = String::new();
        push_char(&mut r, char_of_ascii((n as u32) + 48));
        assert(r@ =~= decimal(n as nat));
        r
    } else {
        let mut r = usize_to_decimal(n / 10);
        push_char(&mut r, char_of_ascii(((n % 10) as u32) + 48));
        r
    }
}

/// The lowercase hexadecimal digit for `d < 16`.
pub open spec fn hex_digit(d: nat) -> char {
    if d < 10 {
        ((d + 48) as u32) as char
    } else {
        ((d + 87) as u32) as char
    }
}

/// The lowercase hexadecimal digit for `d < 16`.
pub fn hex_digit_char(d: u32) -> (c: char)
    requires
        d < 16,
    ensures
        c == hex_digit(d as nat),
{
    if d < 10 {
        char_of_ascii(d + 48)
    } else {
        char_of_ascii(d + 87)
    }
}

/// What `format!("{:?}", s)` writes for a string slice: Rust's `Debug`
/// quoting of the text.
pub uninterp spec fn debug_quoted(s: Seq<char>) -> Seq<char>;

/// Formats a string slice with `{:?}` (`<str as Debug>::fmt`). Its result is
/// named `debug_quoted`; which characters are escaped, and how, is left to
/// the standard library's `Debug` implementation and is not restated.
#[verifier::external_body]
pub(crate) fn debug_quote(s: &str) -> (r: String)
    ensures
        r@ == debug_quoted(s@),
{
    format!("{:?}", s)
}

/// Byte length of the UTF-8 encoding of `s` (`str::len`).
pub open spec fn utf8_len(s: Seq<char>) -> nat {
    vstd::utf8::encode_utf8(s).len()
}

pub proof fn lemma_scalar_len(c: char)
    ensures
        vstd::utf8::encode_scalar(c as u32).len() >= 1,
        (vstd::utf8::encode_scalar(c as u32).len() == 1) == ((c as u32) < 0x80),
{
}

/// A string is one UTF-8 byte long exactly when it is one ASCII character,
/// and never shorter in bytes than in characters.
pub proof fn lemma_utf8_len(s: Seq<char>)
    ensures
        utf8_len(s) >= s.len(),
        utf8_len(s) == 1 <==> (s.len() == 1 && (s[0] as u32) < 0x80),
    decreases s.len(),
{
    if s.len() > 0 {
        lemma_scalar_len(s[0]);
        lemma_utf8_len(s.drop_first());
    }
}

} // verus!
