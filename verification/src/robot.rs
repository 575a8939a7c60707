//! Small pieces of the robot command surface: output escaping, track labels,
//! the output-format switch, flag lookups on raw argv, the semantic-search
//! embedder settings and second-precision timestamps.

use vstd::prelude::*;
use vstd::string::*;
use crate::argv::{go_bool, go_parse_bool, go_string_flag_value, first_string_value};
use crate::text::{
    append, chars_of, char_of_ascii, debug_quote, debug_quoted, hex_digit, hex_digit_char, owned,
    push_char, views,
};

verus! {

broadcast use vstd::seq_lib::group_seq_properties;

// ---------------------------------------------------------------------------
// Escaping
// ---------------------------------------------------------------------------

/// What HTML escaping turns one character into.
pub open spec fn html_escape_char(c: char) -> Seq<char> {
    if c == '&' {
        "&amp;"@
    } else if c == '<' {
        "&lt;"@
    } else if c == '>' {
        "&gt;"@
    } else if c == '"' {
        "&quot;"@
    } else {
        seq![c]
    }
}

/// `s` with `&`, `<`, `>` and `"` replaced by their HTML entities.
pub open spec fn html_escaped(s: Seq<char>) -> Seq<char>
    decreases s.len(),
{
    if s.len() == 0 {
        Seq::empty()
    } else {
        html_escaped(s.drop_last()) + html_escape_char(s.last())
    }
}

/// Escapes the four HTML-special characters `&`, `<`, `>` and `"`.
pub fn html_escape(s: &str) -> (r: String)
    ensures
        r@ == html_escaped(s@),
{
    let cs = chars_of(s);
    let mut out = String::new();
    let mut k: usize = 0;
    while k < cs.len()
        invariant
            cs@ == s@,
            k <= cs@.len(),
            out@ == html_escaped(cs@.take(k as int)),
        decreases cs@.len() - k,
    {
        let c = cs[k];
        if c == '&' {
            append(&mut out, "&amp;");
        } else if c == '<' {
            append(&mut out, "&lt;");
        } else if c == '>' {
            append(&mut out, "&gt;");
        } else if c == '"' {
            append(&mut out, "&quot;");
        } else {
            push_char(&mut out, c);
        }
        proof {
            let t = cs@.take(k + 1);
            assert(t.drop_last() =~= cs@.take(k as int));
            assert(t.last() == c);
        }
        k += 1;
    }
    assert(cs@.take(cs@.len() as int) =~= s@);
    out
}

/// What the JSON string quoting writes for one character, with HTML-safe
/// escaping of `<`, `>` and `&`.
pub open spec fn go_escape_char(c: char) -> Seq<char> {
    if c == '"' {
        "\\\""@
    } else if c == '\\' {
        "\\\\"@
    } else if c == '\n' {
        "\\n"@
    } else if c == '\r' {
        "\\r"@
    } else if c == '\t' {
        "\\t"@
    } else if c == '<' {
        "\\u003c"@
    } else if c == '>' {
        "\\u003e"@
    } else if c == '&' {
        "\\u0026"@
    } else if (c as u32) < 0x20 {
        "\\u00"@ + seq![hex_digit((c as u32 / 16) as nat), hex_digit((c as u32 % 16) as nat)]
    } else {
        seq![c]
    }
}

/// The escaped characters of `s`, without the surrounding quotes.
pub open spec fn go_escaped_body(s: Seq<char>) -> Seq<char>
    decreases s.len(),
{
    if s.len() == 0 {
        Seq::empty()
    } else {
        go_escaped_body(s.drop_last()) + go_escape_char(s.last())
    }
}

/// `s` as a JSON string literal.
pub open spec fn go_escaped(s: Seq<char>) -> Seq<char> {
    "\""@ + go_escaped_body(s) + "\""@
}

/// Quotes a string as a JSON string literal with HTML-safe escaping: `<`, `>` and `&` become `\u003c`, `\u003e` and `\u0026`, other
/// control characters below 0x20 become `\u00XX`.
pub fn go_escape_string(s: &str) -> (r: String)
    ensures
        r@ == go_escaped(s@),
{
    let cs = chars_of(s);
    let mut out = owned("\"");
    let ghost open_quote = out@;
    let mut k: usize = 0;
    while k < cs.len()
        invariant
            cs@ == s@,
            k <= cs@.len(),
            open_quote == "\""@,
            out@ == open_quote + go_escaped_body(cs@.take(k as int)),
        decreases cs@.len() - k,
    {
        let c = cs[k];
        let code = c as u32;
        if c == '"' {
            append(&mut out, "\\\"");
        } else if c == '\\' {
            append(&mut out, "\\\\");
        } else if c == '\n' {
            append(&mut out, "\\n");
        } else if c == '\r' {
            append(&mut out, "\\r");
        } else if c == '\t' {
            append(&mut out, "\\t");
        } else if c == '<' {
            append(&mut out, "\\u003c");
        } else if c == '>' {
            append(&mut out, "\\u003e");
        } else if c == '&' {
            append(&mut out, "\\u0026");
        } else if code < 0x20 {
            append(&mut out, "\\u00");
            push_char(&mut out, hex_digit_char(code / 16));
            push_char(&mut out, hex_digit_char(code % 16));
        } else {
            push_char(&mut out, c);
        }
        proof {
            let t = cs@.take(k + 1);
            assert(t.drop_last() =~= cs@.take(k as int));
            assert(t.last() == c);
        }
        k += 1;
    }
    assert(cs@.take(cs@.len() as int) =~= s@);
    append(&mut out, "\"");
    out
}

// ---------------------------------------------------------------------------
// Track labels
// ---------------------------------------------------------------------------

/// The capital letter for `d < 26`.
pub open spec fn track_letter(d: nat) -> char {
    ((d + 65) as u32) as char
}

/// The label of track `n` (1-based): bijective base 26 over `A..Z`, so
/// `1 → A`, `26 → Z`, `27 → AA`; track 0 has the empty label.
pub open spec fn track_id(n: nat) -> Seq<char>
    decreases n,
{
    if n == 0 {
        Seq::empty()
    } else {
        track_id(((n - 1) / 26) as nat).push(track_letter(((n - 1) % 26) as nat))
    }
}

/// The label of 1-based track `n`: `A`, `B`, ..., `Z`, `AA`, `AB`, ...
pub fn go_track_id(n: usize) -> (r: String)
    ensures
        r@ == track_id(n as nat),
{
    let mut letters: Vec<char> = Vec::new();
    let mut m: usize = n;
    while m > 0
        invariant
            track_id(n as nat) == track_id(m as nat) + letters@,
        decreases m,
    {
        let d = (m - 1) % 26;
        let q = (m - 1) / 26;
        let letter = char_of_ascii((d as u32) + 65);
        let ghost before = letters@;
        letters.insert(0, letter);
        assert(letters@ =~= seq![letter] + before);
        assert(track_id(m as nat) == track_id(q as nat).push(letter));
        assert(track_id(q as nat).push(letter) + before =~= track_id(q as nat) + letters@);
        m = q;
    }
    assert(track_id(0) + letters@ =~= letters@);
    crate::text::string_of(letters.as_slice())
}

// ---------------------------------------------------------------------------
// Output format
// ---------------------------------------------------------------------------

/// The stored code for a `--format` value: 1 for `toon`, 0 for anything else.
pub open spec fn format_code(fmt: Seq<char>) -> u8 {
    if fmt == "toon"@ {
        1
    } else {
        0
    }
}

/// The format name a stored code stands for.
pub open spec fn format_name(code: u8) -> Seq<char> {
    if code == 1 {
        "toon"@
    } else {
        "json"@
    }
}

/// Records the output format requested for this invocation in `slot`.
pub fn set_output_format(slot: &mut u8, fmt: &str)
    ensures
        *final(slot) == format_code(fmt@),
{
    *slot = if crate::text::str_eq(fmt, "toon") {
        1
    } else {
        0
    };
}

/// The output format name recorded in `code`.
pub fn output_format(code: u8) -> (r: &'static str)
    ensures
        r@ == format_name(code),
{
    if code == 1 {
        "toon"
    } else {
        "json"
    }
}

/// Parses a boolean value: `1 t T TRUE true True` and `0 f F FALSE false
/// False`, nothing else.
pub fn parse_go_bool(value: &str) -> (r: Option<bool>)
    ensures
        r == go_bool(value@),
{
    go_parse_bool(value)
}

// ---------------------------------------------------------------------------
// Flag lookups on raw argv
// ---------------------------------------------------------------------------

/// Value of a `--name value` / `--name=value` flag, borrowed from `args`:
/// the first occurrence decides, and a trailing `--name` has no value.
pub fn flag_value<'a>(args: &'a [String], name: &str) -> (r: Option<&'a str>)
    ensures
        match r {
            Some(v) => first_string_value(views(args@), name@) == Some(v@),
            None => first_string_value(views(args@), name@) is None,
        },
{
    go_string_flag_value(args, name)
}

/// Value of a `--name value` / `--name=value` flag, as an owned string.
pub fn search_flag(args: &[String], name: &str) -> (r: Option<String>)
    ensures
        match r {
            Some(v) => first_string_value(views(args@), name@) == Some(v@),
            None => first_string_value(views(args@), name@) is None,
        },
{
    match go_string_flag_value(args, name) {
        Some(v) => Some(owned(v)),
        None => None,
    }
}

// ---------------------------------------------------------------------------
// Decimal integers
// ---------------------------------------------------------------------------

pub open spec fn is_digit(c: char) -> bool {
    '0' <= c && c <= '9'
}

pub open spec fn all_digits(s: Seq<char>) -> bool {
    forall|i: int| 0 <= i < s.len() ==> is_digit(#[trigger] s[i])
}

/// The value of a run of decimal digits.
pub open spec fn digits_value(s: Seq<char>) -> int
    decreases s.len(),
{
    if s.len() == 0 {
        0
    } else {
        digits_value(s.drop_last()) * 10 + ((s.last() as u32) - 48)
    }
}

/// What `str::parse::<i64>` accepts: an optional `+` or `-`, then at least one
/// ASCII digit, with the value inside the `i64` range.
pub open spec fn i64_value(s: Seq<char>) -> Option<int> {
    let neg = s.len() > 0 && s[0] == '-';
    let body = if s.len() > 0 && (s[0] == '-' || s[0] == '+') {
        s.skip(1)
    } else {
        s
    };
    if body.len() == 0 || !all_digits(body) {
        None
    } else {
        let v = if neg {
            -digits_value(body)
        } else {
            digits_value(body)
        };
        if i64::MIN <= v && v <= i64::MAX {
            Some(v)
        } else {
            None
        }
    }
}

/// Parses a decimal `i64` the way `str::parse::<i64>` does.
pub fn parse_i64(s: &str) -> (r: Option<i64>)
    ensures
        match r {
            Some(v) => i64_value(s@) == Some(v as int),
            None => i64_value(s@) is None,
        },
{
    let cs = chars_of(s);
    let n = cs.len();
    let neg = n > 0 && cs[0] == '-';
    let start: usize = if n > 0 && (cs[0] == '-' || cs[0] == '+') {
        1
    } else {
        0
    };
    let ghost body = if s@.len() > 0 && (s@[0] == '-' || s@[0] == '+') {
        s@.skip(1)
    } else {
        s@
    };
    assert(body =~= cs@.skip(start as int));
    if start >= n {
        assert(body.len() == 0);
        return None;
    }
    // The magnitude, capped just past the largest one an `i64` can hold.
    let cap: i128 = 0x8000_0000_0000_0001;
    let mut acc: i128 = 0;
    let mut k: usize = start;
    while k < n
        invariant
            n == cs@.len(),
            cs@ == s@,
            body == (if s@.len() > 0 && (s@[0] == '-' || s@[0] == '+') {
                s@.skip(1)
            } else {
                s@
            }),
            start <= k <= n,
            body == cs@.skip(start as int),
            0 <= acc <= cap,
            cap == 0x8000_0000_0000_0001,
            all_digits(body.take(k - start)),
            acc < cap ==> acc == digits_value(body.take(k - start)),
            acc == cap ==> digits_value(body.take(k - start)) >= cap,
        decreases n - k,
    {
        let c = cs[k];
        if !('0' <= c && c <= '9') {
            assert(body[k - start] == c);
            assert(!is_digit(body[k - start]));
            assert(!all_digits(body));
            return None;
        }
        let d = (c as u32) - 48;
        let ghost t = body.take(k + 1 - start);
        assert(t.drop_last() =~= body.take(k - start));
        assert(t.last() == c);
        if acc < cap {
            let next = acc * 10 + (d as i128);
            acc = if next > cap {
                cap
            } else {
                next
            };
        }
        k += 1;
    }
    assert(body.take(n - start) =~= body);
    if neg {
        if acc > 0x8000_0000_0000_0000 {
            None
        } else {
            Some((0 - acc) as i64)
        }
    } else {
        if acc > 0x7fff_ffff_ffff_ffff {
            None
        } else {
            Some(acc as i64)
        }
    }
}

// ---------------------------------------------------------------------------
// Semantic-search embedder settings
// ---------------------------------------------------------------------------

/// The embedding width used when none (or a non-positive one) is configured.
pub const DEFAULT_EMBEDDING_DIM: usize = 384;

/// The embedder settings read from `BV_SEMANTIC_EMBEDDER`, `BV_SEMANTIC_MODEL`
/// and `BV_SEMANTIC_DIM`.
pub struct SearchEmbedderConfig {
    pub provider: String,
    pub model: String,
    pub dim: usize,
}

/// The embedding width a raw `BV_SEMANTIC_DIM` value selects: its value when
/// it parses to a positive integer, else the default.
pub open spec fn configured_dim(raw: Option<Seq<char>>) -> usize {
    match raw {
        Some(t) => match i64_value(t) {
            Some(v) => if v > 0 {
                v as usize
            } else {
                DEFAULT_EMBEDDING_DIM
            },
            None => DEFAULT_EMBEDDING_DIM,
        },
        None => DEFAULT_EMBEDDING_DIM,
    }
}

/// The provider a raw `BV_SEMANTIC_EMBEDDER` value selects: trimmed and
/// lowercased, `hash` when that leaves nothing.
pub open spec fn configured_provider(raw: Seq<char>) -> Seq<char> {
    let p = crate::text::trim_lower(raw);
    if p.len() == 0 {
        "hash"@
    } else {
        p
    }
}

/// Normalizes the raw embedder settings: the provider is trimmed and
/// lowercased (`hash` when empty), the model trimmed, and a missing,
/// unparseable or non-positive width replaced by the default. The width is
/// parsed as given, without trimming.
pub fn search_embedder_config(provider: &str, model: &str, dim: Option<&str>) -> (r:
    SearchEmbedderConfig)
    ensures
        r.provider@ == configured_provider(provider@),
        r.model@ == crate::text::trim(model@),
        r.dim == configured_dim(
            match dim {
                Some(t) => Some(t@),
                None => None,
            },
        ),
{
    let lowered = crate::text::to_lowercase(crate::text::trim_str(provider));
    let p = if lowered.unicode_len() == 0 {
        owned("hash")
    } else {
        lowered
    };
    let d: usize = match dim {
        Some(t) => match parse_i64(t) {
            Some(v) => if v > 0 {
                v as usize
            } else {
                DEFAULT_EMBEDDING_DIM
            },
            None => DEFAULT_EMBEDDING_DIM,
        },
        None => DEFAULT_EMBEDDING_DIM,
    };
    SearchEmbedderConfig { provider: p, model: owned(crate::text::trim_str(model)), dim: d }
}

/// The embedding width the configured provider yields, or why it cannot be
/// used: only the hash embedder exists; the two placeholder providers and any
/// unknown name are errors.
pub open spec fn embedder_dim(provider: Seq<char>, dim: usize) -> Result<usize, Seq<char>> {
    if provider == ""@ || provider == "hash"@ {
        Ok(dim)
    } else if provider == "python-sentence-transformers"@ {
        Err(
            "semantic embedder "@ + debug_quoted(provider)
                + " not implemented (mvp placeholder); set BV_SEMANTIC_EMBEDDER=\"hash\" for deterministic fallback"@,
        )
    } else if provider == "openai"@ {
        Err(
            "semantic embedder "@ + debug_quoted(provider)
                + " not implemented (placeholder); set BV_SEMANTIC_EMBEDDER=\"hash\" for deterministic fallback"@,
        )
    } else {
        Err("unknown semantic embedder "@ + debug_quoted(provider) + "; expected \"hash\""@)
    }
}

/// The embedding width of the configured embedder, or the error that names
/// why the provider cannot be used.
pub fn search_embedder_dim(cfg: &SearchEmbedderConfig) -> (r: Result<usize, String>)
    ensures
        match r {
            Ok(d) => embedder_dim(cfg.provider@, cfg.dim) == Ok::<usize, Seq<char>>(d),
            Err(e) => embedder_dim(cfg.provider@, cfg.dim) == Err::<usize, Seq<char>>(e@),
        },
{
    let p = cfg.provider.as_str();
    if crate::text::str_eq(p, "") || crate::text::str_eq(p, "hash") {
        Ok(cfg.dim)
    } else if crate::text::str_eq(p, "python-sentence-transformers") {
        let mut m = owned("semantic embedder ");
        append(&mut m, debug_quote(p).as_str());
        append(
            &mut m,
            " not implemented (mvp placeholder); set BV_SEMANTIC_EMBEDDER=\"hash\" for deterministic fallback",
        );
        Err(m)
    } else if crate::text::str_eq(p, "openai") {
        let mut m = owned("semantic embedder ");
        append(&mut m, debug_quote(p).as_str());
        append(
            &mut m,
            " not implemented (placeholder); set BV_SEMANTIC_EMBEDDER=\"hash\" for deterministic fallback",
        );
        Err(m)
    } else {
        let mut m = owned("unknown semantic embedder ");
        append(&mut m, debug_quote(p).as_str());
        append(&mut m, "; expected \"hash\"");
        Err(m)
    }
}

/// The error text for a `--search-min-score` value that is not a finite
/// number from -1 to 1.
pub open spec fn min_score_error(raw: Seq<char>) -> Seq<char> {
    "invalid --search-min-score "@ + debug_quoted(raw)
        + " (expected a finite number from -1 to 1)"@
}

/// The error text for a rejected `--search-min-score` value.
pub fn search_min_score_error(raw: &str) -> (r: String)
    ensures
        r@ == min_score_error(raw@),
{
    let mut m = owned("invalid --search-min-score ");
    append(&mut m, debug_quote(raw).as_str());
    append(&mut m, " (expected a finite number from -1 to 1)");
    m
}

/// A search-configuration failure and the exit code it is reported with:
/// 1 for a configuration error, 2 for a usage error.
pub struct SearchConfigError {
    pub message: String,
    pub exit_code: u8,
}

impl SearchConfigError {
    /// A configuration error (exit 1).
    pub fn go(message: String) -> (r: SearchConfigError)
        ensures
            r.message@ == message@,
            r.exit_code == 1,
    {
        SearchConfigError { message, exit_code: 1 }
    }

    /// A usage error (exit 2).
    pub fn usage(message: String) -> (r: SearchConfigError)
        ensures
            r.message@ == message@,
            r.exit_code == 2,
    {
        SearchConfigError { message, exit_code: 2 }
    }
}

// ---------------------------------------------------------------------------
// Timestamps
// ---------------------------------------------------------------------------

/// What jiff's `Timestamp::new(second, nanosecond)` followed by its
/// `Display` writes (RFC 3339 in UTC), or `None` where `Timestamp::new`
/// refuses the pair as out of range.
pub uninterp spec fn timestamp_text(second: i64, nanosecond: i32) -> Option<Seq<char>>;

/// Builds a `jiff::Timestamp` from seconds and nanoseconds since the Unix
/// epoch and renders it with its `Display` impl. The result is named
/// `timestamp_text`: the same pair always renders the same way. The range
/// `Timestamp::new` accepts and the exact layout of the text are left to
/// jiff and not restated.
#[verifier::external_body]
fn format_timestamp(second: i64, nanosecond: i32) -> (r: Option<String>)
    ensures
        match r {
            Some(t) => timestamp_text(second, nanosecond) == Some(t@),
            None => timestamp_text(second, nanosecond) is None,
        },
{
    match jiff::Timestamp::new(second, nanosecond) {
        Ok(ts) => Some(ts.to_string()),
        Err(_) => None,
    }
}

/// An RFC 3339 text cut to second precision: everything from the first `.`
/// on is replaced by `Z`; a text without `.` is kept as it is.
pub open spec fn to_seconds(text: Seq<char>) -> Seq<char> {
    let dot = crate::text::index_of(text, '.');
    if dot < text.len() {
        text.take(dot) + "Z"@
    } else {
        text
    }
}

/// Cuts an RFC 3339 timestamp to second precision
/// (`2026-08-22T14:07:01.790741Z` becomes `2026-08-22T14:07:01Z`).
pub fn second_precision(text: &str) -> (r: String)
    ensures
        r@ == to_seconds(text@),
{
    let dot = crate::text::find_char(text, '.');
    let n = text.unicode_len();
    if dot < n {
        let mut r = owned(text.substring_char(0, dot));
        append(&mut r, "Z");
        r
    } else {
        owned(text)
    }
}

/// The robot `generated_at` text for an instant given as seconds and
/// nanoseconds since the Unix epoch: jiff's RFC 3339 rendering cut to
/// second precision, or `None` when jiff refuses the instant.
pub fn jiff_now(second: i64, nanosecond: i32) -> (r: Option<String>)
    ensures
        match r {
            Some(t) => exists|full: Seq<char>|
                timestamp_text(second, nanosecond) == Some(full) && t@ == to_seconds(full),
            None => timestamp_text(second, nanosecond) is None,
        },
{
    match format_timestamp(second, nanosecond) {
        Some(full) => Some(second_precision(full.as_str())),
        None => None,
    }
}

/// Number of trailing `c` characters of `s`.
pub open spec fn trailing_count(s: Seq<char>, c: char) -> nat
    decreases s.len(),
{
    if s.len() > 0 && s.last() == c {
        1 + trailing_count(s.drop_last(), c)
    } else {
        0
    }
}

/// An RFC 3339 text with its fractional seconds cut to the shortest exact
/// form: trailing zeros of the fraction are dropped, and a fraction of only
/// zeros is dropped with its `.`; a text without `.` is kept as it is.
pub open spec fn shortest_fraction(text: Seq<char>) -> Seq<char> {
    let dot = crate::text::index_of(text, '.');
    if dot >= text.len() {
        text
    } else {
        let rest = text.skip(dot + 1);
        let digits = if rest.len() > 0 && rest.last() == 'Z' {
            rest.drop_last()
        } else {
            rest
        };
        let kept = digits.take(digits.len() - trailing_count(digits, '0'));
        if kept.len() == 0 {
            text.take(dot) + "Z"@
        } else {
            text.take(dot) + "."@ + kept + "Z"@
        }
    }
}

/// The start of the run of trailing `'0'` characters in `cs[start..end]`.
fn zero_run_start(cs: &[char], start: usize, end: usize) -> (keep: usize)
    requires
        start <= end <= cs@.len(),
    ensures
        start <= keep <= end,
        keep == end - trailing_count(cs@.subrange(start as int, end as int), '0'),
{
    let mut keep: usize = end;
    while keep > start && cs[keep - 1] == '0'
        invariant
            start <= keep <= end <= cs@.len(),
            trailing_count(cs@.subrange(start as int, end as int), '0') == (end - keep)
                + trailing_count(cs@.subrange(start as int, keep as int), '0'),
        decreases keep,
    {
        let ghost t = cs@.subrange(start as int, keep as int);
        assert(t.drop_last() =~= cs@.subrange(start as int, keep - 1));
        keep -= 1;
    }
    proof {
        let t = cs@.subrange(start as int, keep as int);
        assert(keep == start ==> t.len() == 0);
        assert(keep > start ==> t.last() != '0');
    }
    keep
}

/// Appends `cs[from..to]` to `r`.
fn push_range(r: &mut String, cs: &[char], from: usize, to: usize)
    requires
        from <= to <= cs@.len(),
    ensures
        final(r)@ == old(r)@ + cs@.subrange(from as int, to as int),
{
    let mut k: usize = from;
    while k < to
        invariant
            from <= k <= to <= cs@.len(),
            r@ == old(r)@ + cs@.subrange(from as int, k as int),
        decreases to - k,
    {
        push_char(r, cs[k]);
        assert(cs@.subrange(from as int, k + 1) =~= cs@.subrange(from as int, k as int).push(
            cs@[k as int],
        ));
        k += 1;
    }
}

/// Cuts the fractional seconds of an RFC 3339 text to their shortest exact
/// form (`...:01.500000000Z` becomes `...:01.5Z`, `...:01.000Z` becomes
/// `...:01Z`).
pub fn trim_fraction(text: &str) -> (r: String)
    ensures
        r@ == shortest_fraction(text@),
{
    let cs = chars_of(text);
    let dot = crate::text::find_char(text, '.');
    proof {
        crate::text::lemma_index_of(text@, '.');
    }
    if dot >= cs.len() {
        return owned(text);
    }
    let n = cs.len();
    let end: usize = if n > dot + 1 && cs[n - 1] == 'Z' {
        n - 1
    } else {
        n
    };
    let keep = zero_run_start(cs.as_slice(), dot + 1, end);
    let mut r = owned(text.substring_char(0, dot));
    if keep > dot + 1 {
        push_char(&mut r, '.');
        push_range(&mut r, cs.as_slice(), dot + 1, keep);
    }
    push_char(&mut r, 'Z');
    proof {
        reveal_strlit(".");
        reveal_strlit("Z");
        let rest = text@.skip(dot + 1);
        let digits = cs@.subrange(dot + 1, end as int);
        assert(digits =~= (if rest.len() > 0 && rest.last() == 'Z' {
            rest.drop_last()
        } else {
            rest
        }));
        assert(digits.take(digits.len() - trailing_count(digits, '0')) =~= cs@.subrange(
            dot + 1,
            keep as int,
        ));
    }
    r
}

/// Renders an instant given as seconds and nanoseconds since the Unix epoch
/// as RFC 3339 with the shortest exact fraction, or `None` when jiff refuses
/// the instant.
pub fn search_go_rfc3339_nano(second: i64, nanosecond: i32) -> (r: Option<String>)
    ensures
        match r {
            Some(t) => exists|full: Seq<char>|
                timestamp_text(second, nanosecond) == Some(full) && t@ == shortest_fraction(full),
            None => timestamp_text(second, nanosecond) is None,
        },
{
    match format_timestamp(second, nanosecond) {
        Some(full) => Some(trim_fraction(full.as_str())),
        None => None,
    }
}

/// The error for a `--search` query that is missing or blank after
/// trimming; `None` when the query may run.
pub fn search_query_error(q: Option<&str>) -> (r: Option<String>)
    ensures
        match r {
            Some(e) => e@ == "--search requires a non-empty query"@ && match q {
                Some(v) => crate::text::trim(v@).len() == 0,
                None => true,
            },
            None => match q {
                Some(v) => crate::text::trim(v@).len() > 0,
                None => false,
            },
        },
{
    let blank = match q {
        Some(v) => crate::text::trim_str(v).unicode_len() == 0,
        None => true,
    };
    if blank {
        Some(crate::text::owned("--search requires a non-empty query"))
    } else {
        None
    }
}

} // verus!
