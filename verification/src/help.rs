//! The root `--help` page: per-section two-column flag listings whose
//! description column is wrapped to the terminal budget.
//!
//! Positions in the wrapping rules are byte offsets of the UTF-8 text; the
//! separators searched for (space, tab, newline) are single-byte characters,
//! so every cut falls between characters.

use vstd::prelude::*;
use vstd::string::*;
use crate::registry::{
    HELP_COLS, HelpFlag, help_flags, help_sections, spec_help_flags, spec_help_sections,
};
use crate::text::{append, chars_of, owned, push_char, str_eq, string_of, utf8_len};

verus! {

broadcast use vstd::seq_lib::group_seq_properties;

// ---------------------------------------------------------------------------
// Byte lengths
// ---------------------------------------------------------------------------

/// The UTF-8 width of one character.
pub open spec fn char_width(c: char) -> nat {
    vstd::utf8::encode_scalar(c as u32).len()
}

pub proof fn lemma_char_width(c: char)
    ensures
        char_width(c) == (if (c as u32) < 0x80 {
            1nat
        } else if (c as u32) < 0x800 {
            2nat
        } else if (c as u32) < 0x10000 {
            3nat
        } else {
            4nat
        }),
{
}

pub proof fn lemma_utf8_concat(a: Seq<char>, b: Seq<char>)
    ensures
        utf8_len(a + b) == utf8_len(a) + utf8_len(b),
    decreases a.len(),
{
    if a.len() > 0 {
        assert((a + b).drop_first() =~= a.drop_first() + b);
        lemma_utf8_concat(a.drop_first(), b);
    } else {
        assert(a + b =~= b);
    }
}

pub proof fn lemma_utf8_push(a: Seq<char>, c: char)
    ensures
        utf8_len(a.push(c)) == utf8_len(a) + char_width(c),
{
    assert(a.push(c) =~= a + seq![c]);
    lemma_utf8_concat(a, seq![c]);
    assert(seq![c].drop_first() =~= Seq::<char>::empty());
    assert(vstd::utf8::encode_utf8(Seq::<char>::empty()) =~= Seq::<u8>::empty());
    assert(vstd::utf8::encode_utf8(seq![c]) =~= vstd::utf8::encode_scalar(c as u32)
        + vstd::utf8::encode_utf8(Seq::<char>::empty()));
}

/// The UTF-8 width of one character.
fn width_of(c: char) -> (w: u128)
    ensures
        w == char_width(c),
{
    proof {
        lemma_char_width(c);
    }
    let v = c as u32;
    if v < 0x80 {
        1
    } else if v < 0x800 {
        2
    } else if v < 0x10000 {
        3
    } else {
        4
    }
}

/// The UTF-8 byte length of a character slice.
fn byte_len(s: &[char]) -> (n: u128)
    ensures
        n == utf8_len(s@),
        n <= 4 * s@.len(),
{
    let mut n: u128 = 0;
    let mut k: usize = 0;
    while k < s.len()
        invariant
            k <= s@.len(),
            n == utf8_len(s@.take(k as int)),
            n <= 4 * k,
        decreases s@.len() - k,
    {
        proof {
            assert(s@.take(k + 1) =~= s@.take(k as int).push(s@[k as int]));
            lemma_utf8_push(s@.take(k as int), s@[k as int]);
            lemma_char_width(s@[k as int]);
        }
        n = n + width_of(s[k]);
        k += 1;
    }
    assert(s@.take(s@.len() as int) =~= s@);
    n
}

// ---------------------------------------------------------------------------
// Wrapping
// ---------------------------------------------------------------------------

/// Column arithmetic stays far below this bound, so it is exact in `i128`.
pub const WRAP_BOUND: u128 = 0x1000_0000_0000_0000_0000_0000_0000;

/// Number of leading characters of `s` that start before byte offset `i`.
pub open spec fn head_len(s: Seq<char>, i: int) -> int
    decreases s.len(),
{
    if s.len() == 0 || i <= 0 {
        0
    } else {
        1 + head_len(s.drop_first(), i - char_width(s[0]))
    }
}

pub proof fn lemma_head_len(s: Seq<char>, i: int)
    ensures
        0 <= head_len(s, i) <= s.len(),
    decreases s.len(),
{
    if s.len() > 0 && i > 0 {
        lemma_head_len(s.drop_first(), i - char_width(s[0]));
    }
}

/// Index of the last `c` in `s`, or -1.
pub open spec fn last_of(s: Seq<char>, c: char) -> int
    decreases s.len(),
{
    if s.len() == 0 {
        -1
    } else if s.last() == c {
        s.len() - 1
    } else {
        last_of(s.drop_last(), c)
    }
}

pub proof fn lemma_last_of(s: Seq<char>, c: char)
    ensures
        -1 <= last_of(s, c) < s.len(),
        last_of(s, c) >= 0 ==> s[last_of(s, c)] == c,
    decreases s.len(),
{
    if s.len() > 0 && s.last() != c {
        lemma_last_of(s.drop_last(), c);
    }
}

pub open spec fn max_int(a: int, b: int) -> int {
    if a >= b {
        a
    } else {
        b
    }
}

/// Split `s` at the last space, tab or newline within the
/// first `i` bytes, preferring an earlier newline; keep `s` whole when it
/// fits in `i + slop` bytes or offers no break point past its start.
pub open spec fn wrap_split(i: int, slop: int, s: Seq<char>) -> (Seq<char>, Seq<char>) {
    if i + slop > utf8_len(s) {
        (s, Seq::empty())
    } else {
        let h = s.take(head_len(s, i));
        let w = max_int(max_int(last_of(h, ' '), last_of(h, '\t')), last_of(h, '\n'));
        if w <= 0 {
            (s, Seq::empty())
        } else {
            let nl = last_of(h, '\n');
            if nl > 0 && nl < w {
                (s.take(nl), s.skip(nl + 1))
            } else {
                (s.take(w), s.skip(w + 1))
            }
        }
    }
}

pub proof fn lemma_wrap_split(i: int, slop: int, s: Seq<char>)
    ensures
        wrap_split(i, slop, s).1.len() < s.len() || wrap_split(i, slop, s).1.len() == 0,
{
    if i + slop <= utf8_len(s) {
        lemma_head_len(s, i);
        let h = s.take(head_len(s, i));
        lemma_last_of(h, ' ');
        lemma_last_of(h, '\t');
        lemma_last_of(h, '\n');
    }
}

/// `n` spaces.
pub open spec fn spaces(n: int) -> Seq<char> {
    Seq::new(if n > 0 {
        n as nat
    } else {
        0
    }, |_i: int| ' ')
}

/// `s` with every newline replaced by `r`.
pub open spec fn replace_nl(s: Seq<char>, r: Seq<char>) -> Seq<char>
    decreases s.len(),
{
    if s.len() == 0 {
        Seq::empty()
    } else {
        replace_nl(s.drop_last(), r) + if s.last() == '\n' {
            r
        } else {
            seq![s.last()]
        }
    }
}

/// The continuation lines of a wrapped text.
pub open spec fn wrap_rest(width: int, rest: Seq<char>, pad: Seq<char>) -> Seq<char>
    decreases rest.len(),
{
    if rest.len() == 0 {
        Seq::empty()
    } else {
        proof {
            lemma_wrap_split(width, 5, rest);
        }
        let p = wrap_split(width, 5, rest);
        "\n"@ + pad + replace_nl(p.0, "\n"@ + pad) + wrap_rest(width, p.1, pad)
    }
}

/// Lay `s` out in `cols` columns with continuation lines
/// indented by `indent`; when fewer than 24 columns would remain, start on a
/// new line indented by 16 instead, and give up wrapping when even that
/// leaves fewer than 24.
pub open spec fn wrapped(indent: int, cols: int, s: Seq<char>) -> Seq<char> {
    let pad = spaces(indent);
    if cols == 0 {
        replace_nl(s, "\n"@ + pad)
    } else {
        let narrow = cols - indent < 24;
        let width0 = if narrow {
            cols - 16
        } else {
            cols - indent
        };
        let r0 = if narrow {
            "\n"@ + spaces(16)
        } else {
            Seq::empty()
        };
        if width0 < 24 {
            replace_nl(s, r0)
        } else {
            let width = width0 - 5;
            let p = wrap_split(width, 5, s);
            r0 + replace_nl(p.0, "\n"@ + pad) + wrap_rest(width, p.1, pad)
        }
    }
}

/// Number of leading characters that start before byte `i`.
fn head_count(s: &[char], i: u128) -> (k: usize)
    ensures
        k == head_len(s@, i as int),
{
    let mut k: usize = 0;
    let mut off: u128 = 0;
    assert(s@.skip(0) =~= s@);
    while k < s.len() && off < i
        invariant
            k <= s@.len(),
            off <= i + 4,
            off <= 4 * k,
            head_len(s@, i as int) == k + head_len(s@.skip(k as int), i - off),
        decreases s@.len() - k,
    {
        proof {
            lemma_char_width(s@[k as int]);
            assert(s@.skip(k as int).drop_first() =~= s@.skip(k + 1));
            assert(s@.skip(k as int)[0] == s@[k as int]);
        }
        off = off + width_of(s[k]);
        k += 1;
    }
    k
}

/// Index of the last `c` in `s`, or -1.
fn last_index(s: &[char], c: char) -> (r: i128)
    ensures
        r == last_of(s@, c),
{
    let mut k: usize = s.len();
    assert(s@.take(s@.len() as int) =~= s@);
    while k > 0
        invariant
            k <= s@.len(),
            last_of(s@, c) == last_of(s@.take(k as int), c),
        decreases k,
    {
        let ghost t = s@.take(k as int);
        assert(t.drop_last() =~= s@.take(k - 1));
        if s[k - 1] == c {
            return (k - 1) as i128;
        }
        k -= 1;
    }
    -1
}

/// The first `n` characters.
fn prefix_chars(s: &[char], n: usize) -> (r: Vec<char>)
    requires
        n <= s@.len(),
    ensures
        r@ == s@.take(n as int),
{
    let mut r: Vec<char> = Vec::new();
    let mut k: usize = 0;
    while k < n
        invariant
            n <= s@.len(),
            k <= n,
            r@ == s@.take(k as int),
        decreases n - k,
    {
        r.push(s[k]);
        assert(s@.take(k + 1) =~= s@.take(k as int).push(s@[k as int]));
        k += 1;
    }
    r
}

/// The characters from index `n` on.
fn suffix_chars(s: &[char], n: usize) -> (r: Vec<char>)
    requires
        n <= s@.len(),
    ensures
        r@ == s@.skip(n as int),
{
    let mut r: Vec<char> = Vec::new();
    let mut k: usize = n;
    while k < s.len()
        invariant
            n <= k <= s@.len(),
            r@ == s@.subrange(n as int, k as int),
        decreases s@.len() - k,
    {
        r.push(s[k]);
        assert(s@.subrange(n as int, k + 1) =~= s@.subrange(n as int, k as int).push(s@[k as int]));
        k += 1;
    }
    assert(s@.skip(n as int) =~= s@.subrange(n as int, s@.len() as int));
    r
}

/// Splits a character slice for wrapping: the line before the last break
/// within the first `i` bytes, and the rest.
pub fn wrap_n(i: u128, slop: u128, s: &[char]) -> (r: (Vec<char>, Vec<char>))
    requires
        i < WRAP_BOUND,
        slop < WRAP_BOUND,
    ensures
        r.0@ == wrap_split(i as int, slop as int, s@).0,
        r.1@ == wrap_split(i as int, slop as int, s@).1,
{
    let total = byte_len(s);
    if i + slop > total {
        return (prefix_chars(s, s.len()), Vec::new());
    }
    let hl = head_count(s, i);
    proof {
        lemma_head_len(s@, i as int);
    }
    let head = prefix_chars(s, hl);
    let sp = last_index(head.as_slice(), ' ');
    let tb = last_index(head.as_slice(), '\t');
    let nl = last_index(head.as_slice(), '\n');
    proof {
        lemma_last_of(head@, ' ');
        lemma_last_of(head@, '\t');
        lemma_last_of(head@, '\n');
    }
    let w0 = if sp >= tb {
        sp
    } else {
        tb
    };
    let w = if w0 >= nl {
        w0
    } else {
        nl
    };
    if w <= 0 {
        return (prefix_chars(s, s.len()), Vec::new());
    }
    if nl > 0 && nl < w {
        let k = nl as usize;
        (prefix_chars(s, k), suffix_chars(s, k + 1))
    } else {
        let k = w as usize;
        (prefix_chars(s, k), suffix_chars(s, k + 1))
    }
}

/// `n` spaces.
fn spaces_vec(n: u128) -> (r: Vec<char>)
    requires
        n < WRAP_BOUND,
    ensures
        r@ == spaces(n as int),
{
    let mut r: Vec<char> = Vec::new();
    let mut k: u128 = 0;
    while k < n
        invariant
            k <= n,
            r@ == spaces(k as int),
        decreases n - k,
    {
        r.push(' ');
        assert(spaces(k + 1) =~= spaces(k as int).push(' '));
        k += 1;
    }
    r
}

/// Appends `t` to `out`.
fn push_chars(out: &mut Vec<char>, t: &[char])
    ensures
        final(out)@ == old(out)@ + t@,
{
    let mut k: usize = 0;
    while k < t.len()
        invariant
            k <= t@.len(),
            out@ == old(out)@ + t@.take(k as int),
        decreases t@.len() - k,
    {
        out.push(t[k]);
        assert(t@.take(k + 1) =~= t@.take(k as int).push(t@[k as int]));
        k += 1;
    }
    assert(t@.take(t@.len() as int) =~= t@);
}

/// Appends `s` with every newline replaced by `r`.
fn push_replacing_nl(out: &mut Vec<char>, s: &[char], r: &[char])
    ensures
        final(out)@ == old(out)@ + replace_nl(s@, r@),
{
    let mut k: usize = 0;
    while k < s.len()
        invariant
            k <= s@.len(),
            out@ == old(out)@ + replace_nl(s@.take(k as int), r@),
        decreases s@.len() - k,
    {
        let ghost before = out@;
        if s[k] == '\n' {
            push_chars(out, r);
        } else {
            out.push(s[k]);
        }
        proof {
            let t = s@.take(k + 1);
            assert(t.drop_last() =~= s@.take(k as int));
            assert(t.last() == s@[k as int]);
            assert(out@ =~= old(out)@ + replace_nl(t, r@));
        }
        k += 1;
    }
    assert(s@.take(s@.len() as int) =~= s@);
}

/// Wraps a character slice into `cols` columns, continuation lines indented
/// by `indent`.
pub fn wrap(indent: u128, cols: u128, s: &[char]) -> (r: Vec<char>)
    requires
        indent < WRAP_BOUND,
        cols < WRAP_BOUND,
    ensures
        r@ == wrapped(indent as int, cols as int, s@),
{
    let pad = spaces_vec(indent);
    let mut nl_pad: Vec<char> = Vec::new();
    nl_pad.push('\n');
    push_chars(&mut nl_pad, pad.as_slice());
    assert(nl_pad@ =~= "\n"@ + pad@) by {
        reveal_strlit("\n");
    }
    let mut out: Vec<char> = Vec::new();
    if cols == 0 {
        push_replacing_nl(&mut out, s, nl_pad.as_slice());
        return out;
    }
    let ind: i128 = indent as i128;
    let c: i128 = cols as i128;
    let narrow = c - ind < 24;
    let width0: i128 = if narrow {
        c - 16
    } else {
        c - ind
    };
    let mut r0: Vec<char> = Vec::new();
    if narrow {
        r0.push('\n');
        let sp = spaces_vec(16);
        push_chars(&mut r0, sp.as_slice());
        assert(r0@ =~= "\n"@ + spaces(16)) by {
            reveal_strlit("\n");
        }
    }
    if width0 < 24 {
        push_replacing_nl(&mut out, s, r0.as_slice());
        assert(out@ =~= replace_nl(s@, r0@));
        return out;
    }
    let width: i128 = width0 - 5;
    let (first, rest0) = wrap_n(width as u128, 5, s);
    push_chars(&mut out, r0.as_slice());
    push_replacing_nl(&mut out, first.as_slice(), nl_pad.as_slice());
    let mut rest = rest0;
    let ghost head = out@;
    assert(head =~= r0@ + replace_nl(first@, nl_pad@));
    while rest.len() > 0
        invariant
            width >= 19,
            width < WRAP_BOUND,
            nl_pad@ == "\n"@ + pad@,
            pad@ == spaces(indent as int),
            out@ + wrap_rest(width as int, rest@, pad@) == head + wrap_rest(
                width as int,
                rest0@,
                pad@,
            ),
        decreases rest@.len(),
    {
        let ghost before = out@;
        let (t, next) = wrap_n(width as u128, 5, rest.as_slice());
        proof {
            lemma_wrap_split(width as int, 5, rest@);
        }
        push_chars(&mut out, nl_pad.as_slice());
        push_replacing_nl(&mut out, t.as_slice(), nl_pad.as_slice());
        assert(out@ =~= before + ("\n"@ + pad@ + replace_nl(t@, "\n"@ + pad@)));
        rest = next;
    }
    assert(out@ + Seq::<char>::empty() =~= out@);
    out
}

// ---------------------------------------------------------------------------
// Listing
// ---------------------------------------------------------------------------

/// The left column of a help row: alias and name, then the value type.
pub open spec fn left_column(h: HelpFlag) -> Seq<char> {
    (match h.short {
        Some(c) => "  -"@ + seq![c] + ", --"@ + h.name@,
        None => "      --"@ + h.name@,
    }) + if h.type_word@.len() > 0 {
        " "@ + h.type_word@
    } else {
        Seq::empty()
    }
}

/// A help row before layout: left column, a NUL separator, the usage text.
pub open spec fn usage_line(h: HelpFlag) -> Seq<char> {
    left_column(h) + seq!['\0'] + h.help@
}

/// The widest left column of `rows` in bytes, counting the separator.
pub open spec fn widest(rows: Seq<HelpFlag>) -> nat
    decreases rows.len(),
{
    if rows.len() == 0 {
        0
    } else {
        let w = utf8_len(left_column(rows.last())) + 1;
        let m = widest(rows.drop_last());
        if m >= w {
            m
        } else {
            w
        }
    }
}

/// One laid-out help row: the left part up to the separator, padding to the
/// widest column plus two, and the wrapped usage text.
pub open spec fn laid_out_row(h: HelpFlag, maxlen: nat) -> Seq<char> {
    let line = usage_line(h);
    let sidx = crate::text::index_of(line, '\0');
    line.take(sidx) + " "@ + spaces(maxlen - utf8_len(line.take(sidx))) + " "@ + wrapped(
        maxlen + 2int,
        HELP_COLS as int,
        line.skip(sidx + 1),
    ) + "\n"@
}

/// The laid-out rows from `k` on, sharing one description column.
pub open spec fn rows_text(rows: Seq<HelpFlag>, maxlen: nat, k: int) -> Seq<char>
    decreases rows.len() - k,
{
    if k < 0 || k >= rows.len() {
        Seq::empty()
    } else {
        laid_out_row(rows[k], maxlen) + rows_text(rows, maxlen, k + 1)
    }
}

/// The two-column listing of one section's rows.
pub open spec fn flag_usages_text(rows: Seq<HelpFlag>) -> Seq<char> {
    rows_text(rows, widest(rows), 0)
}

/// The rows of section `title`, from table index `j` on, in table order.
pub open spec fn section_rows_from(title: Seq<char>, j: int) -> Seq<HelpFlag>
    decreases spec_help_flags().len() - j,
{
    if j < 0 || j >= spec_help_flags().len() {
        Seq::empty()
    } else {
        let rest = section_rows_from(title, j + 1);
        if spec_help_flags()[j].section@ == title {
            seq![spec_help_flags()[j]] + rest
        } else {
            rest
        }
    }
}

/// The sections from index `k` on: a title line and its rows, followed by a
/// blank line; a section without rows is left out.
pub open spec fn sections_text(k: int) -> Seq<char>
    decreases spec_help_sections().len() - k,
{
    if k < 0 || k >= spec_help_sections().len() {
        Seq::empty()
    } else {
        let title = spec_help_sections()[k]@;
        let rows = section_rows_from(title, 0);
        let this = if rows.len() == 0 {
            Seq::empty()
        } else {
            title + ":\n"@ + flag_usages_text(rows) + "\n"@
        };
        this + sections_text(k + 1)
    }
}

/// The whole root help page for program name `prog`.
pub open spec fn help_text(prog: Seq<char>) -> Seq<char> {
    "Usage: "@ + prog + " [flags]\n\nA TUI viewer for beads issue tracker.\n\n"@ + sections_text(0)
        + "Run `"@ + prog + " --robot-help` for detailed AI/robot command documentation.\n"@
}

/// The left column of a help row.
fn left_column_of(h: HelpFlag) -> (r: String)
    ensures
        r@ == left_column(h),
{
    let mut line = match h.short {
        Some(c) => {
            let mut l = owned("  -");
            push_char(&mut l, c);
            append(&mut l, ", --");
            append(&mut l, h.name);
            l
        },
        None => {
            let mut l = owned("      --");
            append(&mut l, h.name);
            l
        },
    };
    if h.type_word.unicode_len() > 0 {
        append(&mut line, " ");
        append(&mut line, h.type_word);
    }
    line
}

/// Index of the first `c` in a character slice, or its length.
fn index_in(v: &[char], c: char) -> (r: usize)
    ensures
        r == crate::text::index_of(v@, c),
{
    proof {
        crate::text::lemma_index_of(v@, c);
    }
    let mut k: usize = 0;
    while k < v.len()
        invariant
            k <= v@.len(),
            forall|j: int| 0 <= j < k ==> v@[j] != c,
        decreases v@.len() - k,
    {
        if v[k] == c {
            proof {
                crate::text::lemma_index_not_before(v@, c, k as int);
            }
            return k;
        }
        k += 1;
    }
    proof {
        crate::text::lemma_index_not_before(v@, c, k as int);
    }
    k
}

pub proof fn lemma_utf8_prefix(s: Seq<char>, m: int, n: int)
    requires
        0 <= m <= n <= s.len(),
    ensures
        utf8_len(s.take(m)) <= utf8_len(s.take(n)),
{
    assert(s.take(n) =~= s.take(m) + s.subrange(m, n));
    lemma_utf8_concat(s.take(m), s.subrange(m, n));
}

pub proof fn lemma_widest(rows: Seq<HelpFlag>, k: int)
    requires
        0 <= k < rows.len(),
    ensures
        widest(rows) >= utf8_len(left_column(rows[k])) + 1,
    decreases rows.len(),
{
    if k < rows.len() - 1 {
        lemma_widest(rows.drop_last(), k);
    }
}

/// The separator sits within the line, at or before the end of its left
/// column, so the padding width is never negative.
pub proof fn lemma_row_padding(h: HelpFlag)
    ensures
        ({
            let line = usage_line(h);
            let sidx = crate::text::index_of(line, '\0');
            &&& 0 <= sidx < line.len()
            &&& utf8_len(line.take(sidx)) <= utf8_len(left_column(h))
        }),
{
    let line = usage_line(h);
    let lc = left_column(h);
    assert(line[lc.len() as int] == '\0');
    crate::text::lemma_index_of(line, '\0');
    let sidx = crate::text::index_of(line, '\0');
    assert(sidx <= lc.len());
    lemma_utf8_prefix(line, sidx, lc.len() as int);
    assert(line.take(lc.len() as int) =~= lc);
}

/// The usage line of a help row, as characters.
fn usage_line_of(h: HelpFlag) -> (r: Vec<char>)
    ensures
        r@ == usage_line(h),
{
    let left = left_column_of(h);
    let mut line = chars_of(left.as_str());
    line.push('\0');
    let help = chars_of(h.help);
    push_chars(&mut line, help.as_slice());
    assert(line@ =~= usage_line(h));
    line
}

/// One laid-out help row.
fn lay_out_row(h: HelpFlag, maxlen: u128) -> (r: Vec<char>)
    requires
        utf8_len(left_column(h)) + 1 <= maxlen,
        maxlen <= 4 * usize::MAX + 4,
    ensures
        r@ == laid_out_row(h, maxlen as nat),
{
    let line = usage_line_of(h);
    proof {
        lemma_row_padding(h);
    }
    let n = line.len();
    let sidx = index_in(line.as_slice(), '\0');
    assert(sidx < n);
    let left = prefix_chars(line.as_slice(), sidx);
    let lb = byte_len(left.as_slice());
    let desc = suffix_chars(line.as_slice(), sidx + 1);
    let mut buf: Vec<char> = Vec::new();
    push_chars(&mut buf, left.as_slice());
    buf.push(' ');
    let pad = spaces_vec(maxlen - lb);
    push_chars(&mut buf, pad.as_slice());
    buf.push(' ');
    let text = wrap(maxlen + 2, HELP_COLS as u128, desc.as_slice());
    push_chars(&mut buf, text.as_slice());
    buf.push('\n');
    proof {
        reveal_strlit(" ");
        reveal_strlit("\n");
        assert(buf@ =~= laid_out_row(h, maxlen as nat));
    }
    buf
}

/// Renders the two-column listing of one section's rows: every description
/// starts at the widest left column plus two.
pub fn flag_usages(rows: &[HelpFlag]) -> (r: String)
    ensures
        r@ == flag_usages_text(rows@),
{
    let mut maxlen: u128 = 0;
    let mut k: usize = 0;
    while k < rows.len()
        invariant
            k <= rows@.len(),
            maxlen == widest(rows@.take(k as int)),
            maxlen <= 4 * usize::MAX + 4,
        decreases rows@.len() - k,
    {
        let left = left_column_of(rows[k]);
        let mut line = chars_of(left.as_str());
        line.push('\0');
        let ll = line.len();
        let w = byte_len(line.as_slice());
        proof {
            assert(line@ =~= left_column(rows@[k as int]).push('\0'));
            lemma_utf8_push(left_column(rows@[k as int]), '\0');
            let t = rows@.take(k + 1);
            assert(t.drop_last() =~= rows@.take(k as int));
            assert(t.last() == rows@[k as int]);
        }
        if w > maxlen {
            maxlen = w;
        }
        k += 1;
    }
    assert(rows@.take(rows@.len() as int) =~= rows@);
    let ghost total = rows_text(rows@, maxlen as nat, 0);
    let mut buf: Vec<char> = Vec::new();
    let mut k: usize = 0;
    while k < rows.len()
        invariant
            maxlen == widest(rows@),
            maxlen <= 4 * usize::MAX + 4,
            k <= rows@.len(),
            buf@ + rows_text(rows@, maxlen as nat, k as int) == total,
        decreases rows@.len() - k,
    {
        proof {
            lemma_widest(rows@, k as int);
        }
        let row = lay_out_row(rows[k], maxlen);
        let ghost before = buf@;
        push_chars(&mut buf, row.as_slice());
        assert(before + rows_text(rows@, maxlen as nat, k as int) =~= buf@ + rows_text(
            rows@,
            maxlen as nat,
            k + 1,
        ));
        k += 1;
    }
    assert(buf@ + Seq::<char>::empty() =~= buf@);
    string_of(buf.as_slice())
}

/// The rows of section `title`, in table order.
fn section_rows(table: &Vec<HelpFlag>, title: &str) -> (r: Vec<HelpFlag>)
    requires
        table@ == spec_help_flags(),
    ensures
        r@ == section_rows_from(title@, 0),
{
    let mut rows: Vec<HelpFlag> = Vec::new();
    let mut j: usize = 0;
    assert(section_rows_from(title@, 0) == Seq::<HelpFlag>::empty() + section_rows_from(title@, 0));
    while j < table.len()
        invariant
            table@ == spec_help_flags(),
            j <= table@.len(),
            rows@ + section_rows_from(title@, j as int) == section_rows_from(title@, 0),
        decreases table@.len() - j,
    {
        let ghost before = rows@;
        if str_eq(table[j].section, title) {
            rows.push(table[j]);
            assert(before + section_rows_from(title@, j as int) =~= rows@ + section_rows_from(
                title@,
                j + 1,
            ));
        }
        j += 1;
    }
    assert(rows@ + Seq::<HelpFlag>::empty() =~= rows@);
    rows
}

/// The text of one section: its title line, its rows and a blank line; empty
/// when the section has no rows.
fn section_text(table: &Vec<HelpFlag>, title: &str) -> (r: String)
    requires
        table@ == spec_help_flags(),
    ensures
        r@ == (if section_rows_from(title@, 0).len() == 0 {
            Seq::empty()
        } else {
            title@ + ":\n"@ + flag_usages_text(section_rows_from(title@, 0)) + "\n"@
        }),
{
    let rows = section_rows(table, title);
    let mut out = String::new();
    if rows.len() > 0 {
        append(&mut out, title);
        append(&mut out, ":\n");
        let usage = flag_usages(rows.as_slice());
        append(&mut out, usage.as_str());
        append(&mut out, "\n");
    }
    out
}

/// Renders the full root `--help` page for program name `prog`.
pub fn render_help(prog: &str) -> (r: String)
    ensures
        r@ == help_text(prog@),
{
    let mut out = owned("Usage: ");
    append(&mut out, prog);
    append(&mut out, " [flags]\n\nA TUI viewer for beads issue tracker.\n\n");
    let ghost head = out@;
    let table = help_flags();
    let sections = help_sections();
    let mut k: usize = 0;
    while k < sections.len()
        invariant
            table@ == spec_help_flags(),
            sections@ == spec_help_sections(),
            k <= sections@.len(),
            out@ + sections_text(k as int) == head + sections_text(0),
        decreases sections@.len() - k,
    {
        let title = sections[k];
        let text = section_text(&table, title);
        let ghost before = out@;
        append(&mut out, text.as_str());
        assert(out@ + sections_text(k + 1) =~= before + sections_text(k as int));
        k += 1;
    }
    assert(out@ + Seq::<char>::empty() =~= out@);
    append(&mut out, "Run `");
    append(&mut out, prog);
    append(&mut out, " --robot-help` for detailed AI/robot command documentation.\n");
    out
}

} // verus!
