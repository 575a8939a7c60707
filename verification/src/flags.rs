//! Queries over the flag registry: help-row lookup, registry membership, the
//! string-kind test used by the modifier rules, and the recovery hints that
//! accompany a broken modifier rule.

use vstd::prelude::*;
use crate::registry::{
    FlagDef, FlagKind, HelpFlag, MODIFIER_RULE_COUNT, RECOVERY_ROW_COUNT, help_flags,
    modifier_flags, modifier_rule, recovery_examples, recovery_modifier, recovery_row,
    robot_primaries, rule_modifier, rule_required, spec_help_flags, spec_modifier_flags,
    spec_robot_primaries,
};
use crate::text::{
    append, chars_of, concat3, owned, str_eq, str_views,
};

verus! {

/// Robot primaries followed by the modifier flags: the whole registry.
pub open spec fn spec_all_flags() -> Seq<FlagDef> {
    spec_robot_primaries() + spec_modifier_flags()
}

/// Index of the first help row at or after `k` named `name`, or -1.
pub open spec fn help_index_from(name: Seq<char>, k: int) -> int
    decreases spec_help_flags().len() - k,
{
    if k < 0 || k >= spec_help_flags().len() {
        -1
    } else if spec_help_flags()[k].name@ == name {
        k
    } else {
        help_index_from(name, k + 1)
    }
}

/// The first `--help` row named `name`, if any.
pub open spec fn spec_help_row(name: Seq<char>) -> Option<HelpFlag> {
    let k = help_index_from(name, 0);
    if k >= 0 {
        Some(spec_help_flags()[k])
    } else {
        None
    }
}

/// `s` with every leading `-` removed (`trim_start_matches('-')`).
pub open spec fn strip_dashes(s: Seq<char>) -> Seq<char>
    decreases s.len(),
{
    if s.len() > 0 && s[0] == '-' {
        strip_dashes(s.drop_first())
    } else {
        s
    }
}

/// A string-valued kind, the kinds whose activeness is the trimmed-value test.
pub open spec fn is_string_kind(k: FlagKind) -> bool {
    k == FlagKind::Str || k == FlagKind::RepeatableStr
}

/// `name` is a registered long flag.
pub open spec fn is_registered(name: Seq<char>) -> bool {
    exists|k: int| 0 <= k < spec_all_flags().len() && #[trigger] spec_all_flags()[k].name@ == name
}

/// `name` is a registered string-valued flag.
pub open spec fn is_registered_string(name: Seq<char>) -> bool {
    exists|k: int|
        0 <= k < spec_all_flags().len() && #[trigger] spec_all_flags()[k].name@ == name
            && is_string_kind(spec_all_flags()[k].kind)
}

/// `name` is a registered boolean flag.
pub open spec fn is_registered_bool(name: Seq<char>) -> bool {
    exists|k: int|
        0 <= k < spec_all_flags().len() && #[trigger] spec_all_flags()[k].name@ == name
            && spec_all_flags()[k].kind == FlagKind::Bool
}

/// The whole registry, primaries first.
pub fn all_flags() -> (r: Vec<FlagDef>)
    ensures
        r@ == spec_all_flags(),
{
    let mut r = robot_primaries();
    let mut m = modifier_flags();
    r.append(&mut m);
    r
}

impl FlagDef {
    /// The `--help` row for this flag, if one is advertised.
    pub fn help_row(&self) -> (r: Option<HelpFlag>)
        ensures
            r == spec_help_row(self.name@),
    {
        let rows = help_flags();
        let mut k: usize = 0;
        while k < rows.len()
            invariant
                rows@ == spec_help_flags(),
                k <= rows@.len(),
                help_index_from(self.name@, 0) == help_index_from(self.name@, k as int),
            decreases rows@.len() - k,
        {
            if str_eq(rows[k].name, self.name) {
                return Some(rows[k]);
            }
            k += 1;
        }
        None
    }

    /// Single-letter alias, or `None` when the flag has no short form.
    pub fn short(&self) -> (r: Option<char>)
        ensures
            r == (match spec_help_row(self.name@) {
                Some(h) => h.short,
                None => None,
            }),
    {
        match self.help_row() {
            Some(h) => h.short,
            None => None,
        }
    }

    /// The `--help` section this flag is listed under; empty when unlisted.
    pub fn section(&self) -> (r: &'static str)
        ensures
            r == (match spec_help_row(self.name@) {
                Some(h) => h.section,
                None => "",
            }),
    {
        match self.help_row() {
            Some(h) => h.section,
            None => "",
        }
    }

    /// The description text printed for this flag; empty when unlisted.
    pub fn help(&self) -> (r: &'static str)
        ensures
            r == (match spec_help_row(self.name@) {
                Some(h) => h.help,
                None => "",
            }),
    {
        match self.help_row() {
            Some(h) => h.help,
            None => "",
        }
    }
}

/// `s` without its leading dashes.
pub fn strip_leading_dashes(s: &str) -> (r: Vec<char>)
    ensures
        r@ == strip_dashes(s@),
{
    let x = chars_of(s);
    let mut a: usize = 0;
    assert(s@.skip(0) =~= s@);
    while a < x.len() && x[a] == '-'
        invariant
            x@ == s@,
            a <= x@.len(),
            strip_dashes(s@) == strip_dashes(s@.skip(a as int)),
        decreases x@.len() - a,
    {
        assert(s@.skip(a as int).drop_first() =~= s@.skip(a + 1));
        a += 1;
    }
    let mut r: Vec<char> = Vec::new();
    let mut j: usize = a;
    while j < x.len()
        invariant
            x@ == s@,
            a <= j <= x@.len(),
            r@ == s@.subrange(a as int, j as int),
        decreases x@.len() - j,
    {
        r.push(x[j]);
        assert(s@.subrange(a as int, j + 1) =~= s@.subrange(a as int, j as int).push(x@[j as int]));
        j += 1;
    }
    assert(s@.skip(a as int) =~= s@.subrange(a as int, x@.len() as int));
    r
}

/// Whether `name` (dashes allowed) is registered as a string-valued flag.
pub fn flag_is_string(name: &str) -> (r: bool)
    ensures
        r == is_registered_string(strip_dashes(name@)),
{
    let target = strip_leading_dashes(name);
    let flags = all_flags();
    let mut k: usize = 0;
    while k < flags.len()
        invariant
            flags@ == spec_all_flags(),
            target@ == strip_dashes(name@),
            k <= flags@.len(),
            forall|j: int|
                0 <= j < k ==> !(#[trigger] spec_all_flags()[j].name@ == target@ && is_string_kind(
                    spec_all_flags()[j].kind,
                )),
        decreases flags@.len() - k,
    {
        let f = flags[k];
        let n = chars_of(f.name);
        let string_kind = match f.kind {
            FlagKind::Str | FlagKind::RepeatableStr => true,
            _ => false,
        };
        if crate::text::chars_eq(n.as_slice(), target.as_slice()) && string_kind {
            return true;
        }
        k += 1;
    }
    false
}

/// Whether `name` (a bare long name) is registered as a boolean flag.
pub fn flag_is_bool(name: &str) -> (r: bool)
    ensures
        r == is_registered_bool(name@),
{
    let flags = all_flags();
    let mut k: usize = 0;
    while k < flags.len()
        invariant
            flags@ == spec_all_flags(),
            k <= flags@.len(),
            forall|j: int|
                0 <= j < k ==> !(#[trigger] spec_all_flags()[j].name@ == name@
                    && spec_all_flags()[j].kind == FlagKind::Bool),
        decreases flags@.len() - k,
    {
        let f = flags[k];
        let is_bool = match f.kind {
            FlagKind::Bool => true,
            _ => false,
        };
        if str_eq(f.name, name) && is_bool {
            return true;
        }
        k += 1;
    }
    false
}

/// Every long flag name of the registry, robot primaries first.
pub fn flag_names() -> (r: Vec<&'static str>)
    ensures
        r@ == spec_all_flags().map_values(|f: FlagDef| f.name),
{
    let flags = all_flags();
    let mut r: Vec<&'static str> = Vec::new();
    let mut k: usize = 0;
    while k < flags.len()
        invariant
            flags@ == spec_all_flags(),
            k <= flags@.len(),
            r@ == spec_all_flags().take(k as int).map_values(|f: FlagDef| f.name),
        decreases flags@.len() - k,
    {
        r.push(flags[k].name);
        assert(spec_all_flags().take(k + 1).map_values(|f: FlagDef| f.name) =~= spec_all_flags().take(
            k as int,
        ).map_values(|f: FlagDef| f.name).push(flags@[k as int].name));
        k += 1;
    }
    assert(spec_all_flags().take(flags@.len() as int) =~= spec_all_flags());
    r
}

/// Whether `name` (a bare long name) is a registered flag.
pub fn flag_lookup(name: &str) -> (r: bool)
    ensures
        r == is_registered(name@),
{
    let flags = all_flags();
    let mut k: usize = 0;
    while k < flags.len()
        invariant
            flags@ == spec_all_flags(),
            k <= flags@.len(),
            forall|j: int| 0 <= j < k ==> !(#[trigger] spec_all_flags()[j].name@ == name@),
        decreases flags@.len() - k,
    {
        if str_eq(flags[k].name, name) {
            return true;
        }
        k += 1;
    }
    false
}

/// The modifier-requires table, in evaluation order.
pub fn modifier_requires() -> (r: Vec<(&'static str, &'static [&'static str])>)
    ensures
        r@.len() == MODIFIER_RULE_COUNT,
        forall|k: int|
            0 <= k < MODIFIER_RULE_COUNT ==> (#[trigger] r@[k]).0 == rule_modifier(k) && r@[k].1@
                == rule_required(k),
{
    let mut r: Vec<(&'static str, &'static [&'static str])> = Vec::new();
    let mut k: usize = 0;
    while k < MODIFIER_RULE_COUNT
        invariant
            k <= MODIFIER_RULE_COUNT,
            r@.len() == k,
            forall|j: int|
                0 <= j < k ==> (#[trigger] r@[j]).0 == rule_modifier(j) && r@[j].1@ == rule_required(
                    j,
                ),
        decreases MODIFIER_RULE_COUNT - k,
    {
        r.push(modifier_rule(k));
        k += 1;
    }
    r
}

/// The recovery-example table, one row per hinted modifier.
pub fn modifier_recovery_table() -> (r: Vec<(&'static str, &'static [&'static str])>)
    ensures
        r@.len() == RECOVERY_ROW_COUNT,
        forall|k: int|
            0 <= k < RECOVERY_ROW_COUNT ==> (#[trigger] r@[k]).0 == recovery_modifier(k) && r@[k].1@
                == recovery_examples(k),
{
    let mut r: Vec<(&'static str, &'static [&'static str])> = Vec::new();
    let mut k: usize = 0;
    while k < RECOVERY_ROW_COUNT
        invariant
            k <= RECOVERY_ROW_COUNT,
            r@.len() == k,
            forall|j: int|
                0 <= j < k ==> (#[trigger] r@[j]).0 == recovery_modifier(j) && r@[j].1@
                    == recovery_examples(j),
        decreases RECOVERY_ROW_COUNT - k,
    {
        r.push(recovery_row(k));
        k += 1;
    }
    r
}

/// Index of the first recovery row at or after `k` for `modifier`, or -1.
pub open spec fn recovery_index_from(modifier: Seq<char>, k: int) -> int
    decreases RECOVERY_ROW_COUNT - k,
{
    if k < 0 || k >= RECOVERY_ROW_COUNT {
        -1
    } else if recovery_modifier(k)@ == modifier {
        k
    } else {
        recovery_index_from(modifier, k + 1)
    }
}

/// The recovery examples for `modifier`; empty when the modifier has none.
pub open spec fn spec_recovery_examples(modifier: Seq<char>) -> Seq<&'static str> {
    let k = recovery_index_from(modifier, 0);
    if k >= 0 {
        recovery_examples(k)
    } else {
        Seq::empty()
    }
}

/// The concrete invocations appended to a modifier-requires error.
pub fn modifier_recovery_examples(modifier: &str) -> (r: &'static [&'static str])
    ensures
        r@ == spec_recovery_examples(modifier@),
{
    let mut k: usize = 0;
    while k < RECOVERY_ROW_COUNT
        invariant
            k <= RECOVERY_ROW_COUNT,
            recovery_index_from(modifier@, 0) == recovery_index_from(modifier@, k as int),
        decreases RECOVERY_ROW_COUNT - k,
    {
        let row = recovery_row(k);
        if str_eq(row.0, modifier) {
            return row.1;
        }
        k += 1;
    }
    &[]
}

/// The fenced list of examples: "\n  `example`" for each, in order.
pub open spec fn fenced_examples(ex: Seq<Seq<char>>) -> Seq<char>
    decreases ex.len(),
{
    if ex.len() == 0 {
        Seq::empty()
    } else {
        fenced_examples(ex.drop_last()) + "\n  `"@ + ex.last() + "`"@
    }
}

/// The recovery suffix for a broken rule on `modifier`: empty without
/// examples, "\nTry: `x`." for one, "\nTry one of:" and a fenced line per
/// example for several.
pub open spec fn spec_recovery_suffix(modifier: Seq<char>) -> Seq<char> {
    let ex = str_views(spec_recovery_examples(modifier));
    if ex.len() == 0 {
        Seq::empty()
    } else if ex.len() == 1 {
        "\nTry: `"@ + ex[0] + "`."@
    } else {
        "\nTry one of:"@ + fenced_examples(ex)
    }
}

/// The suffix spliced onto a `--X requires Y` message.
pub fn format_modifier_recovery_examples(modifier: &str) -> (r: String)
    ensures
        r@ == spec_recovery_suffix(modifier@),
{
    let examples = modifier_recovery_examples(modifier);
    let ghost ex = str_views(examples@);
    if examples.len() == 0 {
        String::new()
    } else if examples.len() == 1 {
        concat3("\nTry: `", examples[0], "`.")
    } else {
        let mut out = owned("\nTry one of:");
        let mut k: usize = 0;
        while k < examples.len()
            invariant
                k <= examples@.len(),
                ex == str_views(examples@),
                out@ == "\nTry one of:"@ + fenced_examples(ex.take(k as int)),
            decreases examples@.len() - k,
        {
            append(&mut out, "\n  `");
            append(&mut out, examples[k]);
            append(&mut out, "`");
            proof {
                assert(ex.take(k + 1).drop_last() =~= ex.take(k as int));
                assert(ex.take(k + 1).last() == examples@[k as int]@);
            }
            k += 1;
        }
        assert(ex.take(examples@.len() as int) =~= ex);
        out
    }
}

} // verus!
