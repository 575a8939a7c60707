//! Post-parse validation: the ordered modifier-requires rules, the exclusive
//! primary groups, and the `--watch-export` / `--as-of` conflict.

use vstd::prelude::*;
use vstd::string::*;
use crate::argv::{first_string_value, go_string_flag_active};
use crate::flags::{
    flag_is_string, format_modifier_recovery_examples, is_registered_string,
    spec_recovery_suffix, strip_dashes,
};
use crate::registry::{
    FlagDef, MODIFIER_RULE_COUNT, modifier_rule, robot_primaries, rule_modifier, rule_required,
    spec_robot_primaries,
};
use crate::text::{
    append, concat2, concat3, decimal, find_char, has_prefix, index_of, join, join_strs,
    lemma_index_of, owned, str_eq, str_views, strip_prefix, trim, trim_end, trim_end_str,
    usize_to_decimal, views,
};

verus! {

broadcast use vstd::seq_lib::group_seq_properties;

/// A validation failure, with the text each one prints.
#[derive(Debug, Clone, PartialEq, Eq)]
pub enum ValidationError {
    /// A modifier given without any flag that satisfies its rule.
    MissingRequirement { modifier: String, required: String, message: String },
    /// More than one primary of one exclusive group.
    ExclusivePrimaries { count: usize, found: String },
    /// `--watch-export` together with `--as-of`.
    WatchExportWithAsOf,
    /// A value outside an enum flag's set.
    BadEnum { flag: String, value: String },
}

/// The fixed text of the watch-export / as-of conflict.
pub open spec fn watch_export_text() -> Seq<char> {
    "--watch-export cannot be combined with --as-of; omit --watch-export to export a fixed historical snapshot."@
}

/// The text each validation failure prints.
pub open spec fn error_text(e: ValidationError) -> Seq<char> {
    match e {
        ValidationError::MissingRequirement { message, .. } => message@,
        ValidationError::ExclusivePrimaries { count, found } => "only one primary command allowed (found "@
            + decimal(count as nat) + ": "@ + found@ + ")"@,
        ValidationError::WatchExportWithAsOf => watch_export_text(),
        ValidationError::BadEnum { flag, value } => "invalid value for --"@ + flag@ + ": "@ + value@,
    }
}

impl ValidationError {
    /// The text this failure prints.
    pub fn message(&self) -> (r: String)
        ensures
            r@ == error_text(*self),
    {
        match self {
            ValidationError::MissingRequirement { message, .. } => message.clone(),
            ValidationError::ExclusivePrimaries { count, found } => {
                let n = usize_to_decimal(*count);
                let mut out = owned("only one primary command allowed (found ");
                append(&mut out, n.as_str());
                append(&mut out, ": ");
                append(&mut out, found.as_str());
                append(&mut out, ")");
                out
            },
            ValidationError::WatchExportWithAsOf => owned(
                "--watch-export cannot be combined with --as-of; omit --watch-export to export a fixed historical snapshot.",
            ),
            ValidationError::BadEnum { flag, value } => {
                let mut out = owned("invalid value for --");
                append(&mut out, flag.as_str());
                append(&mut out, ": ");
                append(&mut out, value.as_str());
                out
            },
        }
    }
}

/// The flag a token names for presence purposes: without a leading `--`,
/// cut at the first `=`.
pub open spec fn presence_key(arg: Seq<char>) -> Seq<char> {
    let n = if has_prefix(arg, "--"@) {
        arg.skip("--"@.len() as int)
    } else {
        arg
    };
    n.take(index_of(n, '='))
}

/// Which flags are present in an invocation.
pub struct Presence {
    present: Vec<String>,
}

impl View for Presence {
    type V = Set<Seq<char>>;

    closed spec fn view(&self) -> Set<Seq<char>> {
        views(self.present@).to_set()
    }
}

impl Presence {
    /// No flag name is recorded twice.
    #[verifier::type_invariant]
    closed spec fn distinct(self) -> bool {
        views(self.present@).no_duplicates()
    }

    /// The flags named by `args`.
    pub fn from_args(args: &[String]) -> (r: Presence)
        ensures
            r@ == views(args@).map_values(|a: Seq<char>| presence_key(a)).to_set(),
    {
        let ghost a = views(args@);
        let mut present: Vec<String> = Vec::new();
        let mut i: usize = 0;
        while i < args.len()
            invariant
                a == views(args@),
                i <= args@.len(),
                views(present@).no_duplicates(),
                views(present@).to_set() == a.take(i as int).map_values(
                    |x: Seq<char>| presence_key(x),
                ).to_set(),
            decreases args@.len() - i,
        {
            let arg = args[i].as_str();
            assert(a[i as int] == arg@);
            let name0 = match strip_prefix(arg, "--") {
                Some(x) => x,
                None => arg,
            };
            let k = find_char(name0, '=');
            proof {
                lemma_index_of(name0@, '=');
            }
            let name = name0.substring_char(0, k);
            assert(name@ =~= presence_key(arg@));
            let ghost old_present = views(present@);
            let mut found = false;
            let mut j: usize = 0;
            while j < present.len()
                invariant
                    j <= present@.len(),
                    !found ==> forall|t: int| 0 <= t < j ==> views(present@)[t] != name@,
                    found ==> views(present@).contains(name@),
                decreases present@.len() - j,
            {
                if str_eq(present[j].as_str(), name) {
                    found = true;
                    assert(views(present@)[j as int] == name@);
                }
                j += 1;
            }
            let ghost key_set = a.take(i + 1).map_values(|x: Seq<char>| presence_key(x)).to_set();
            assert(a.take(i + 1).map_values(|x: Seq<char>| presence_key(x)) =~= a.take(
                i as int,
            ).map_values(|x: Seq<char>| presence_key(x)).push(presence_key(arg@)));
            if !found {
                let s = owned(name);
                proof {
                    crate::text::lemma_views_push(present@, s);
                    assert(!views(present@).contains(name@));
                }
                present.push(s);
                proof {
                    assert(views(present@) == old_present.push(name@));
                    assert(views(present@).to_set() =~= old_present.to_set().insert(name@));
                }
            } else {
                assert(views(present@).to_set() =~= views(present@).to_set().insert(name@));
            }
            i += 1;
        }
        assert(a.take(args@.len() as int) =~= a);
        Presence { present }
    }

    /// Whether `flag` is present.
    pub fn has(&self, flag: &str) -> (r: bool)
        ensures
            r == self@.contains(flag@),
    {
        let mut j: usize = 0;
        while j < self.present.len()
            invariant
                j <= self.present@.len(),
                forall|t: int| 0 <= t < j ==> views(self.present@)[t] != flag@,
            decreases self.present@.len() - j,
        {
            if str_eq(self.present[j].as_str(), flag) {
                assert(views(self.present@)[j as int] == flag@);
                return true;
            }
            j += 1;
        }
        false
    }
}

// ---------------------------------------------------------------------------
// Modifier requirements
// ---------------------------------------------------------------------------

/// `--a`, `--a or --b`, `--a, --b or --c`.
pub open spec fn required_text(required: Seq<Seq<char>>) -> Seq<char> {
    let flags = required.map_values(|r: Seq<char>| "--"@ + r);
    if flags.len() == 0 {
        Seq::empty()
    } else if flags.len() == 1 {
        flags[0]
    } else {
        join(flags.drop_last(), ", "@) + " or "@ + flags.last()
    }
}

/// Renders a co-flag set with `--` prefixes, commas and a final "or".
pub fn format_required(required: &[&str]) -> (r: String)
    ensures
        r@ == required_text(str_views(required@)),
{
    let ghost rv = str_views(required@);
    let ghost flags = rv.map_values(|r: Seq<char>| "--"@ + r);
    let mut dashed: Vec<String> = Vec::new();
    let mut k: usize = 0;
    while k < required.len()
        invariant
            rv == str_views(required@),
            flags == rv.map_values(|r: Seq<char>| "--"@ + r),
            k <= required@.len(),
            views(dashed@) == flags.take(k as int),
        decreases required@.len() - k,
    {
        let d = concat2("--", required[k]);
        proof {
            crate::text::lemma_views_push(dashed@, d);
        }
        dashed.push(d);
        assert(flags.take(k + 1) =~= flags.take(k as int).push(flags[k as int]));
        k += 1;
    }
    assert(flags.take(required@.len() as int) =~= flags);
    let n = dashed.len();
    if n == 0 {
        String::new()
    } else if n == 1 {
        dashed[0].clone()
    } else {
        let (head, last) = dashed.split_at(n - 1);
        let h = crate::text::join_strings(head, ", ");
        assert(views(head@) =~= flags.drop_last());
        assert(last@[0]@ == flags.last());
        concat3(h.as_str(), " or ", last[0].as_str())
    }
}

/// A required flag counts: present, and (when raw argv is known) not an
/// inactive string flag whose value is blank.
pub open spec fn requirement_active(
    present: Set<Seq<char>>,
    args: Option<Seq<Seq<char>>>,
    r: Seq<char>,
) -> bool {
    let string_inactive = match args {
        Some(a) => is_registered_string(strip_dashes(r)) && !(match first_string_value(a, r) {
            Some(v) => trim(v).len() > 0,
            None => false,
        }),
        None => false,
    };
    !string_inactive && present.contains(r)
}

/// Rule `k` is broken: its modifier is present and no co-flag counts.
pub open spec fn rule_broken(present: Set<Seq<char>>, args: Option<Seq<Seq<char>>>, k: int) -> bool {
    present.contains(rule_modifier(k)@) && !(exists|j: int|
        0 <= j < rule_required(k).len() && #[trigger] requirement_active(
            present,
            args,
            rule_required(k)[j]@,
        ))
}

/// The first broken rule at or after `k`, in table order.
pub open spec fn first_broken_rule(present: Set<Seq<char>>, args: Option<Seq<Seq<char>>>, k: int) -> Option<
    int,
>
    decreases MODIFIER_RULE_COUNT - k,
{
    if k < 0 || k >= MODIFIER_RULE_COUNT {
        None
    } else if rule_broken(present, args, k) {
        Some(k)
    } else {
        first_broken_rule(present, args, k + 1)
    }
}

/// The requirement sentence of rule `k`.
pub open spec fn requirement_head(k: int) -> Seq<char> {
    let m = rule_modifier(k)@;
    let req = str_views(rule_required(k));
    if req.len() > 1 {
        "--"@ + m + " requires one of "@ + required_text(req)
    } else {
        "--"@ + m + " requires "@ + required_text(req)
    }
}

/// The message of broken rule `k`: the requirement, then the recovery hints.
pub open spec fn requirement_message(k: int) -> Seq<char> {
    trim_end(requirement_head(k)) + spec_recovery_suffix(rule_modifier(k)@)
}

/// The character views of optional raw argv.
pub open spec fn args_view(args: Option<&[String]>) -> Option<Seq<Seq<char>>> {
    match args {
        Some(a) => Some(views(a@)),
        None => None,
    }
}

/// Whether some co-flag of `required` counts.
fn any_requirement_active(
    present: &Presence,
    args: Option<&[String]>,
    required: &[&'static str],
) -> (r: bool)
    ensures
        r == exists|j: int|
            0 <= j < required@.len() && #[trigger] requirement_active(
                present@,
                args_view(args),
                required@[j]@,
            ),
{
    let ghost av = args_view(args);
    let mut j: usize = 0;
    while j < required.len()
        invariant
            j <= required@.len(),
            av == args_view(args),
            forall|t: int| 0 <= t < j ==> !#[trigger] requirement_active(present@, av, required@[t]@),
        decreases required@.len() - j,
    {
        let r = required[j];
        let active = match args {
            Some(a) => {
                if flag_is_string(r) && !go_string_flag_active(a, r) {
                    false
                } else {
                    present.has(r)
                }
            },
            None => present.has(r),
        };
        if active {
            assert(requirement_active(present@, av, required@[j as int]@));
            return true;
        }
        j += 1;
    }
    false
}

/// The first broken modifier-requires rule, in table order, with its message
/// and recovery hints. `args` is the raw argv when the caller has it, so a
/// string co-flag given a blank value does not count.
pub fn validate_modifier_requires_with(present: &Presence, args: Option<&[String]>) -> (r: Option<
    ValidationError,
>)
    ensures
        ({
            match (r, first_broken_rule(present@, args_view(args), 0)) {
                (None, None) => true,
                (Some(ValidationError::MissingRequirement { modifier, required, message }), Some(k)) => {
                    &&& modifier@ == rule_modifier(k)@
                    &&& required@ == required_text(str_views(rule_required(k)))
                    &&& message@ == requirement_message(k)
                },
                _ => false,
            }
        }),
{
    let ghost av = args_view(args);
    let mut k: usize = 0;
    while k < MODIFIER_RULE_COUNT
        invariant
            k <= MODIFIER_RULE_COUNT,
            av == args_view(args),
            first_broken_rule(present@, av, 0) == first_broken_rule(present@, av, k as int),
        decreases MODIFIER_RULE_COUNT - k,
    {
        let (modifier, required) = modifier_rule(k);
        if present.has(modifier) && !any_requirement_active(present, args, required) {
            let rendered = format_required(required);
            let head = if required.len() > 1 {
                let mut h = concat3("--", modifier, " requires one of ");
                append(&mut h, rendered.as_str());
                h
            } else {
                let mut h = concat3("--", modifier, " requires ");
                append(&mut h, rendered.as_str());
                h
            };
            let trimmed = trim_end_str(head.as_str());
            let mut message = owned(trimmed);
            let hint = format_modifier_recovery_examples(modifier);
            append(&mut message, hint.as_str());
            assert(rule_broken(present@, av, k as int));
            return Some(
                ValidationError::MissingRequirement {
                    modifier: owned(modifier),
                    required: rendered,
                    message,
                },
            );
        }
        k += 1;
    }
    None
}

// ---------------------------------------------------------------------------
// Exclusive primaries
// ---------------------------------------------------------------------------

/// A table entry counted towards its exclusive group.
pub open spec fn selected(present: Set<Seq<char>>, f: FlagDef) -> bool {
    f.primary && present.contains(f.name@) && f.group is Some
}

/// The present members of group `g`, from table index `j` on, in table order.
pub open spec fn members_from(present: Set<Seq<char>>, g: Seq<char>, j: int) -> Seq<&'static str>
    decreases spec_robot_primaries().len() - j,
{
    if j < 0 || j >= spec_robot_primaries().len() {
        Seq::empty()
    } else {
        let f = spec_robot_primaries()[j];
        let rest = members_from(present, g, j + 1);
        if selected(present, f) && f.group->0@ == g {
            seq![f.name] + rest
        } else {
            rest
        }
    }
}

/// Entry `k` is the first present member of its group.
pub open spec fn first_of_group(present: Set<Seq<char>>, k: int) -> bool {
    let f = spec_robot_primaries()[k];
    selected(present, f) && forall|j: int|
        0 <= j < k ==> !(selected(present, #[trigger] spec_robot_primaries()[j])
            && spec_robot_primaries()[j].group->0@ == f.group->0@)
}

/// The exclusive-group conflicts from table index `k` on, each as its
/// member count and comma-joined member list, in order of each group's first
/// present member.
pub open spec fn conflicts_from(present: Set<Seq<char>>, k: int) -> Seq<(nat, Seq<char>)>
    decreases spec_robot_primaries().len() - k,
{
    if k < 0 || k >= spec_robot_primaries().len() {
        Seq::empty()
    } else {
        let rest = conflicts_from(present, k + 1);
        let f = spec_robot_primaries()[k];
        let m = members_from(present, f.group->0@, 0);
        if first_of_group(present, k) && m.len() > 1 {
            seq![(m.len(), join(str_views(m), ", "@))] + rest
        } else {
            rest
        }
    }
}

/// The count and member list an exclusive-group error carries.
pub open spec fn conflict_view(e: ValidationError) -> (nat, Seq<char>) {
    match e {
        ValidationError::ExclusivePrimaries { count, found } => (count as nat, found@),
        _ => (0, Seq::empty()),
    }
}

/// The present members of group `g`, in table order.
fn group_members(present: &Presence, table: &Vec<FlagDef>, g: &str) -> (r: Vec<&'static str>)
    requires
        table@ == spec_robot_primaries(),
    ensures
        r@ == members_from(present@, g@, 0),
{
    let mut names: Vec<&'static str> = Vec::new();
    let mut j: usize = 0;
    assert(members_from(present@, g@, 0) == Seq::<&'static str>::empty() + members_from(
        present@,
        g@,
        0,
    ));
    while j < table.len()
        invariant
            table@ == spec_robot_primaries(),
            j <= table@.len(),
            names@ + members_from(present@, g@, j as int) == members_from(present@, g@, 0),
        decreases table@.len() - j,
    {
        let f = table[j];
        let in_group = match f.group {
            Some(x) => str_eq(x, g),
            None => false,
        };
        if f.primary && present.has(f.name) && in_group {
            let ghost before = names@;
            names.push(f.name);
            assert(before + members_from(present@, g@, j as int) =~= names@ + members_from(
                present@,
                g@,
                j + 1,
            ));
        }
        j += 1;
    }
    assert(names@ + Seq::<&'static str>::empty() =~= names@);
    names
}

/// One error per exclusive group with more than one present member, in
/// order of each group's first present member; members are listed in table
/// order.
pub fn validate_exclusive_primaries(present: &Presence) -> (r: Vec<ValidationError>)
    ensures
        r@.map_values(|e: ValidationError| conflict_view(e)) == conflicts_from(present@, 0),
        forall|i: int| 0 <= i < r@.len() ==> (#[trigger] r@[i]) is ExclusivePrimaries,
{
    let table = robot_primaries();
    let mut out: Vec<ValidationError> = Vec::new();
    let mut k: usize = 0;
    while k < table.len()
        invariant
            table@ == spec_robot_primaries(),
            k <= table@.len(),
            out@.map_values(|e: ValidationError| conflict_view(e)) + conflicts_from(present@, k as int)
                == conflicts_from(present@, 0),
            forall|i: int| 0 <= i < out@.len() ==> (#[trigger] out@[i]) is ExclusivePrimaries,
        decreases table@.len() - k,
    {
        let f = table[k];
        let ghost before = out@;
        if f.primary && present.has(f.name) && f.group.is_some() {
            let g = f.group.unwrap();
            let mut first = true;
            let mut j: usize = 0;
            while j < k
                invariant
                    table@ == spec_robot_primaries(),
                    k < table@.len(),
                    j <= k,
                    f == table@[k as int],
                    f.group == Some(g),
                    first == forall|t: int|
                        0 <= t < j ==> !(selected(present@, #[trigger] spec_robot_primaries()[t])
                            && spec_robot_primaries()[t].group->0@ == g@),
                decreases k - j,
            {
                let h = table[j];
                let same = match h.group {
                    Some(x) => str_eq(x, g),
                    None => false,
                };
                if h.primary && present.has(h.name) && same {
                    first = false;
                }
                j += 1;
            }
            assert(first == first_of_group(present@, k as int));
            if first {
                let members = group_members(present, &table, g);
                if members.len() > 1 {
                    let found = join_strs(members.as_slice(), ", ");
                    out.push(ValidationError::ExclusivePrimaries { count: members.len(), found });
                    assert(out@.map_values(|e: ValidationError| conflict_view(e)) =~= before.map_values(
                        |e: ValidationError| conflict_view(e),
                    ).push((members@.len(), join(str_views(members@), ", "@))));
                }
            }
        }
        assert(conflicts_from(present@, k as int) == (if first_of_group(present@, k as int)
            && members_from(present@, spec_robot_primaries()[k as int].group->0@, 0).len() > 1 {
            seq![
                (
                    members_from(present@, spec_robot_primaries()[k as int].group->0@, 0).len(),
                    join(
                        str_views(
                            members_from(present@, spec_robot_primaries()[k as int].group->0@, 0),
                        ),
                        ", "@,
                    ),
                ),
            ]
        } else {
            Seq::empty()
        }) + conflicts_from(present@, k + 1));
        k += 1;
    }
    assert(out@.map_values(|e: ValidationError| conflict_view(e)) + Seq::<(nat, Seq<char>)>::empty()
        =~= out@.map_values(|e: ValidationError| conflict_view(e)));
    out
}

/// The watch-export / as-of conflict, checked on its own.
pub fn validate_watch_export_as_of(present: &Presence) -> (r: Vec<ValidationError>)
    ensures
        r@ == (if present@.contains("watch-export"@) && present@.contains("as-of"@) {
            seq![ValidationError::WatchExportWithAsOf]
        } else {
            Seq::<ValidationError>::empty()
        }),
{
    if present.has("watch-export") && present.has("as-of") {
        let mut v: Vec<ValidationError> = Vec::new();
        v.push(ValidationError::WatchExportWithAsOf);
        v
    } else {
        Vec::new()
    }
}

} // verus!
