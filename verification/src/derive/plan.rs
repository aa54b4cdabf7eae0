//! The command plan: the flag table the scanner uses, the metadata that help
//! is built from, and where each scanned flag and operand lands.

use vstd::prelude::*;

use crate::derive::attrs::{
    extract_doc_sections, pair_views, spec_command_attrs, spec_sections, doc_lines, AttrEntry,
    CommandAttrs, CommandAttrsView, DocSections, DocSectionsView,
};
use crate::derive::classify::{is_flag_kind, RoleKind};
use crate::derive::codegen::{
    classified_views, classify_all, clears_of, spec_classify_all, spec_validate, validate,
    ClassifiedField, ClassifiedView, FieldInfo,
};
use crate::derive::error::{DeriveError, DeriveErrorView};
use crate::meta::{positional_views, CommandDef, CommandDefView, PositionalDef, PositionalView};
use crate::parse::{flag_def_views, FlagDef, FlagDefView, FlagKind, OnUnknown};
use crate::style::Style;
use crate::text::{char_at, chars_eq, chars_of, string_chars, string_of, string_views};

verus! {

// ── Long names ──────────────────────────────────────────────────

/// Index of the first non-`_` character of `s` at `k` or later (or `s.len()`).
pub open spec fn underscore_start(s: Seq<char>, k: int) -> int
    decreases s.len() - k,
{
    if 0 <= k < s.len() && s[k] == '_' {
        underscore_start(s, k + 1)
    } else {
        k
    }
}

/// One past the last non-`_` character of `s[lo..k]` (or `lo`).
pub open spec fn underscore_end(s: Seq<char>, lo: int, k: int) -> int
    decreases k - lo,
{
    if lo < k && k <= s.len() && s[k - 1] == '_' {
        underscore_end(s, lo, k - 1)
    } else {
        k
    }
}

/// A field name as a kebab-case long name: leading and trailing `_`
/// removed, every other `_` turned into `-` (`nchars_exact` → `nchars-exact`).
pub open spec fn spec_kebab(s: Seq<char>) -> Seq<char> {
    let a = underscore_start(s, 0);
    s.subrange(a, underscore_end(s, a, s.len() as int)).map_values(
        |c: char|
            if c == '_' {
                '-'
            } else {
                c
            },
    )
}

/// A field name as a kebab-case long name, as [`spec_kebab`] says.
pub fn kebab(ident: &String) -> (r: String)
    ensures
        r@ == spec_kebab(ident@),
{
    let v = string_chars(ident);
    let n = v.len();
    let mut a: usize = 0;
    while a < n && char_at(v.as_slice(), a) == '_'
        invariant
            n == v@.len(),
            0 <= a <= n,
            underscore_start(v@, 0) == underscore_start(v@, a as int),
        decreases n - a,
    {
        a += 1;
    }
    let mut b: usize = n;
    while b > a && char_at(v.as_slice(), b - 1) == '_'
        invariant
            n == v@.len(),
            0 <= a <= b <= n,
            underscore_start(v@, 0) == a,
            underscore_end(v@, a as int, n as int) == underscore_end(v@, a as int, b as int),
        decreases b - a,
    {
        b -= 1;
    }
    let ghost mid = v@.subrange(a as int, b as int);
    let mut r = String::new();
    let mut i = a;
    while i < b
        invariant
            n == v@.len(),
            a <= i <= b <= n,
            mid == v@.subrange(a as int, b as int),
            r@ == mid.subrange(0, i - a).map_values(
                |c: char|
                    if c == '_' {
                        '-'
                    } else {
                        c
                    },
            ),
        decreases b - i,
    {
        let c = char_at(v.as_slice(), i);
        crate::text::push_char(
            &mut r,
            if c == '_' {
                '-'
            } else {
                c
            },
        );
        i += 1;
        assert(mid.subrange(0, i - a) =~= mid.subrange(0, i - 1 - a).push(c));
        assert(r@ =~= mid.subrange(0, i - a).map_values(
            |c: char|
                if c == '_' {
                    '-'
                } else {
                    c
                },
        ));
    }
    assert(mid.subrange(0, b - a) =~= mid);
    r
}

/// A flag field's GNU long name: the explicit `long`, else in GNU style the
/// kebab-case field name, else none.
pub open spec fn spec_flag_long(f: ClassifiedView, gnu: bool) -> Seq<char> {
    let explicit = match f.attrs {
        Some(a) => a.long,
        None => None,
    };
    match explicit {
        Some(l) => l,
        None => if gnu {
            spec_kebab(f.ident)
        } else {
            seq![]
        },
    }
}

/// The scanner kind of a flag role.
pub open spec fn spec_flag_kind(k: RoleKind) -> FlagKind {
    if k == RoleKind::BoolFlag {
        FlagKind::Bool
    } else if k == RoleKind::PolarityFlag {
        FlagKind::Polar
    } else if k == RoleKind::PolarValueFlag {
        FlagKind::PolarValue
    } else {
        FlagKind::Value
    }
}

/// Whether a role takes a value.
pub open spec fn takes_value(k: RoleKind) -> bool {
    k == RoleKind::ValuedFlag || k == RoleKind::RepeatableValueFlag || k == RoleKind::PolarValueFlag
}

/// The value placeholder of a flag field: its `value_name`, or `ARG`.
pub open spec fn spec_value_name(f: ClassifiedView) -> Seq<char> {
    if takes_value(f.kind) {
        match f.attrs {
            Some(a) => if a.value_name.len() == 0 {
                "ARG"@
            } else {
                a.value_name
            },
            None => "ARG"@,
        }
    } else {
        seq![]
    }
}

/// Index of the first field, at `k` or later, named `name`.
pub open spec fn first_named_from(fs: Seq<ClassifiedView>, name: Seq<char>, k: int) -> Option<int>
    decreases fs.len() - k,
{
    if k < 0 || k >= fs.len() {
        None
    } else if fs[k].ident == name {
        Some(k)
    } else {
        first_named_from(fs, name, k + 1)
    }
}

/// The identity chars of the fields that the targets `ts[m..]` name
/// (names of no field are skipped).
pub open spec fn clears_chars_from(fs: Seq<ClassifiedView>, ts: Seq<Seq<char>>, m: int) -> Seq<char>
    decreases ts.len() - m,
{
    if m < 0 || m >= ts.len() {
        seq![]
    } else {
        match first_named_from(fs, ts[m], 0) {
            Some(r) => seq![fs[r].id] + clears_chars_from(fs, ts, m + 1),
            None => clears_chars_from(fs, ts, m + 1),
        }
    }
}

/// The indices of the flag fields that the targets `ts[m..]` name.
pub open spec fn resets_from(fs: Seq<ClassifiedView>, ts: Seq<Seq<char>>, m: int) -> Seq<int>
    decreases ts.len() - m,
{
    if m < 0 || m >= ts.len() {
        seq![]
    } else {
        match first_named_from(fs, ts[m], 0) {
            Some(r) => if is_flag_kind(fs[r].kind) {
                seq![r] + resets_from(fs, ts, m + 1)
            } else {
                resets_from(fs, ts, m + 1)
            },
            None => resets_from(fs, ts, m + 1),
        }
    }
}

/// The declaration of flag field `f`.
pub open spec fn spec_flag_def(f: ClassifiedView, fs: Seq<ClassifiedView>, gnu: bool) -> FlagDefView {
    FlagDefView {
        ch: f.id,
        long: spec_flag_long(f, gnu),
        aliases: match f.attrs {
            Some(a) => a.aliases,
            None => seq![],
        },
        kind: spec_flag_kind(f.kind),
        clears: clears_chars_from(fs, clears_of(f), 0),
        desc: f.desc,
        value_name: spec_value_name(f),
        hidden: match f.attrs {
            Some(a) => a.hidden,
            None => false,
        },
    }
}

/// The declarations of the flag fields among the first `n`, in order.
pub open spec fn spec_field_flags(fs: Seq<ClassifiedView>, gnu: bool, n: int) -> Seq<FlagDefView>
    decreases n,
{
    if n <= 0 || n > fs.len() {
        seq![]
    } else if is_flag_kind(fs[n - 1].kind) {
        spec_field_flags(fs, gnu, n - 1).push(spec_flag_def(fs[n - 1], fs, gnu))
    } else {
        spec_field_flags(fs, gnu, n - 1)
    }
}

/// The declaration of an accepted-and-ignored flag.
pub open spec fn noop_def(c: char) -> FlagDefView {
    FlagDefView {
        ch: c,
        long: seq![],
        aliases: seq![],
        kind: FlagKind::Noop,
        clears: seq![],
        desc: seq![],
        value_name: seq![],
        hidden: false,
    }
}

/// The positionals among the first `n` fields, in order.
pub open spec fn spec_positionals(fs: Seq<ClassifiedView>, n: int) -> Seq<PositionalView>
    decreases n,
{
    if n <= 0 || n > fs.len() {
        seq![]
    } else if fs[n - 1].kind == RoleKind::RequiredPositional || fs[n - 1].kind
        == RoleKind::OptionalPositional {
        spec_positionals(fs, n - 1).push(
            PositionalView {
                name: fs[n - 1].ident,
                required: fs[n - 1].kind == RoleKind::RequiredPositional,
                desc: fs[n - 1].desc,
            },
        )
    } else {
        spec_positionals(fs, n - 1)
    }
}

/// Whether some field collects the rest of the operands.
pub open spec fn has_rest_field(fs: Seq<ClassifiedView>) -> bool {
    exists|k: int| 0 <= k < fs.len() && #[trigger] fs[k].kind == RoleKind::Rest
}

/// Whether the command asked for GNU conventions.
pub open spec fn is_gnu(cmd: CommandAttrsView) -> bool {
    cmd.style == "gnu"@
}

/// The command's metadata.
pub open spec fn spec_def(
    cmd: CommandAttrsView,
    sections: DocSectionsView,
    fs: Seq<ClassifiedView>,
) -> CommandDefView {
    CommandDefView {
        name: cmd.name,
        about: sections.about,
        short_doc: cmd.short_doc,
        style: if is_gnu(cmd) {
            Style::Gnu
        } else {
            Style::Posix
        },
        on_unknown: if cmd.lenient {
            OnUnknown::PassThrough
        } else {
            OnUnknown::Reject
        },
        flags: spec_field_flags(fs, is_gnu(cmd), fs.len() as int),
        positionals: spec_positionals(fs, fs.len() as int),
        has_rest: has_rest_field(fs),
        tags: cmd.tags,
        description: sections.description,
        extra: if cmd.extra_help.len() == 0 {
            sections.extra
        } else {
            cmd.extra_help
        },
        exit_status: sections.exit_status,
    }
}

/// How one field takes part in parsing.
#[derive(Debug, Clone, PartialEq, Eq)]
pub struct Slot {
    /// The field's name.
    pub ident: String,
    /// Its role.
    pub kind: RoleKind,
    /// Its identity char (`'\0'` for a positional).
    pub id: char,
    /// The fields reset to their initial value when this flag is seen.
    pub resets: Vec<usize>,
}

/// The content of a [`Slot`].
pub struct SlotView {
    pub ident: Seq<char>,
    pub kind: RoleKind,
    pub id: char,
    pub resets: Seq<int>,
}

impl View for Slot {
    type V = SlotView;

    open spec fn view(&self) -> SlotView {
        SlotView {
            ident: self.ident@,
            kind: self.kind,
            id: self.id,
            resets: self.resets@.map_values(|r: usize| r as int),
        }
    }
}

/// The views of slots.
pub open spec fn slot_views(v: Seq<Slot>) -> Seq<SlotView> {
    v.map_values(|s: Slot| s@)
}

/// The slot of field `j`.
pub open spec fn spec_slot(fs: Seq<ClassifiedView>, j: int) -> SlotView {
    SlotView {
        ident: fs[j].ident,
        kind: fs[j].kind,
        id: fs[j].id,
        resets: resets_from(fs, clears_of(fs[j]), 0),
    }
}

/// The slots of all fields, in order.
pub open spec fn spec_slots(fs: Seq<ClassifiedView>) -> Seq<SlotView> {
    Seq::new(fs.len(), |j: int| spec_slot(fs, j))
}

/// Everything a derived command needs at run time.
#[derive(Debug, Clone, PartialEq, Eq)]
pub struct CommandPlan {
    /// The metadata (flags without the no-op ones).
    pub def: CommandDef,
    /// The scanner's flag table: the flag fields, then the no-op flags.
    pub flags: Vec<FlagDef>,
    /// Whether GNU style may interleave flags and operands.
    pub permute: bool,
    /// One slot per field, in order.
    pub slots: Vec<Slot>,
}

/// The content of a [`CommandPlan`].
pub struct PlanView {
    pub def: CommandDefView,
    pub flags: Seq<FlagDefView>,
    pub permute: bool,
    pub slots: Seq<SlotView>,
}

impl View for CommandPlan {
    type V = PlanView;

    open spec fn view(&self) -> PlanView {
        PlanView {
            def: self.def@,
            flags: flag_def_views(self.flags@),
            permute: self.permute,
            slots: slot_views(self.slots@),
        }
    }
}

/// The plan of a command with attributes `cmd`, doc sections `sections`
/// and classified fields `fs`.
pub open spec fn spec_plan(
    cmd: CommandAttrsView,
    sections: DocSectionsView,
    fs: Seq<ClassifiedView>,
) -> PlanView {
    PlanView {
        def: spec_def(cmd, sections, fs),
        flags: spec_field_flags(fs, is_gnu(cmd), fs.len() as int) + cmd.noop.map_values(
            |c: char| noop_def(c),
        ),
        permute: !cmd.no_permute,
        slots: spec_slots(fs),
    }
}


proof fn lemma_field_flag_at(fs: Seq<ClassifiedView>, gnu: bool, j: int, n: int)
    requires
        0 <= j < n <= fs.len(),
        is_flag_kind(fs[j].kind),
    ensures
        exists|k: int|
            0 <= k < spec_field_flags(fs, gnu, n).len() && #[trigger] spec_field_flags(fs, gnu, n)[k]
                == spec_flag_def(fs[j], fs, gnu),
    decreases n,
{
    if j < n - 1 {
        lemma_field_flag_at(fs, gnu, j, n - 1);
        let k = choose|k: int|
            0 <= k < spec_field_flags(fs, gnu, n - 1).len() && #[trigger] spec_field_flags(
                fs,
                gnu,
                n - 1,
            )[k] == spec_flag_def(fs[j], fs, gnu);
        if is_flag_kind(fs[n - 1].kind) {
            assert(spec_field_flags(fs, gnu, n)[k] == spec_flag_def(fs[j], fs, gnu));
        }
    } else {
        let k = spec_field_flags(fs, gnu, n - 1).len() as int;
        assert(spec_field_flags(fs, gnu, n)[k] == spec_flag_def(fs[j], fs, gnu));
    }
}

/// The long name a flag field gets in the plan's flag table: the explicit
/// `long = "..."` whatever the style; without one, the kebab-case field name
/// in GNU style and none in POSIX style.
pub proof fn lemma_flag_long_name(
    cmd: CommandAttrsView,
    sections: DocSectionsView,
    fs: Seq<ClassifiedView>,
    j: int,
)
    requires
        0 <= j < fs.len(),
        is_flag_kind(fs[j].kind),
        fs[j].attrs is Some,
    ensures
        exists|k: int|
            0 <= k < spec_plan(cmd, sections, fs).flags.len() && {
                let d = #[trigger] spec_plan(cmd, sections, fs).flags[k];
                &&& d.ch == fs[j].id
                &&& (fs[j].attrs->0.long matches Some(l) ==> d.long == l)
                &&& (fs[j].attrs->0.long is None && cmd.style == "gnu"@ ==> d.long == spec_kebab(
                    fs[j].ident,
                ))
                &&& (fs[j].attrs->0.long is None && cmd.style != "gnu"@ ==> d.long.len() == 0)
            },
{
    let gnu = is_gnu(cmd);
    lemma_field_flag_at(fs, gnu, j, fs.len() as int);
    let ff = spec_field_flags(fs, gnu, fs.len() as int);
    let k = choose|k: int| 0 <= k < ff.len() && #[trigger] ff[k] == spec_flag_def(fs[j], fs, gnu);
    let flags = spec_plan(cmd, sections, fs).flags;
    assert(flags[k] == ff[k]);
}

// ── Building the plan ───────────────────────────────────────────

/// A copy of a list of strings.
pub fn clone_strings(v: &Vec<String>) -> (r: Vec<String>)
    ensures
        string_views(r@) == string_views(v@),
{
    let mut r: Vec<String> = Vec::new();
    let mut i: usize = 0;
    while i < v.len()
        invariant
            0 <= i <= v@.len(),
            string_views(r@) == string_views(v@).take(i as int),
        decreases v.len() - i,
    {
        let ghost before = string_views(r@);
        r.push(v[i].clone());
        assert(string_views(r@) =~= before.push(v@[i as int]@));
        i += 1;
        assert(string_views(v@).take(i as int) =~= string_views(v@).take(i - 1).push(
            v@[i - 1]@,
        ));
    }
    assert(string_views(v@).take(v@.len() as int) =~= string_views(v@));
    r
}

fn clone_pairs(v: &Vec<(String, String)>) -> (r: Vec<(String, String)>)
    ensures
        pair_views(r@) == pair_views(v@),
{
    let mut r: Vec<(String, String)> = Vec::new();
    let mut i: usize = 0;
    while i < v.len()
        invariant
            0 <= i <= v@.len(),
            pair_views(r@) == pair_views(v@).take(i as int),
        decreases v.len() - i,
    {
        let ghost before = pair_views(r@);
        let (a, b) = &v[i];
        r.push((a.clone(), b.clone()));
        assert(pair_views(r@) =~= before.push((v@[i as int].0@, v@[i as int].1@)));
        i += 1;
        assert(pair_views(v@).take(i as int) =~= pair_views(v@).take(i - 1).push(
            (v@[i - 1].0@, v@[i - 1].1@),
        ));
    }
    assert(pair_views(v@).take(v@.len() as int) =~= pair_views(v@));
    r
}

fn first_named(fields: &[ClassifiedField], name: &String) -> (r: Option<usize>)
    ensures
        match r {
            Some(k) => k < fields@.len() && first_named_from(classified_views(fields@), name@, 0)
                == Some(k as int),
            None => first_named_from(classified_views(fields@), name@, 0) is None,
        },
{
    let ghost fs = classified_views(fields@);
    let target = string_chars(name);
    let mut k: usize = 0;
    while k < fields.len()
        invariant
            fs == classified_views(fields@),
            target@ == name@,
            0 <= k <= fields@.len(),
            first_named_from(fs, name@, 0) == first_named_from(fs, name@, k as int),
        decreases fields.len() - k,
    {
        let id = string_chars(&fields[k].ident);
        if chars_eq(id.as_slice(), target.as_slice()) {
            return Some(k);
        }
        k += 1;
    }
    None
}

fn kind_is_flag(k: RoleKind) -> (r: bool)
    ensures
        r == is_flag_kind(k),
{
    k == RoleKind::BoolFlag || k == RoleKind::PolarityFlag || k == RoleKind::ValuedFlag || k
        == RoleKind::RepeatableValueFlag || k == RoleKind::PolarValueFlag
}

fn resolve_clears(fields: &[ClassifiedField], targets: &Vec<String>) -> (r: Vec<char>)
    ensures
        r@ == clears_chars_from(classified_views(fields@), string_views(targets@), 0),
{
    let ghost fs = classified_views(fields@);
    let ghost ts = string_views(targets@);
    let mut r: Vec<char> = Vec::new();
    let mut m: usize = 0;
    while m < targets.len()
        invariant
            fs == classified_views(fields@),
            ts == string_views(targets@),
            0 <= m <= ts.len(),
            clears_chars_from(fs, ts, 0) == r@ + clears_chars_from(fs, ts, m as int),
        decreases targets.len() - m,
    {
        match first_named(fields, &targets[m]) {
            Some(k) => {
                let ghost before = r@;
                r.push(fields[k].id);
                assert(before + clears_chars_from(fs, ts, m as int) =~= r@ + clears_chars_from(
                    fs,
                    ts,
                    m + 1,
                ));
            },
            None => {},
        }
        m += 1;
    }
    assert(r@ + seq![] =~= r@);
    r
}

fn gen_resets(fields: &[ClassifiedField], targets: &Vec<String>) -> (r: Vec<usize>)
    ensures
        r@.map_values(|x: usize| x as int) == resets_from(
            classified_views(fields@),
            string_views(targets@),
            0,
        ),
        forall|i: int| 0 <= i < r@.len() ==> #[trigger] r@[i] < fields@.len(),
{
    let ghost fs = classified_views(fields@);
    let ghost ts = string_views(targets@);
    let mut r: Vec<usize> = Vec::new();
    let mut m: usize = 0;
    while m < targets.len()
        invariant
            fs == classified_views(fields@),
            ts == string_views(targets@),
            0 <= m <= ts.len(),
            resets_from(fs, ts, 0) == r@.map_values(|x: usize| x as int) + resets_from(
                fs,
                ts,
                m as int,
            ),
            forall|i: int| 0 <= i < r@.len() ==> #[trigger] r@[i] < fields@.len(),
        decreases targets.len() - m,
    {
        match first_named(fields, &targets[m]) {
            Some(k) => {
                if kind_is_flag(fields[k].role.role_kind()) {
                    let ghost before = r@.map_values(|x: usize| x as int);
                    r.push(k);
                    assert(r@.map_values(|x: usize| x as int) =~= before.push(k as int));
                    assert(before + resets_from(fs, ts, m as int) =~= r@.map_values(
                        |x: usize| x as int,
                    ) + resets_from(fs, ts, m + 1));
                }
            },
            None => {},
        }
        m += 1;
    }
    assert(r@.map_values(|x: usize| x as int) + seq![] =~= r@.map_values(|x: usize| x as int));
    r
}

fn flag_long(cf: &ClassifiedField, gnu: bool) -> (r: String)
    ensures
        r@ == spec_flag_long(cf@, gnu),
{
    match cf.role.flag_attrs() {
        Some(a) => match &a.long {
            Some(l) => {
                return l.clone();
            },
            None => {},
        },
        None => {},
    }
    if gnu {
        kebab(&cf.ident)
    } else {
        String::new()
    }
}

fn flag_value_name(cf: &ClassifiedField) -> (r: String)
    ensures
        r@ == spec_value_name(cf@),
{
    let k = cf.role.role_kind();
    if k == RoleKind::ValuedFlag || k == RoleKind::RepeatableValueFlag || k
        == RoleKind::PolarValueFlag {
        match cf.role.flag_attrs() {
            Some(a) => {
                if a.value_name.as_str().is_empty() {
                    "ARG".to_owned()
                } else {
                    a.value_name.clone()
                }
            },
            None => "ARG".to_owned(),
        }
    } else {
        String::new()
    }
}

fn flag_kind(k: RoleKind) -> (r: FlagKind)
    ensures
        r == spec_flag_kind(k),
{
    if k == RoleKind::BoolFlag {
        FlagKind::Bool
    } else if k == RoleKind::PolarityFlag {
        FlagKind::Polar
    } else if k == RoleKind::PolarValueFlag {
        FlagKind::PolarValue
    } else {
        FlagKind::Value
    }
}

/// The declaration of the flag field `cf`, one of `fields`.
fn flag_def_literal(cf: &ClassifiedField, fields: &[ClassifiedField], gnu: bool) -> (r: FlagDef)
    ensures
        r@ == spec_flag_def(cf@, classified_views(fields@), gnu),
{
    let (aliases, hidden, clears) = match cf.role.flag_attrs() {
        Some(a) => (clone_strings(&a.aliases), a.hidden, resolve_clears(fields, &a.clears)),
        None => {
            let v: Vec<String> = Vec::new();
            assert(string_views(v@) =~= seq![]);
            (v, false, Vec::new())
        },
    };
    FlagDef {
        ch: cf.id,
        long: flag_long(cf, gnu),
        aliases,
        kind: flag_kind(cf.role.role_kind()),
        clears,
        desc: cf.desc.clone(),
        value_name: flag_value_name(cf),
        hidden,
    }
}

/// The declarations of the flag fields, in order.
pub fn gen_flag_metas(fields: &[ClassifiedField], gnu: bool) -> (r: Vec<FlagDef>)
    ensures
        flag_def_views(r@) == spec_field_flags(classified_views(fields@), gnu, fields@.len() as int),
{
    let ghost fs = classified_views(fields@);
    let mut r: Vec<FlagDef> = Vec::new();
    let mut j: usize = 0;
    assert(flag_def_views(r@) =~= seq![]);
    while j < fields.len()
        invariant
            fs == classified_views(fields@),
            0 <= j <= fields@.len(),
            flag_def_views(r@) == spec_field_flags(fs, gnu, j as int),
        decreases fields.len() - j,
    {
        if kind_is_flag(fields[j].role.role_kind()) {
            let ghost before = flag_def_views(r@);
            let d = flag_def_literal(&fields[j], fields, gnu);
            let ghost dv = d@;
            r.push(d);
            assert(flag_def_views(r@) =~= before.push(dv));
        }
        j += 1;
    }
    r
}

fn noop_defs(noop: &String) -> (r: Vec<FlagDef>)
    ensures
        flag_def_views(r@) == noop@.map_values(|c: char| noop_def(c)),
{
    let cs = string_chars(noop);
    let mut r: Vec<FlagDef> = Vec::new();
    let mut i: usize = 0;
    while i < cs.len()
        invariant
            cs@ == noop@,
            0 <= i <= cs@.len(),
            flag_def_views(r@) == cs@.take(i as int).map_values(|c: char| noop_def(c)),
        decreases cs.len() - i,
    {
        let ghost before = flag_def_views(r@);
        let c = char_at(cs.as_slice(), i);
        let aliases: Vec<String> = Vec::new();
        let d = FlagDef {
            ch: c,
            long: String::new(),
            aliases,
            kind: FlagKind::Noop,
            clears: Vec::new(),
            desc: String::new(),
            value_name: String::new(),
            hidden: false,
        };
        assert(string_views(d.aliases@) =~= seq![]);
        assert(d.clears@ =~= seq![]);
        r.push(d);
        assert(flag_def_views(r@) =~= before.push(noop_def(c)));
        i += 1;
        assert(cs@.take(i as int).map_values(|c: char| noop_def(c)) =~= cs@.take(i - 1).map_values(
            |c: char| noop_def(c),
        ).push(noop_def(c)));
    }
    assert(cs@.take(cs@.len() as int) =~= cs@);
    r
}

fn gen_positional_metas(fields: &[ClassifiedField]) -> (r: Vec<PositionalDef>)
    ensures
        positional_views(r@) == spec_positionals(classified_views(fields@), fields@.len() as int),
{
    let ghost fs = classified_views(fields@);
    let mut r: Vec<PositionalDef> = Vec::new();
    let mut j: usize = 0;
    assert(positional_views(r@) =~= seq![]);
    while j < fields.len()
        invariant
            fs == classified_views(fields@),
            0 <= j <= fields@.len(),
            positional_views(r@) == spec_positionals(fs, j as int),
        decreases fields.len() - j,
    {
        let k = fields[j].role.role_kind();
        if k == RoleKind::RequiredPositional || k == RoleKind::OptionalPositional {
            let ghost before = positional_views(r@);
            let p = PositionalDef {
                name: fields[j].ident.clone(),
                required: k == RoleKind::RequiredPositional,
                desc: fields[j].desc.clone(),
            };
            let ghost pv = p@;
            r.push(p);
            assert(positional_views(r@) =~= before.push(pv));
        }
        j += 1;
    }
    r
}

fn any_rest(fields: &[ClassifiedField]) -> (r: bool)
    ensures
        r == has_rest_field(classified_views(fields@)),
{
    let ghost fs = classified_views(fields@);
    let mut j: usize = 0;
    while j < fields.len()
        invariant
            fs == classified_views(fields@),
            0 <= j <= fields@.len(),
            forall|k: int| 0 <= k < j ==> #[trigger] fs[k].kind != RoleKind::Rest,
        decreases fields.len() - j,
    {
        if fields[j].role.role_kind() == RoleKind::Rest {
            assert(fs[j as int].kind == RoleKind::Rest);
            return true;
        }
        j += 1;
    }
    false
}

fn gen_slots(fields: &[ClassifiedField]) -> (r: Vec<Slot>)
    ensures
        slot_views(r@) == spec_slots(classified_views(fields@)),
        forall|j: int, i: int|
            0 <= j < r@.len() && 0 <= i < r@[j].resets@.len() ==> #[trigger] r@[j].resets@[i]
                < r@.len(),
{
    let ghost fs = classified_views(fields@);
    let mut r: Vec<Slot> = Vec::new();
    let mut j: usize = 0;
    while j < fields.len()
        invariant
            fs == classified_views(fields@),
            0 <= j <= fields@.len(),
            slot_views(r@) == spec_slots(fs).take(j as int),
            r@.len() == j,
            forall|a: int, i: int|
                0 <= a < r@.len() && 0 <= i < r@[a].resets@.len() ==> #[trigger] r@[a].resets@[i]
                    < fields@.len(),
        decreases fields.len() - j,
    {
        let ghost before = slot_views(r@);
        let resets = match fields[j].role.flag_attrs() {
            Some(a) => gen_resets(fields, &a.clears),
            None => {
                let v: Vec<usize> = Vec::new();
                assert(v@.map_values(|x: usize| x as int) =~= seq![]);
                v
            },
        };
        let s = Slot {
            ident: fields[j].ident.clone(),
            kind: fields[j].role.role_kind(),
            id: fields[j].id,
            resets,
        };
        let ghost sv = s@;
        assert(sv == spec_slot(fs, j as int));
        r.push(s);
        assert(slot_views(r@) =~= before.push(sv));
        j += 1;
        assert(spec_slots(fs).take(j as int) =~= spec_slots(fs).take(j - 1).push(sv));
    }
    assert(spec_slots(fs).take(fields@.len() as int) =~= spec_slots(fs));
    r
}

fn style_is_gnu(cmd: &CommandAttrs) -> (r: bool)
    ensures
        r == is_gnu(cmd@),
{
    let s = string_chars(&cmd.style);
    let g = chars_of("gnu");
    chars_eq(s.as_slice(), g.as_slice())
}

/// The command's metadata, as [`spec_def`] says.
pub fn gen_meta(cmd: &CommandAttrs, sections: &DocSections, fields: &[ClassifiedField]) -> (r:
    CommandDef)
    ensures
        r@ == spec_def(cmd@, sections@, classified_views(fields@)),
{
    let gnu = style_is_gnu(cmd);
    CommandDef {
        name: cmd.name.clone(),
        about: sections.about.clone(),
        short_doc: cmd.short_doc.clone(),
        style: if gnu {
            Style::Gnu
        } else {
            Style::Posix
        },
        on_unknown: if cmd.lenient {
            OnUnknown::PassThrough
        } else {
            OnUnknown::Reject
        },
        flags: gen_flag_metas(fields, gnu),
        positionals: gen_positional_metas(fields),
        has_rest: any_rest(fields),
        tags: clone_pairs(&cmd.tags),
        description: clone_strings(&sections.description),
        extra: if cmd.extra_help.len() == 0 {
            clone_strings(&sections.extra)
        } else {
            clone_strings(&cmd.extra_help)
        },
        exit_status: clone_strings(&sections.exit_status),
    }
}


// ── The whole expansion ─────────────────────────────────────────

/// What kind of item the derive was applied to.
#[derive(Debug, Clone, Copy, PartialEq, Eq, Structural)]
pub enum ItemShape {
    /// A struct with named fields.
    NamedStruct,
    /// A tuple or unit struct.
    UnnamedStruct,
    /// An enum or a union.
    NotStruct,
}

/// A struct definition, as the macro front end reads it.
#[derive(Debug, Clone, PartialEq, Eq)]
pub struct CommandInput {
    /// The entries of its `#[command(...)]` attributes, in order.
    pub attrs: Vec<AttrEntry>,
    /// Its raw `#[doc]` strings.
    pub doc: Vec<String>,
    /// What kind of item it is.
    pub shape: ItemShape,
    /// Its fields, in order (empty unless a struct with named fields).
    pub fields: Vec<FieldInfo>,
}

/// The plan of a struct definition, or the first reason it is refused:
/// malformed `#[command]` attributes or no name, not a struct with named
/// fields, a malformed `#[flag]`, then the checks of [`spec_validate`].
pub open spec fn spec_expand(input: CommandInput) -> Result<PlanView, DeriveErrorView> {
    match spec_command_attrs(input.attrs@) {
        Err(x) => Err(x),
        Ok(cmd) => if input.shape == ItemShape::NotStruct {
            Err(DeriveErrorView::NotStruct)
        } else if input.shape == ItemShape::UnnamedStruct {
            Err(DeriveErrorView::NotNamedStruct)
        } else {
            match spec_classify_all(input.fields@, input.fields@.len() as int) {
                Err(x) => Err(x),
                Ok(fs) => match spec_validate(fs) {
                    Some(x) => Err(x),
                    None => Ok(
                        spec_plan(
                            cmd,
                            spec_sections(doc_lines(string_views(input.doc@))),
                            fs,
                        ),
                    ),
                },
            }
        },
    }
}

/// Whether every reset of every slot names a slot.
pub open spec fn resets_in_range(slots: Seq<SlotView>) -> bool {
    forall|j: int, i: int|
        0 <= j < slots.len() && 0 <= i < slots[j].resets.len() ==> 0 <= #[trigger] slots[j].resets[i]
            < slots.len()
}

/// Plans a command from its struct definition, as [`spec_expand`] says.
pub fn expand(input: &CommandInput) -> (r: Result<CommandPlan, DeriveError>)
    ensures
        match r {
            Ok(p) => spec_expand(*input) == Ok::<PlanView, DeriveErrorView>(p@) && resets_in_range(
                p@.slots,
            ),
            Err(x) => spec_expand(*input) == Err::<PlanView, DeriveErrorView>(x@),
        },
{
    let cmd = CommandAttrs::from_entries(input.attrs.as_slice())?;
    let sections = extract_doc_sections(input.doc.as_slice());
    match input.shape {
        ItemShape::NotStruct => {
            return Err(DeriveError::NotStruct);
        },
        ItemShape::UnnamedStruct => {
            return Err(DeriveError::NotNamedStruct);
        },
        ItemShape::NamedStruct => {},
    }
    let fields = classify_all(input.fields.as_slice())?;
    validate(fields.as_slice())?;
    let gnu = style_is_gnu(&cmd);
    let def = gen_meta(&cmd, &sections, fields.as_slice());
    let mut flags = gen_flag_metas(fields.as_slice(), gnu);
    let ghost fv = flag_def_views(flags@);
    let mut noops = noop_defs(&cmd.noop);
    let ghost nv = flag_def_views(noops@);
    flags.append(&mut noops);
    assert(flag_def_views(flags@) =~= fv + nv);
    let slots = gen_slots(fields.as_slice());
    let plan = CommandPlan { def, flags, permute: !cmd.no_permute, slots };
    assert(forall|j: int| 0 <= j < plan.slots@.len() ==> (#[trigger] slot_views(plan.slots@)[j]).resets
        == plan.slots@[j].resets@.map_values(|x: usize| x as int));
    Ok(plan)
}

} // verus!
