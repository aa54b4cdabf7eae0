//! From a struct definition to a command plan: classification of every field,
//! the checks that refuse a definition, and the flag and help tables.

use vstd::prelude::*;

use crate::derive::attrs::{
    doc_lines, spec_flag_attrs, AttrEntry, FlagAttrs, FlagAttrsView, extract_doc_comment,
};
use crate::derive::classify::{classify_field, is_flag_kind, opt_str_view, spec_classify, FieldRole, RoleKind};
use crate::derive::error::{DeriveError, DeriveErrorView};
use crate::text::{spec_join, spec_trim, string_views};

verus! {

/// A field of the struct, as the macro front end reads it.
#[derive(Debug, Clone, PartialEq, Eq)]
pub struct FieldInfo {
    /// The field's name.
    pub ident: String,
    /// The last segment of its type's path (`bool`, `Option`, `Vec`, ...), or empty.
    pub ty: String,
    /// The last segment of its first type argument, if there is one.
    pub inner: Option<String>,
    /// The entries of its `#[flag(...)]` attribute, if it has one.
    pub flag: Option<Vec<AttrEntry>>,
    /// Its raw `#[doc]` strings.
    pub doc: Vec<String>,
}

/// Classified field with its role pre-computed.
#[derive(Debug, Clone, PartialEq, Eq)]
pub struct ClassifiedField {
    pub ident: String,
    pub role: FieldRole,
    pub desc: String,
    /// Identity char: the short flag, or a private-use codepoint for long-only.
    pub id: char,
}

/// The content of a [`ClassifiedField`].
pub struct ClassifiedView {
    pub ident: Seq<char>,
    pub kind: RoleKind,
    pub attrs: Option<FlagAttrsView>,
    pub desc: Seq<char>,
    pub id: char,
}

/// The view of optional flag attributes.
pub open spec fn opt_attrs_view(a: Option<FlagAttrs>) -> Option<FlagAttrsView> {
    match a {
        Some(x) => Some(x@),
        None => None,
    }
}

impl View for ClassifiedField {
    type V = ClassifiedView;

    open spec fn view(&self) -> ClassifiedView {
        ClassifiedView {
            ident: self.ident@,
            kind: self.role.kind(),
            attrs: opt_attrs_view(self.role.attrs()),
            desc: self.desc@,
            id: self.id,
        }
    }
}

/// The views of classified fields.
pub open spec fn classified_views(v: Seq<ClassifiedField>) -> Seq<ClassifiedView> {
    v.map_values(|c: ClassifiedField| c@)
}

/// A flag's identity char: its short, or for a long-only flag the
/// private-use character `U+E000 + index` (`U+E000` when that is past the
/// last character); `'\0'` for a field that is not a flag.
pub open spec fn spec_field_id(attrs: Option<FlagAttrsView>, index: int) -> char {
    match attrs {
        Some(a) => if a.short != '\0' {
            a.short
        } else if 0xE000 + index <= 0x10FFFF {
            (0xE000 + index) as char
        } else {
            '\u{E000}'
        },
        None => '\0',
    }
}

/// The character with code `i`.
///
/// Trusted: calls `char::from_u32`, which std documents as returning `None`
/// exactly for surrogates and values past `char::MAX`, and the `char` with
/// that code otherwise.
#[verifier::external_body]
fn char_from_u32(i: u32) -> (r: Option<char>)
    ensures
        (i <= 0x10FFFF && !(0xD800 <= i <= 0xDFFF)) ==> r == Some(i as char),
        (i > 0x10FFFF || (0xD800 <= i <= 0xDFFF)) ==> r is None,
{
    char::from_u32(i)
}

/// A flag's identity char, as [`spec_field_id`] says.
pub fn field_id(role: &FieldRole, index: usize) -> (c: char)
    ensures
        c == spec_field_id(opt_attrs_view(role.attrs()), index as int),
{
    match role.flag_attrs() {
        Some(a) => {
            if a.short != '\0' {
                a.short
            } else if index <= 0x10FFFF - 0xE000 {
                let code: u32 = (0xE000 + index) as u32;
                match char_from_u32(code) {
                    Some(c) => c,
                    None => '\u{E000}',
                }
            } else {
                '\u{E000}'
            }
        },
        None => '\0',
    }
}

/// The `Option` of a string's characters.
pub open spec fn opt_string_chars(o: Option<String>) -> Option<Seq<char>> {
    match o {
        Some(s) => Some(s@),
        None => None,
    }
}

/// The classification of field `i`, or why it is refused.
pub open spec fn spec_classify_one(f: FieldInfo, i: int) -> Result<ClassifiedView, DeriveErrorView> {
    let attrs: Result<Option<FlagAttrsView>, DeriveErrorView> = match f.flag {
        Some(entries) => match spec_flag_attrs(entries@) {
            Ok(a) => Ok(Some(a)),
            Err(x) => Err(x),
        },
        None => Ok(None),
    };
    match attrs {
        Ok(a) => Ok(
            ClassifiedView {
                ident: f.ident@,
                kind: spec_classify(a is Some, f.ty@, opt_string_chars(f.inner)),
                attrs: a,
                desc: spec_trim(spec_join(doc_lines(string_views(f.doc@)), seq!['\n'])),
                id: spec_field_id(a, i),
            },
        ),
        Err(x) => Err(x),
    }
}

/// The classification of the first `n` fields, or the first refusal.
pub open spec fn spec_classify_all(fields: Seq<FieldInfo>, n: int) -> Result<
    Seq<ClassifiedView>,
    DeriveErrorView,
>
    decreases n,
{
    if n <= 0 || n > fields.len() {
        Ok(seq![])
    } else {
        match spec_classify_all(fields, n - 1) {
            Ok(done) => match spec_classify_one(fields[n - 1], n - 1) {
                Ok(c) => Ok(done.push(c)),
                Err(x) => Err(x),
            },
            Err(x) => Err(x),
        }
    }
}

proof fn lemma_classify_error_sticks(fields: Seq<FieldInfo>, m: int, n: int)
    requires
        0 <= m <= n <= fields.len(),
        spec_classify_all(fields, m) is Err,
    ensures
        spec_classify_all(fields, n) == spec_classify_all(fields, m),
    decreases n - m,
{
    if m < n {
        lemma_classify_error_sticks(fields, m, n - 1);
    }
}

fn opt_as_str(o: &Option<String>) -> (r: Option<&str>)
    ensures
        opt_str_view(r) == opt_string_chars(*o),
{
    match o {
        Some(s) => Some(s.as_str()),
        None => None,
    }
}

fn classify_one(f: &FieldInfo, i: usize) -> (r: Result<ClassifiedField, DeriveError>)
    ensures
        match r {
            Ok(c) => spec_classify_one(*f, i as int) == Ok::<ClassifiedView, DeriveErrorView>(c@),
            Err(x) => spec_classify_one(*f, i as int) == Err::<ClassifiedView, DeriveErrorView>(
                x@,
            ),
        },
{
    let attrs = match &f.flag {
        Some(entries) => Some(FlagAttrs::from_entries(entries.as_slice())?),
        None => None,
    };
    let ghost av = opt_attrs_view(attrs);
    let role = classify_field(attrs, f.ty.as_str(), opt_as_str(&f.inner));
    let desc = extract_doc_comment(f.doc.as_slice());
    let id = field_id(&role, i);
    Ok(ClassifiedField { ident: f.ident.clone(), role, desc, id })
}

/// Classifies every field in order; refused at the first malformed `#[flag]`.
pub fn classify_all(fields: &[FieldInfo]) -> (r: Result<Vec<ClassifiedField>, DeriveError>)
    ensures
        match r {
            Ok(cs) => spec_classify_all(fields@, fields@.len() as int) == Ok::<
                Seq<ClassifiedView>,
                DeriveErrorView,
            >(classified_views(cs@)),
            Err(x) => spec_classify_all(fields@, fields@.len() as int) == Err::<
                Seq<ClassifiedView>,
                DeriveErrorView,
            >(x@),
        },
{
    let mut out: Vec<ClassifiedField> = Vec::new();
    let mut i: usize = 0;
    assert(classified_views(out@) =~= seq![]);
    while i < fields.len()
        invariant
            0 <= i <= fields@.len(),
            spec_classify_all(fields@, i as int) == Ok::<Seq<ClassifiedView>, DeriveErrorView>(
                classified_views(out@),
            ),
        decreases fields.len() - i,
    {
        let ghost before = classified_views(out@);
        match classify_one(&fields[i], i) {
            Ok(c) => {
                let ghost cv = c@;
                out.push(c);
                assert(classified_views(out@) =~= before.push(cv));
            },
            Err(x) => {
                proof {
                    lemma_classify_error_sticks(fields@, i + 1, fields@.len() as int);
                }
                return Err(x);
            },
        }
        i += 1;
    }
    Ok(out)
}


// ── Validation ──────────────────────────────────────────────────

/// Whether field `j` repeats the identity char of an earlier flag.
pub open spec fn repeats_id(fs: Seq<ClassifiedView>, j: int) -> bool {
    fs[j].id != '\0' && exists|i: int| 0 <= i < j && fs[i].id == fs[j].id
}

/// The first field, at `j` or later, that repeats an earlier flag's char.
pub open spec fn first_repeat_from(fs: Seq<ClassifiedView>, j: int) -> Option<int>
    decreases fs.len() - j,
{
    if j < 0 || j >= fs.len() {
        None
    } else if repeats_id(fs, j) {
        Some(j)
    } else {
        first_repeat_from(fs, j + 1)
    }
}

/// The first field, at `j` or later, of role `k`.
pub open spec fn first_kind_from(fs: Seq<ClassifiedView>, k: RoleKind, j: int) -> Option<int>
    decreases fs.len() - j,
{
    if j < 0 || j >= fs.len() {
        None
    } else if fs[j].kind == k {
        Some(j)
    } else {
        first_kind_from(fs, k, j + 1)
    }
}

/// The first field after the `Operands` field, if any.
pub open spec fn after_operands(fs: Seq<ClassifiedView>) -> Option<int> {
    match first_kind_from(fs, RoleKind::Rest, 0) {
        Some(r) => if r + 1 < fs.len() {
            Some(r + 1)
        } else {
            None
        },
        None => None,
    }
}

/// The first required positional after an optional one, if any.
pub open spec fn required_after_optional(fs: Seq<ClassifiedView>) -> Option<int> {
    match first_kind_from(fs, RoleKind::OptionalPositional, 0) {
        Some(o) => first_kind_from(fs, RoleKind::RequiredPositional, o + 1),
        None => None,
    }
}

/// Whether `name` is the name of a flag field.
pub open spec fn is_flag_name(fs: Seq<ClassifiedView>, name: Seq<char>) -> bool {
    exists|k: int| 0 <= k < fs.len() && is_flag_kind(fs[k].kind) && #[trigger] fs[k].ident == name
}

/// The names that a field's `clears(...)` lists.
pub open spec fn clears_of(f: ClassifiedView) -> Seq<Seq<char>> {
    match f.attrs {
        Some(a) => a.clears,
        None => seq![],
    }
}

/// What is wrong with the `m`-th and later `clears` targets of field `j`.
pub open spec fn clears_problem_at(fs: Seq<ClassifiedView>, j: int, m: int) -> Option<DeriveErrorView>
    decreases clears_of(fs[j]).len() - m,
{
    let ts = clears_of(fs[j]);
    if m < 0 || m >= ts.len() {
        None
    } else if ts[m] == fs[j].ident {
        Some(DeriveErrorView::ClearsItself { field: j as nat, target: ts[m] })
    } else if !is_flag_name(fs, ts[m]) {
        Some(DeriveErrorView::ClearsNonFlag { field: j as nat, target: ts[m] })
    } else {
        clears_problem_at(fs, j, m + 1)
    }
}

/// The first bad `clears` target of field `j` or a later field.
pub open spec fn clears_problem_from(fs: Seq<ClassifiedView>, j: int) -> Option<DeriveErrorView>
    decreases fs.len() - j,
{
    if j < 0 || j >= fs.len() {
        None
    } else {
        match clears_problem_at(fs, j, 0) {
            Some(x) => Some(x),
            None => clears_problem_from(fs, j + 1),
        }
    }
}

/// Why the classified fields are refused, checks in order: a repeated flag
/// char, a field after `Operands`, a required positional after an optional
/// one, a `clears` naming the flag itself or something that is not a flag.
pub open spec fn spec_validate(fs: Seq<ClassifiedView>) -> Option<DeriveErrorView> {
    match first_repeat_from(fs, 0) {
        Some(j) => Some(DeriveErrorView::DuplicateFlag { field: j as nat, id: fs[j].id }),
        None => match after_operands(fs) {
            Some(j) => Some(DeriveErrorView::FieldAfterOperands { field: j as nat }),
            None => match required_after_optional(fs) {
                Some(j) => Some(DeriveErrorView::RequiredAfterOptional { field: j as nat }),
                None => clears_problem_from(fs, 0),
            },
        },
    }
}

fn check_duplicate_flags(fields: &[ClassifiedField]) -> (r: Result<(), DeriveError>)
    ensures
        match r {
            Ok(_) => first_repeat_from(classified_views(fields@), 0) is None,
            Err(x) => exists|j: int|
                first_repeat_from(classified_views(fields@), 0) == Some(j) && x@
                    == (DeriveErrorView::DuplicateFlag {
                    field: j as nat,
                    id: classified_views(fields@)[j].id,
                }),
        },
{
    let ghost fs = classified_views(fields@);
    let mut j: usize = 0;
    while j < fields.len()
        invariant
            fs == classified_views(fields@),
            0 <= j <= fields@.len(),
            first_repeat_from(fs, 0) == first_repeat_from(fs, j as int),
        decreases fields.len() - j,
    {
        let id = fields[j].id;
        assert(id == fs[j as int].id);
        if id != '\0' {
            let mut i: usize = 0;
            while i < j
                invariant
                    fs == classified_views(fields@),
                    0 <= i <= j < fields@.len(),
                    id == fs[j as int].id,
                    id != '\0',
                    first_repeat_from(fs, 0) == first_repeat_from(fs, j as int),
                    forall|k: int| 0 <= k < i ==> fs[k].id != id,
                decreases j - i,
            {
                let other = fields[i].id;
                assert(other == fs[i as int].id);
                if other == id {
                    assert(fs[i as int].id == fs[j as int].id);
                    assert(repeats_id(fs, j as int));
                    return Err(DeriveError::DuplicateFlag { field: j, id });
                }
                i += 1;
            }
        }
        assert(!repeats_id(fs, j as int));
        j += 1;
    }
    Ok(())
}

fn first_kind(fields: &[ClassifiedField], k: RoleKind, from: usize) -> (r: Option<usize>)
    ensures
        match r {
            Some(j) => j < fields@.len() && first_kind_from(classified_views(fields@), k, from as int)
                == Some(j as int),
            None => first_kind_from(classified_views(fields@), k, from as int) is None,
        },
{
    let ghost fs = classified_views(fields@);
    let mut j = from;
    if j > fields.len() {
        return None;
    }
    while j < fields.len()
        invariant
            fs == classified_views(fields@),
            from <= j <= fields@.len(),
            first_kind_from(fs, k, from as int) == first_kind_from(fs, k, j as int),
        decreases fields.len() - j,
    {
        if fields[j].role.role_kind() == k {
            return Some(j);
        }
        j += 1;
    }
    None
}

fn check_operands_last(fields: &[ClassifiedField]) -> (r: Result<(), DeriveError>)
    ensures
        match r {
            Ok(_) => after_operands(classified_views(fields@)) is None,
            Err(x) => exists|j: int|
                after_operands(classified_views(fields@)) == Some(j) && x@
                    == (DeriveErrorView::FieldAfterOperands { field: j as nat }),
        },
{
    match first_kind(fields, RoleKind::Rest, 0) {
        Some(r) => {
            assert(r < fields.len());
            if r + 1 < fields.len() {
                Err(DeriveError::FieldAfterOperands { field: r + 1 })
            } else {
                Ok(())
            }
        },
        None => Ok(()),
    }
}

fn check_positional_ordering(fields: &[ClassifiedField]) -> (r: Result<(), DeriveError>)
    ensures
        match r {
            Ok(_) => required_after_optional(classified_views(fields@)) is None,
            Err(x) => exists|j: int|
                required_after_optional(classified_views(fields@)) == Some(j) && x@
                    == (DeriveErrorView::RequiredAfterOptional { field: j as nat }),
        },
{
    match first_kind(fields, RoleKind::OptionalPositional, 0) {
        Some(o) => {
            assert(o < fields.len());
            match first_kind(fields, RoleKind::RequiredPositional, o + 1) {
                Some(j) => Err(DeriveError::RequiredAfterOptional { field: j }),
                None => Ok(()),
            }
        },
        None => Ok(()),
    }
}

fn flag_name_exists(fields: &[ClassifiedField], name: &String) -> (r: bool)
    ensures
        r == is_flag_name(classified_views(fields@), name@),
{
    let ghost fs = classified_views(fields@);
    let target = crate::text::string_chars(name);
    let mut k: usize = 0;
    while k < fields.len()
        invariant
            fs == classified_views(fields@),
            target@ == name@,
            0 <= k <= fields@.len(),
            forall|i: int| 0 <= i < k ==> !(is_flag_kind(fs[i].kind) && #[trigger] fs[i].ident == name@),
        decreases fields.len() - k,
    {
        let kind = fields[k].role.role_kind();
        let is_flag = kind == RoleKind::BoolFlag || kind == RoleKind::PolarityFlag || kind
            == RoleKind::ValuedFlag || kind == RoleKind::RepeatableValueFlag || kind
            == RoleKind::PolarValueFlag;
        if is_flag {
            let id = crate::text::string_chars(&fields[k].ident);
            if crate::text::chars_eq(id.as_slice(), target.as_slice()) {
                assert(fs[k as int].ident == name@);
                return true;
            }
        }
        k += 1;
    }
    false
}

fn check_clears_targets(fields: &[ClassifiedField]) -> (r: Result<(), DeriveError>)
    ensures
        match r {
            Ok(_) => clears_problem_from(classified_views(fields@), 0) is None,
            Err(x) => clears_problem_from(classified_views(fields@), 0) == Some(x@),
        },
{
    let ghost fs = classified_views(fields@);
    let mut j: usize = 0;
    while j < fields.len()
        invariant
            fs == classified_views(fields@),
            0 <= j <= fields@.len(),
            clears_problem_from(fs, 0) == clears_problem_from(fs, j as int),
        decreases fields.len() - j,
    {
        let f = &fields[j];
        match f.role.flag_attrs() {
            Some(a) => {
                let ghost ts = clears_of(fs[j as int]);
                assert(ts == string_views(a.clears@));
                let own = crate::text::string_chars(&f.ident);
                let mut m: usize = 0;
                while m < a.clears.len()
                    invariant
                        fs == classified_views(fields@),
                        0 <= j < fields@.len(),
                        ts == clears_of(fs[j as int]),
                        ts == string_views(a.clears@),
                        own@ == fs[j as int].ident,
                        clears_problem_from(fs, 0) == clears_problem_from(fs, j as int),
                        0 <= m <= ts.len(),
                        clears_problem_at(fs, j as int, 0) == clears_problem_at(fs, j as int, m as int),
                    decreases a.clears.len() - m,
                {
                    let t = &a.clears[m];
                    let tv = crate::text::string_chars(t);
                    assert(tv@ == ts[m as int]);
                    if crate::text::chars_eq(tv.as_slice(), own.as_slice()) {
                        assert(clears_problem_at(fs, j as int, m as int) == Some(
                            DeriveErrorView::ClearsItself { field: j as nat, target: ts[m as int] },
                        ));
                        return Err(DeriveError::ClearsItself { field: j, target: t.clone() });
                    }
                    if !flag_name_exists(fields, t) {
                        return Err(DeriveError::ClearsNonFlag { field: j, target: t.clone() });
                    }
                    m += 1;
                }
            },
            None => {},
        }
        j += 1;
    }
    Ok(())
}

/// Checks the classified fields, as [`spec_validate`] says.
pub fn validate(fields: &[ClassifiedField]) -> (r: Result<(), DeriveError>)
    ensures
        match r {
            Ok(_) => spec_validate(classified_views(fields@)) is None,
            Err(x) => spec_validate(classified_views(fields@)) == Some(x@),
        },
{
    check_duplicate_flags(fields)?;
    check_operands_last(fields)?;
    check_positional_ordering(fields)?;
    check_clears_targets(fields)
}


// ── What a validated definition is ─────────────────────────────

proof fn lemma_no_repeat_after(fs: Seq<ClassifiedView>, j: int, k: int)
    requires
        0 <= j <= k < fs.len(),
        first_repeat_from(fs, j) is None,
    ensures
        !repeats_id(fs, k),
    decreases k - j,
{
    if j < k {
        lemma_no_repeat_after(fs, j + 1, k);
    }
}

proof fn lemma_first_kind_none(fs: Seq<ClassifiedView>, kind: RoleKind, j: int, k: int)
    requires
        0 <= j <= k < fs.len(),
        first_kind_from(fs, kind, j) is None,
    ensures
        fs[k].kind != kind,
    decreases k - j,
{
    if j < k {
        lemma_first_kind_none(fs, kind, j + 1, k);
    }
}

proof fn lemma_first_kind_some(fs: Seq<ClassifiedView>, kind: RoleKind, j: int, r: int, k: int)
    requires
        0 <= j,
        first_kind_from(fs, kind, j) == Some(r),
    ensures
        j <= r < fs.len(),
        fs[r].kind == kind,
        j <= k < r ==> fs[k].kind != kind,
    decreases fs.len() - j,
{
    if fs[j].kind != kind {
        lemma_first_kind_some(fs, kind, j + 1, r, k);
    }
}

proof fn lemma_clears_fine_at(fs: Seq<ClassifiedView>, j: int, m: int, n: int)
    requires
        0 <= j < fs.len(),
        0 <= m <= n < clears_of(fs[j]).len(),
        clears_problem_at(fs, j, m) is None,
    ensures
        clears_of(fs[j])[n] != fs[j].ident,
        is_flag_name(fs, clears_of(fs[j])[n]),
    decreases n - m,
{
    if m < n {
        lemma_clears_fine_at(fs, j, m + 1, n);
    }
}

proof fn lemma_clears_fine_from(fs: Seq<ClassifiedView>, j: int, k: int)
    requires
        0 <= j <= k < fs.len(),
        clears_problem_from(fs, j) is None,
    ensures
        clears_problem_at(fs, k, 0) is None,
    decreases k - j,
{
    if j < k {
        lemma_clears_fine_from(fs, j + 1, k);
    }
}

/// A definition that passes the checks has distinct flag chars, the
/// `Operands` field (if any) last, no required positional after an optional
/// one, and every `clears` target naming another flag field.
pub proof fn lemma_validated_fields(fs: Seq<ClassifiedView>)
    requires
        spec_validate(fs) is None,
    ensures
        forall|i: int, j: int|
            0 <= i < j < fs.len() && fs[j].id != '\0' ==> #[trigger] fs[i].id != #[trigger] fs[j].id,
        forall|r: int| 0 <= r < fs.len() && #[trigger] fs[r].kind == RoleKind::Rest ==> r == fs.len() - 1,
        forall|o: int, q: int|
            0 <= o < q < fs.len() && #[trigger] fs[o].kind == RoleKind::OptionalPositional
                ==> #[trigger] fs[q].kind != RoleKind::RequiredPositional,
        forall|j: int, m: int|
            0 <= j < fs.len() && 0 <= m < clears_of(fs[j]).len() ==> {
                &&& #[trigger] clears_of(fs[j])[m] != fs[j].ident
                &&& is_flag_name(fs, clears_of(fs[j])[m])
            },
{
    assert forall|i: int, j: int|
        0 <= i < j < fs.len() && fs[j].id != '\0' implies #[trigger] fs[i].id != #[trigger] fs[j].id by {
        lemma_no_repeat_after(fs, 0, j);
    }
    assert forall|r: int| 0 <= r < fs.len() && #[trigger] fs[r].kind == RoleKind::Rest implies r
        == fs.len() - 1 by {
        match first_kind_from(fs, RoleKind::Rest, 0) {
            Some(f) => {
                lemma_first_kind_some(fs, RoleKind::Rest, 0, f, r);
            },
            None => {
                lemma_first_kind_none(fs, RoleKind::Rest, 0, r);
            },
        }
    }
    assert forall|o: int, q: int|
        0 <= o < q < fs.len() && #[trigger] fs[o].kind == RoleKind::OptionalPositional
            implies #[trigger] fs[q].kind != RoleKind::RequiredPositional by {
        match first_kind_from(fs, RoleKind::OptionalPositional, 0) {
            Some(f) => {
                lemma_first_kind_some(fs, RoleKind::OptionalPositional, 0, f, o);
                lemma_first_kind_none(fs, RoleKind::RequiredPositional, f + 1, q);
            },
            None => {
                lemma_first_kind_none(fs, RoleKind::OptionalPositional, 0, o);
            },
        }
    }
    assert forall|j: int, m: int| 0 <= j < fs.len() && 0 <= m < clears_of(fs[j]).len() implies {
        &&& #[trigger] clears_of(fs[j])[m] != fs[j].ident
        &&& is_flag_name(fs, clears_of(fs[j])[m])
    } by {
        lemma_clears_fine_from(fs, 0, j);
        lemma_clears_fine_at(fs, j, 0, m);
    }
}

} // verus!
