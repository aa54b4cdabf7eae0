//! Attribute values for `#[command(...)]` and `#[flag(...)]`, and doc comments
//! split into help sections.

use vstd::prelude::*;

use crate::derive::error::{DeriveError, DeriveErrorView};
use crate::text::{string_views, spec_join, join_strings, chars_eq, chars_of, push_char, push_chars, spec_trim, string_chars, string_of, trim};

verus! {

// ── Doc comment sections ───────────────────────────────────────

/// Parsed doc comment split into help sections.
#[derive(Debug, Clone, PartialEq, Eq)]
pub struct DocSections {
    /// The first paragraph, joined into one line.
    pub about: String,
    /// The paragraphs after the first, up to `# Options` or `# Exit Status`.
    pub description: Vec<String>,
    /// The lines under `# Options`.
    pub extra: Vec<String>,
    /// The lines under `# Exit Status`.
    pub exit_status: Vec<String>,
}

/// The content of [`DocSections`], by characters.
pub struct DocSectionsView {
    pub about: Seq<char>,
    pub description: Seq<Seq<char>>,
    pub extra: Seq<Seq<char>>,
    pub exit_status: Seq<Seq<char>>,
}

impl View for DocSections {
    type V = DocSectionsView;

    open spec fn view(&self) -> DocSectionsView {
        DocSectionsView {
            about: self.about@,
            description: string_views(self.description@),
            extra: string_views(self.extra@),
            exit_status: string_views(self.exit_status@),
        }
    }
}

/// Which section the doc comment reader is in.
#[derive(Debug, Clone, Copy, PartialEq, Eq, Structural)]
pub enum DocState {
    About,
    Description,
    Extra,
    ExitStatus,
}

/// The reader's state after some lines.
pub struct SectionsState {
    pub about: Seq<char>,
    pub description: Seq<Seq<char>>,
    pub extra: Seq<Seq<char>>,
    pub exit_status: Seq<Seq<char>>,
    pub state: DocState,
    pub past_about_blank: bool,
}

/// The state before any line.
pub open spec fn sections_start() -> SectionsState {
    SectionsState {
        about: seq![],
        description: seq![],
        extra: seq![],
        exit_status: seq![],
        state: DocState::About,
        past_about_blank: false,
    }
}

/// What one (trimmed) line does: `# Options` and `# Exit Status` switch
/// section; the first paragraph's lines join into `about` with single
/// spaces; the first non-blank line after a blank one starts the
/// description; every other line is kept in the current section.
pub open spec fn section_step(st: SectionsState, line: Seq<char>) -> SectionsState {
    let t = spec_trim(line);
    if t == "# Options"@ {
        SectionsState { state: DocState::Extra, ..st }
    } else if t == "# Exit Status"@ {
        SectionsState { state: DocState::ExitStatus, ..st }
    } else {
        match st.state {
            DocState::About => if t.len() == 0 {
                if st.about.len() > 0 {
                    SectionsState { past_about_blank: true, ..st }
                } else {
                    st
                }
            } else if st.past_about_blank {
                SectionsState { state: DocState::Description, description: st.description.push(t), ..st }
            } else if st.about.len() == 0 {
                SectionsState { about: t, ..st }
            } else {
                SectionsState { about: st.about + seq![' '] + t, ..st }
            },
            DocState::Description => SectionsState { description: st.description.push(t), ..st },
            DocState::Extra => SectionsState { extra: st.extra.push(t), ..st },
            DocState::ExitStatus => SectionsState { exit_status: st.exit_status.push(t), ..st },
        }
    }
}

/// The reader's state after the first `n` lines.
pub open spec fn sections_after(lines: Seq<Seq<char>>, n: int) -> SectionsState
    decreases n,
{
    if n <= 0 || n > lines.len() {
        sections_start()
    } else {
        section_step(sections_after(lines, n - 1), lines[n - 1])
    }
}

/// `s` without its trailing empty lines.
pub open spec fn spec_trim_trailing_empty(s: Seq<Seq<char>>) -> Seq<Seq<char>>
    decreases s.len(),
{
    if s.len() > 0 && s.last().len() == 0 {
        spec_trim_trailing_empty(s.drop_last())
    } else {
        s
    }
}

/// Trimming trailing empty lines keeps a prefix of the lines, drops only
/// empty lines, and leaves no empty line last.
pub proof fn lemma_trim_trailing_empty(s: Seq<Seq<char>>)
    ensures
        spec_trim_trailing_empty(s).len() <= s.len(),
        spec_trim_trailing_empty(s) == s.subrange(0, spec_trim_trailing_empty(s).len() as int),
        forall|i: int|
            spec_trim_trailing_empty(s).len() <= i < s.len() ==> (#[trigger] s[i]).len() == 0,
        spec_trim_trailing_empty(s).len() > 0 ==> spec_trim_trailing_empty(s).last().len() > 0,
    decreases s.len(),
{
    if s.len() > 0 && s.last().len() == 0 {
        let d = s.drop_last();
        lemma_trim_trailing_empty(d);
        let t = spec_trim_trailing_empty(d);
        assert(d.subrange(0, t.len() as int) =~= s.subrange(0, t.len() as int));
        assert forall|i: int| t.len() <= i < s.len() implies (#[trigger] s[i]).len() == 0 by {
            if i < d.len() {
                assert(s[i] == d[i]);
            }
        }
    } else {
        assert(s.subrange(0, s.len() as int) =~= s);
    }
}

/// The sections of a doc comment given by its lines.
pub open spec fn spec_sections(lines: Seq<Seq<char>>) -> DocSectionsView {
    let st = sections_after(lines, lines.len() as int);
    DocSectionsView {
        about: st.about,
        description: spec_trim_trailing_empty(st.description),
        extra: spec_trim_trailing_empty(st.extra),
        exit_status: spec_trim_trailing_empty(st.exit_status),
    }
}

/// Removes the empty lines at the end of `lines`.
pub fn trim_trailing_empty(lines: &mut Vec<String>)
    ensures
        string_views(final(lines)@) == spec_trim_trailing_empty(string_views(old(lines)@)),
{
    while lines.len() > 0 && lines[lines.len() - 1].as_str().is_empty()
        invariant
            spec_trim_trailing_empty(string_views(lines@)) == spec_trim_trailing_empty(
                string_views(old(lines)@),
            ),
        decreases lines.len(),
    {
        let ghost before = string_views(lines@);
        lines.pop();
        assert(string_views(lines@) =~= before.drop_last());
    }
}

fn string_from(v: &Vec<char>) -> (s: String)
    ensures
        s@ == v@,
{
    let s = string_of(v.as_slice(), 0, v.len());
    assert(v@.subrange(0, v@.len() as int) =~= v@);
    s
}

/// Splits doc comment lines into help sections.
pub fn parse_sections(lines: &[String]) -> (r: DocSections)
    ensures
        r@ == spec_sections(string_views(lines@)),
{
    let ghost lv = string_views(lines@);
    let options = chars_of("# Options");
    let exit_status_head = chars_of("# Exit Status");
    let mut about: Vec<char> = Vec::new();
    let mut description: Vec<String> = Vec::new();
    let mut extra: Vec<String> = Vec::new();
    let mut exit_status: Vec<String> = Vec::new();
    let mut state = DocState::About;
    let mut past_about_blank = false;
    let mut i: usize = 0;
    assert(string_views(description@) =~= seq![]);
    assert(string_views(extra@) =~= seq![]);
    assert(string_views(exit_status@) =~= seq![]);
    while i < lines.len()
        invariant
            lv == string_views(lines@),
            options@ == "# Options"@,
            exit_status_head@ == "# Exit Status"@,
            0 <= i <= lines@.len(),
            sections_after(lv, i as int) == (SectionsState {
                about: about@,
                description: string_views(description@),
                extra: string_views(extra@),
                exit_status: string_views(exit_status@),
                state,
                past_about_blank,
            }),
        decreases lines.len() - i,
    {
        let line = string_chars(&lines[i]);
        assert(line@ == lv[i as int]);
        let t = trim(&line);
        let ghost dv = string_views(description@);
        let ghost ev = string_views(extra@);
        let ghost xv = string_views(exit_status@);
        if chars_eq(t.as_slice(), options.as_slice()) {
            state = DocState::Extra;
        } else if chars_eq(t.as_slice(), exit_status_head.as_slice()) {
            state = DocState::ExitStatus;
        } else {
            match state {
                DocState::About => {
                    if t.len() == 0 {
                        if about.len() > 0 {
                            past_about_blank = true;
                        }
                    } else if past_about_blank {
                        state = DocState::Description;
                        description.push(string_from(&t));
                        assert(string_views(description@) =~= dv.push(t@));
                    } else if about.len() == 0 {
                        about = t;
                    } else {
                        let ghost a0 = about@;
                        about.push(' ');
                        let mut k: usize = 0;
                        while k < t.len()
                            invariant
                                0 <= k <= t@.len(),
                                about@ == a0 + seq![' '] + t@.subrange(0, k as int),
                            decreases t.len() - k,
                        {
                            about.push(crate::text::char_at(t.as_slice(), k));
                            k += 1;
                            assert(t@.subrange(0, k as int) == t@.subrange(0, k - 1).push(t@[k - 1]));
                        }
                        assert(t@.subrange(0, t@.len() as int) =~= t@);
                    }
                },
                DocState::Description => {
                    description.push(string_from(&t));
                    assert(string_views(description@) =~= dv.push(t@));
                },
                DocState::Extra => {
                    extra.push(string_from(&t));
                    assert(string_views(extra@) =~= ev.push(t@));
                },
                DocState::ExitStatus => {
                    exit_status.push(string_from(&t));
                    assert(string_views(exit_status@) =~= xv.push(t@));
                },
            }
        }
        i += 1;
    }
    trim_trailing_empty(&mut description);
    trim_trailing_empty(&mut extra);
    trim_trailing_empty(&mut exit_status);
    assert(lv.len() == lines@.len());
    DocSections { about: string_from(&about), description, extra, exit_status }
}


// ── Attribute arguments ─────────────────────────────────────────

/// A literal written in an attribute.
#[derive(Debug, Clone, PartialEq, Eq)]
pub enum AttrLit {
    /// A string literal's value.
    Str(String),
    /// A char literal's value.
    Char(char),
    /// Any other expression.
    Other,
}

/// One item of a parenthesized list `key(item, ...)`.
#[derive(Debug, Clone, PartialEq, Eq)]
pub enum ListItem {
    /// A bare identifier (keywords included).
    Ident(String),
    /// A string literal's value.
    Str(String),
    /// `ident = literal`.
    KeyValue(String, AttrLit),
    /// Anything else.
    Other,
}

/// What follows a key inside `#[command(...)]` or `#[flag(...)]`.
#[derive(Debug, Clone, PartialEq, Eq)]
pub enum AttrArg {
    /// Nothing: `key`.
    Bare,
    /// `key = literal`.
    Value(AttrLit),
    /// `key(items)`.
    List(Vec<ListItem>),
}

/// One `key ...` entry of an attribute, as written.
#[derive(Debug, Clone, PartialEq, Eq)]
pub struct AttrEntry {
    /// The key's identifier.
    pub key: String,
    /// What follows it.
    pub arg: AttrArg,
}

/// The string that `key = "..."` gives.
pub open spec fn spec_lit_str(e: AttrEntry) -> Result<Seq<char>, DeriveErrorView> {
    match e.arg {
        AttrArg::Value(AttrLit::Str(s)) => Ok(s@),
        AttrArg::Value(_) => Err(DeriveErrorView::ExpectedString(e.key@)),
        _ => Err(DeriveErrorView::ExpectedValue(e.key@)),
    }
}

/// The char that `key = '.'` gives.
pub open spec fn spec_lit_char(e: AttrEntry) -> Result<char, DeriveErrorView> {
    match e.arg {
        AttrArg::Value(AttrLit::Char(c)) => Ok(c),
        AttrArg::Value(_) => Err(DeriveErrorView::ExpectedChar(e.key@)),
        _ => Err(DeriveErrorView::ExpectedValue(e.key@)),
    }
}

/// Index of the first item of `items`, at `k` or later, that is not a string literal.
pub open spec fn first_non_str(items: Seq<ListItem>, k: int) -> Option<int>
    decreases items.len() - k,
{
    if k < 0 || k >= items.len() {
        None
    } else if items[k] is Str {
        first_non_str(items, k + 1)
    } else {
        Some(k)
    }
}

/// Index of the first item of `items`, at `k` or later, that is not an identifier.
pub open spec fn first_non_ident(items: Seq<ListItem>, k: int) -> Option<int>
    decreases items.len() - k,
{
    if k < 0 || k >= items.len() {
        None
    } else if items[k] is Ident {
        first_non_ident(items, k + 1)
    } else {
        Some(k)
    }
}

/// The text of a string or identifier item.
pub open spec fn item_text(item: ListItem) -> Seq<char> {
    match item {
        ListItem::Ident(s) => s@,
        ListItem::Str(s) => s@,
        _ => seq![],
    }
}

/// The texts of the items of a list.
pub open spec fn item_texts(items: Seq<ListItem>) -> Seq<Seq<char>> {
    items.map_values(|it: ListItem| item_text(it))
}

/// The strings that `key("...", ...)` gives.
pub open spec fn spec_list_strs(e: AttrEntry) -> Result<Seq<Seq<char>>, DeriveErrorView> {
    match e.arg {
        AttrArg::List(items) => match first_non_str(items@, 0) {
            None => Ok(item_texts(items@)),
            Some(_) => Err(DeriveErrorView::ExpectedString(e.key@)),
        },
        _ => Err(DeriveErrorView::ExpectedList(e.key@)),
    }
}

/// The identifiers that `key(a, b, ...)` gives.
pub open spec fn spec_list_idents(e: AttrEntry) -> Result<Seq<Seq<char>>, DeriveErrorView> {
    match e.arg {
        AttrArg::List(items) => match first_non_ident(items@, 0) {
            None => Ok(item_texts(items@)),
            Some(_) => Err(DeriveErrorView::ExpectedIdent(e.key@)),
        },
        _ => Err(DeriveErrorView::ExpectedList(e.key@)),
    }
}

/// The `(key, value)` that `tag(key)` or `tag(key = "value")` gives.
pub open spec fn spec_tag(e: AttrEntry) -> Result<(Seq<char>, Seq<char>), DeriveErrorView> {
    match e.arg {
        AttrArg::List(items) => if items@.len() == 0 {
            Err(DeriveErrorView::ExpectedIdent(e.key@))
        } else {
            match items@[0] {
                ListItem::Ident(k) => if items@.len() == 1 {
                    Ok((k@, seq![]))
                } else {
                    Err(DeriveErrorView::UnexpectedArgument(e.key@))
                },
                ListItem::KeyValue(k, AttrLit::Str(v)) => if items@.len() == 1 {
                    Ok((k@, v@))
                } else {
                    Err(DeriveErrorView::UnexpectedArgument(e.key@))
                },
                ListItem::KeyValue(_, _) => Err(DeriveErrorView::ExpectedString(e.key@)),
                _ => Err(DeriveErrorView::ExpectedIdent(e.key@)),
            }
        },
        _ => Err(DeriveErrorView::ExpectedList(e.key@)),
    }
}

/// Whether `key` alone, with nothing after it, was written.
pub open spec fn spec_bare(e: AttrEntry) -> Result<(), DeriveErrorView> {
    match e.arg {
        AttrArg::Bare => Ok(()),
        _ => Err(DeriveErrorView::UnexpectedArgument(e.key@)),
    }
}

fn key_is(e: &AttrEntry, word: &str) -> (r: bool)
    ensures
        r == (e.key@ == word@),
{
    let k = string_chars(&e.key);
    let w = chars_of(word);
    chars_eq(k.as_slice(), w.as_slice())
}

fn lit_str(e: &AttrEntry) -> (r: Result<String, DeriveError>)
    ensures
        match r {
            Ok(s) => spec_lit_str(*e) == Ok::<Seq<char>, DeriveErrorView>(s@),
            Err(x) => spec_lit_str(*e) == Err::<Seq<char>, DeriveErrorView>(x@),
        },
{
    match &e.arg {
        AttrArg::Value(AttrLit::Str(s)) => Ok(s.clone()),
        AttrArg::Value(_) => Err(DeriveError::ExpectedString(e.key.clone())),
        _ => Err(DeriveError::ExpectedValue(e.key.clone())),
    }
}

fn lit_char(e: &AttrEntry) -> (r: Result<char, DeriveError>)
    ensures
        match r {
            Ok(c) => spec_lit_char(*e) == Ok::<char, DeriveErrorView>(c),
            Err(x) => spec_lit_char(*e) == Err::<char, DeriveErrorView>(x@),
        },
{
    match &e.arg {
        AttrArg::Value(AttrLit::Char(c)) => Ok(*c),
        AttrArg::Value(_) => Err(DeriveError::ExpectedChar(e.key.clone())),
        _ => Err(DeriveError::ExpectedValue(e.key.clone())),
    }
}

fn bare(e: &AttrEntry) -> (r: Result<(), DeriveError>)
    ensures
        match r {
            Ok(_) => spec_bare(*e) is Ok,
            Err(x) => spec_bare(*e) == Err::<(), DeriveErrorView>(x@),
        },
{
    match &e.arg {
        AttrArg::Bare => Ok(()),
        _ => Err(DeriveError::UnexpectedArgument(e.key.clone())),
    }
}

/// Appends the texts of `items` to `out` when every item is a string
/// literal (`want_ident == false`) or every item is an identifier.
fn list_texts(items: &Vec<ListItem>, want_ident: bool, out: &mut Vec<String>) -> (ok: bool)
    ensures
        ok == (if want_ident {
            first_non_ident(items@, 0) is None
        } else {
            first_non_str(items@, 0) is None
        }),
        ok ==> string_views(final(out)@) == string_views(old(out)@) + item_texts(items@),
{
    let ghost start = string_views(out@);
    let mut k: usize = 0;
    while k < items.len()
        invariant
            0 <= k <= items@.len(),
            want_ident ==> first_non_ident(items@, 0) == first_non_ident(items@, k as int),
            !want_ident ==> first_non_str(items@, 0) == first_non_str(items@, k as int),
            string_views(out@) == start + item_texts(items@).subrange(0, k as int),
        decreases items.len() - k,
    {
        let ghost before = string_views(out@);
        match &items[k] {
            ListItem::Ident(s) => {
                if !want_ident {
                    return false;
                }
                out.push(s.clone());
            },
            ListItem::Str(s) => {
                if want_ident {
                    return false;
                }
                out.push(s.clone());
            },
            _ => {
                return false;
            },
        }
        assert(string_views(out@) =~= before.push(item_texts(items@)[k as int]));
        k += 1;
        assert(item_texts(items@).subrange(0, k as int) =~= item_texts(items@).subrange(
            0,
            k - 1,
        ).push(item_texts(items@)[k - 1]));
    }
    assert(item_texts(items@).subrange(0, items@.len() as int) =~= item_texts(items@));
    true
}

// ── `#[command(...)]` ──────────────────────────────────────────

/// Struct-level command attributes.
#[derive(Debug, Clone, PartialEq, Eq)]
pub struct CommandAttrs {
    pub name: String,
    pub style: String,
    pub lenient: bool,
    pub noop: String,
    pub tags: Vec<(String, String)>,
    pub short_doc: String,
    pub extra_help: Vec<String>,
    pub no_permute: bool,
}

/// The content of [`CommandAttrs`], by characters.
pub struct CommandAttrsView {
    pub name: Seq<char>,
    pub style: Seq<char>,
    pub lenient: bool,
    pub noop: Seq<char>,
    pub tags: Seq<(Seq<char>, Seq<char>)>,
    pub short_doc: Seq<char>,
    pub extra_help: Seq<Seq<char>>,
    pub no_permute: bool,
}

/// The views of a sequence of string pairs.
pub open spec fn pair_views(v: Seq<(String, String)>) -> Seq<(Seq<char>, Seq<char>)> {
    v.map_values(|p: (String, String)| (p.0@, p.1@))
}

impl View for CommandAttrs {
    type V = CommandAttrsView;

    open spec fn view(&self) -> CommandAttrsView {
        CommandAttrsView {
            name: self.name@,
            style: self.style@,
            lenient: self.lenient,
            noop: self.noop@,
            tags: pair_views(self.tags@),
            short_doc: self.short_doc@,
            extra_help: string_views(self.extra_help@),
            no_permute: self.no_permute,
        }
    }
}

/// The attributes before any entry: style `posix`, everything else empty or off.
pub open spec fn command_defaults() -> CommandAttrsView {
    CommandAttrsView {
        name: seq![],
        style: "posix"@,
        lenient: false,
        noop: seq![],
        tags: seq![],
        short_doc: seq![],
        extra_help: seq![],
        no_permute: false,
    }
}

/// What one `#[command(...)]` entry does.
pub open spec fn command_step(acc: CommandAttrsView, e: AttrEntry) -> Result<
    CommandAttrsView,
    DeriveErrorView,
> {
    let k = e.key@;
    if k == "name"@ {
        match spec_lit_str(e) {
            Ok(s) => Ok(CommandAttrsView { name: s, ..acc }),
            Err(x) => Err(x),
        }
    } else if k == "style"@ {
        match spec_lit_str(e) {
            Ok(s) => Ok(CommandAttrsView { style: s, ..acc }),
            Err(x) => Err(x),
        }
    } else if k == "lenient"@ {
        match spec_bare(e) {
            Ok(_) => Ok(CommandAttrsView { lenient: true, ..acc }),
            Err(x) => Err(x),
        }
    } else if k == "no_permute"@ {
        match spec_bare(e) {
            Ok(_) => Ok(CommandAttrsView { no_permute: true, ..acc }),
            Err(x) => Err(x),
        }
    } else if k == "noop"@ {
        match spec_lit_str(e) {
            Ok(s) => Ok(CommandAttrsView { noop: s, ..acc }),
            Err(x) => Err(x),
        }
    } else if k == "short_doc"@ {
        match spec_lit_str(e) {
            Ok(s) => Ok(CommandAttrsView { short_doc: s, ..acc }),
            Err(x) => Err(x),
        }
    } else if k == "extra_help"@ {
        match spec_list_strs(e) {
            Ok(ls) => Ok(CommandAttrsView { extra_help: acc.extra_help + ls, ..acc }),
            Err(x) => Err(x),
        }
    } else if k == "tag"@ {
        match spec_tag(e) {
            Ok(t) => Ok(CommandAttrsView { tags: acc.tags.push(t), ..acc }),
            Err(x) => Err(x),
        }
    } else {
        Err(DeriveErrorView::UnknownCommandAttribute(k))
    }
}

/// The attributes after the first `n` entries, or the first error.
pub open spec fn command_after(entries: Seq<AttrEntry>, n: int) -> Result<
    CommandAttrsView,
    DeriveErrorView,
>
    decreases n,
{
    if n <= 0 || n > entries.len() {
        Ok(command_defaults())
    } else {
        match command_after(entries, n - 1) {
            Ok(acc) => command_step(acc, entries[n - 1]),
            Err(x) => Err(x),
        }
    }
}

/// The command attributes that `entries` declare: every entry applied in
/// order; refused when an entry is malformed or no name was given.
pub open spec fn spec_command_attrs(entries: Seq<AttrEntry>) -> Result<
    CommandAttrsView,
    DeriveErrorView,
> {
    match command_after(entries, entries.len() as int) {
        Ok(a) => if a.name.len() == 0 {
            Err(DeriveErrorView::MissingName)
        } else {
            Ok(a)
        },
        Err(x) => Err(x),
    }
}

impl CommandAttrs {
    /// Reads the entries of the struct's `#[command(...)]` attributes, in order.
    pub fn from_entries(entries: &[AttrEntry]) -> (r: Result<CommandAttrs, DeriveError>)
        ensures
            match r {
                Ok(a) => spec_command_attrs(entries@) == Ok::<
                    CommandAttrsView,
                    DeriveErrorView,
                >(a@),
                Err(x) => spec_command_attrs(entries@) == Err::<
                    CommandAttrsView,
                    DeriveErrorView,
                >(x@),
            },
    {
        let mut a = CommandAttrs {
            name: String::new(),
            style: "posix".to_owned(),
            lenient: false,
            noop: String::new(),
            tags: Vec::new(),
            short_doc: String::new(),
            extra_help: Vec::new(),
            no_permute: false,
        };
        assert(pair_views(a.tags@) =~= seq![]);
        assert(string_views(a.extra_help@) =~= seq![]);
        let mut i: usize = 0;
        while i < entries.len()
            invariant
                0 <= i <= entries@.len(),
                command_after(entries@, i as int) == Ok::<CommandAttrsView, DeriveErrorView>(a@),
            decreases entries.len() - i,
        {
            match apply_command_entry(&mut a, &entries[i]) {
                Ok(()) => {},
                Err(x) => {
                    proof {
                        lemma_command_error_sticks(entries@, i + 1, entries@.len() as int);
                    }
                    return Err(x);
                },
            }
            i += 1;
        }
        if a.name.as_str().is_empty() {
            return Err(DeriveError::MissingName);
        }
        Ok(a)
    }
}

proof fn lemma_command_error_sticks(entries: Seq<AttrEntry>, m: int, n: int)
    requires
        0 <= m <= n <= entries.len(),
        command_after(entries, m) is Err,
    ensures
        command_after(entries, n) == command_after(entries, m),
    decreases n - m,
{
    if m < n {
        lemma_command_error_sticks(entries, m, n - 1);
    }
}

fn apply_command_entry(a: &mut CommandAttrs, e: &AttrEntry) -> (r: Result<(), DeriveError>)
    ensures
        match r {
            Ok(_) => command_step(old(a)@, *e) == Ok::<CommandAttrsView, DeriveErrorView>(
                final(a)@,
            ),
            Err(x) => command_step(old(a)@, *e) == Err::<CommandAttrsView, DeriveErrorView>(x@),
        },
{
    let ghost acc = a@;
    if key_is(e, "name") {
        a.name = lit_str(e)?;
    } else if key_is(e, "style") {
        a.style = lit_str(e)?;
    } else if key_is(e, "lenient") {
        bare(e)?;
        a.lenient = true;
    } else if key_is(e, "no_permute") {
        bare(e)?;
        a.no_permute = true;
    } else if key_is(e, "noop") {
        a.noop = lit_str(e)?;
    } else if key_is(e, "short_doc") {
        a.short_doc = lit_str(e)?;
    } else if key_is(e, "extra_help") {
        match &e.arg {
            AttrArg::List(items) => {
                if !list_texts(items, false, &mut a.extra_help) {
                    return Err(DeriveError::ExpectedString(e.key.clone()));
                }
            },
            _ => {
                return Err(DeriveError::ExpectedList(e.key.clone()));
            },
        }
    } else if key_is(e, "tag") {
        let t = tag(e)?;
        let ghost tv = (t.0@, t.1@);
        a.tags.push(t);
        assert(pair_views(a.tags@) =~= acc.tags.push(tv));
    } else {
        return Err(DeriveError::UnknownCommandAttribute(e.key.clone()));
    }
    Ok(())
}

fn tag(e: &AttrEntry) -> (r: Result<(String, String), DeriveError>)
    ensures
        match r {
            Ok(t) => spec_tag(*e) == Ok::<(Seq<char>, Seq<char>), DeriveErrorView>((t.0@, t.1@)),
            Err(x) => spec_tag(*e) == Err::<(Seq<char>, Seq<char>), DeriveErrorView>(x@),
        },
{
    match &e.arg {
        AttrArg::List(items) => {
            if items.len() == 0 {
                return Err(DeriveError::ExpectedIdent(e.key.clone()));
            }
            match &items[0] {
                ListItem::Ident(k) => {
                    if items.len() == 1 {
                        Ok((k.clone(), String::new()))
                    } else {
                        Err(DeriveError::UnexpectedArgument(e.key.clone()))
                    }
                },
                ListItem::KeyValue(k, AttrLit::Str(v)) => {
                    if items.len() == 1 {
                        Ok((k.clone(), v.clone()))
                    } else {
                        Err(DeriveError::UnexpectedArgument(e.key.clone()))
                    }
                },
                ListItem::KeyValue(_, _) => Err(DeriveError::ExpectedString(e.key.clone())),
                _ => Err(DeriveError::ExpectedIdent(e.key.clone())),
            }
        },
        _ => Err(DeriveError::ExpectedList(e.key.clone())),
    }
}


// ── `#[flag(...)]` ─────────────────────────────────────────────

/// Field-level flag attributes.
#[derive(Debug, Clone, PartialEq, Eq)]
pub struct FlagAttrs {
    /// The short character, or `'\0'` for none.
    pub short: char,
    /// Names of the flag fields this flag resets.
    pub clears: Vec<String>,
    pub value_name: String,
    pub long: Option<String>,
    pub aliases: Vec<String>,
    pub hidden: bool,
}

/// The content of [`FlagAttrs`], by characters.
pub struct FlagAttrsView {
    pub short: char,
    pub clears: Seq<Seq<char>>,
    pub value_name: Seq<char>,
    pub long: Option<Seq<char>>,
    pub aliases: Seq<Seq<char>>,
    pub hidden: bool,
}

/// The `Option` of a string's characters.
pub open spec fn opt_string_view(o: Option<String>) -> Option<Seq<char>> {
    match o {
        Some(s) => Some(s@),
        None => None,
    }
}

impl View for FlagAttrs {
    type V = FlagAttrsView;

    open spec fn view(&self) -> FlagAttrsView {
        FlagAttrsView {
            short: self.short,
            clears: string_views(self.clears@),
            value_name: self.value_name@,
            long: opt_string_view(self.long),
            aliases: string_views(self.aliases@),
            hidden: self.hidden,
        }
    }
}

/// The flag attributes before any entry.
pub open spec fn flag_defaults() -> FlagAttrsView {
    FlagAttrsView {
        short: '\0',
        clears: seq![],
        value_name: seq![],
        long: None,
        aliases: seq![],
        hidden: false,
    }
}

/// What one `#[flag(...)]` entry does.
pub open spec fn flag_step(acc: FlagAttrsView, e: AttrEntry) -> Result<FlagAttrsView, DeriveErrorView> {
    let k = e.key@;
    if k == "short"@ {
        match spec_lit_char(e) {
            Ok(c) => Ok(FlagAttrsView { short: c, ..acc }),
            Err(x) => Err(x),
        }
    } else if k == "clears"@ {
        match spec_list_idents(e) {
            Ok(ids) => Ok(FlagAttrsView { clears: acc.clears + ids, ..acc }),
            Err(x) => Err(x),
        }
    } else if k == "value_name"@ {
        match spec_lit_str(e) {
            Ok(s) => Ok(FlagAttrsView { value_name: s, ..acc }),
            Err(x) => Err(x),
        }
    } else if k == "long"@ {
        match spec_lit_str(e) {
            Ok(s) => Ok(FlagAttrsView { long: Some(s), ..acc }),
            Err(x) => Err(x),
        }
    } else if k == "alias"@ {
        match spec_lit_str(e) {
            Ok(s) => Ok(FlagAttrsView { aliases: acc.aliases.push(s), ..acc }),
            Err(x) => Err(x),
        }
    } else if k == "hide"@ {
        match spec_bare(e) {
            Ok(_) => Ok(FlagAttrsView { hidden: true, ..acc }),
            Err(x) => Err(x),
        }
    } else {
        Err(DeriveErrorView::UnknownFlagAttribute(k))
    }
}

/// The flag attributes after the first `n` entries, or the first error.
pub open spec fn flag_after(entries: Seq<AttrEntry>, n: int) -> Result<FlagAttrsView, DeriveErrorView>
    decreases n,
{
    if n <= 0 || n > entries.len() {
        Ok(flag_defaults())
    } else {
        match flag_after(entries, n - 1) {
            Ok(acc) => flag_step(acc, entries[n - 1]),
            Err(x) => Err(x),
        }
    }
}

/// The flag attributes that `entries` declare: every entry applied in order;
/// refused when an entry is malformed or neither `short` nor `long` was given.
pub open spec fn spec_flag_attrs(entries: Seq<AttrEntry>) -> Result<FlagAttrsView, DeriveErrorView> {
    match flag_after(entries, entries.len() as int) {
        Ok(a) => if a.short == '\0' && a.long is None {
            Err(DeriveErrorView::FlagNeedsShortOrLong)
        } else {
            Ok(a)
        },
        Err(x) => Err(x),
    }
}

proof fn lemma_flag_error_sticks(entries: Seq<AttrEntry>, m: int, n: int)
    requires
        0 <= m <= n <= entries.len(),
        flag_after(entries, m) is Err,
    ensures
        flag_after(entries, n) == flag_after(entries, m),
    decreases n - m,
{
    if m < n {
        lemma_flag_error_sticks(entries, m, n - 1);
    }
}

fn apply_flag_entry(a: &mut FlagAttrs, e: &AttrEntry) -> (r: Result<(), DeriveError>)
    ensures
        match r {
            Ok(_) => flag_step(old(a)@, *e) == Ok::<FlagAttrsView, DeriveErrorView>(final(a)@),
            Err(x) => flag_step(old(a)@, *e) == Err::<FlagAttrsView, DeriveErrorView>(x@),
        },
{
    let ghost acc = a@;
    if key_is(e, "short") {
        a.short = lit_char(e)?;
    } else if key_is(e, "clears") {
        match &e.arg {
            AttrArg::List(items) => {
                if !list_texts(items, true, &mut a.clears) {
                    return Err(DeriveError::ExpectedIdent(e.key.clone()));
                }
            },
            _ => {
                return Err(DeriveError::ExpectedList(e.key.clone()));
            },
        }
    } else if key_is(e, "value_name") {
        a.value_name = lit_str(e)?;
    } else if key_is(e, "long") {
        a.long = Some(lit_str(e)?);
    } else if key_is(e, "alias") {
        let s = lit_str(e)?;
        let ghost sv = s@;
        a.aliases.push(s);
        assert(string_views(a.aliases@) =~= acc.aliases.push(sv));
    } else if key_is(e, "hide") {
        bare(e)?;
        a.hidden = true;
    } else {
        return Err(DeriveError::UnknownFlagAttribute(e.key.clone()));
    }
    Ok(())
}

impl FlagAttrs {
    /// Reads the entries of a field's `#[flag(...)]` attribute, in order.
    pub fn from_entries(entries: &[AttrEntry]) -> (r: Result<FlagAttrs, DeriveError>)
        ensures
            match r {
                Ok(a) => spec_flag_attrs(entries@) == Ok::<FlagAttrsView, DeriveErrorView>(a@),
                Err(x) => spec_flag_attrs(entries@) == Err::<FlagAttrsView, DeriveErrorView>(x@),
            },
    {
        let mut a = FlagAttrs {
            short: '\0',
            clears: Vec::new(),
            value_name: String::new(),
            long: None,
            aliases: Vec::new(),
            hidden: false,
        };
        assert(string_views(a.clears@) =~= seq![]);
        assert(string_views(a.aliases@) =~= seq![]);
        let mut i: usize = 0;
        while i < entries.len()
            invariant
                0 <= i <= entries@.len(),
                flag_after(entries@, i as int) == Ok::<FlagAttrsView, DeriveErrorView>(a@),
            decreases entries.len() - i,
        {
            match apply_flag_entry(&mut a, &entries[i]) {
                Ok(()) => {},
                Err(x) => {
                    proof {
                        lemma_flag_error_sticks(entries@, i + 1, entries@.len() as int);
                    }
                    return Err(x);
                },
            }
            i += 1;
        }
        if a.short == '\0' && a.long.is_none() {
            return Err(DeriveError::FlagNeedsShortOrLong);
        }
        Ok(a)
    }
}

} // verus!

verus! {

// ── Doc comment lines ───────────────────────────────────────────

/// A raw doc line without the one space that `/// text` puts before the text.
pub open spec fn strip_space(s: Seq<char>) -> Seq<char> {
    if s.len() > 0 && s[0] == ' ' {
        s.subrange(1, s.len() as int)
    } else {
        s
    }
}

/// The doc lines of raw `#[doc]` strings.
pub open spec fn doc_lines(raw: Seq<Seq<char>>) -> Seq<Seq<char>> {
    raw.map_values(|s: Seq<char>| strip_space(s))
}

fn strip_lines(raw: &[String]) -> (r: Vec<String>)
    ensures
        string_views(r@) == doc_lines(string_views(raw@)),
{
    let mut r: Vec<String> = Vec::new();
    let mut i: usize = 0;
    while i < raw.len()
        invariant
            0 <= i <= raw@.len(),
            string_views(r@) == doc_lines(string_views(raw@)).take(i as int),
        decreases raw.len() - i,
    {
        let v = string_chars(&raw[i]);
        let ghost before = string_views(r@);
        let s = if v.len() > 0 && crate::text::char_at(v.as_slice(), 0) == ' ' {
            string_of(v.as_slice(), 1, v.len())
        } else {
            string_from(&v)
        };
        r.push(s);
        assert(string_views(r@) =~= before.push(strip_space(raw@[i as int]@)));
        i += 1;
        assert(doc_lines(string_views(raw@)).take(i as int) =~= doc_lines(string_views(raw@)).take(
            i - 1,
        ).push(strip_space(raw@[i - 1]@)));
    }
    assert(doc_lines(string_views(raw@)).take(raw@.len() as int) =~= doc_lines(
        string_views(raw@),
    ));
    r
}

/// Splits raw doc comment strings into bash-compatible help sections.
pub fn extract_doc_sections(raw: &[String]) -> (r: DocSections)
    ensures
        r@ == spec_sections(doc_lines(string_views(raw@))),
{
    let lines = strip_lines(raw);
    parse_sections(lines.as_slice())
}

/// Raw doc comment strings as one trimmed text, lines joined by newlines.
pub fn extract_doc_comment(raw: &[String]) -> (r: String)
    ensures
        r@ == spec_trim(spec_join(doc_lines(string_views(raw@)), seq!['\n'])),
{
    let lines = strip_lines(raw);
    let mut nl: Vec<char> = Vec::new();
    nl.push('\n');
    assert(nl@ =~= seq!['\n']);
    let joined = join_strings(lines.as_slice(), nl.as_slice());
    let jv = string_chars(&joined);
    let t = trim(&jv);
    string_from(&t)
}

} // verus!
