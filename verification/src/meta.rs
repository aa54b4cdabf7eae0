//! Command metadata: the declared flags and positionals, and the usage and
//! help text built from them.

use vstd::prelude::*;

use crate::error::Error;
use crate::derive::attrs::pair_views;
use crate::parse::{flag_def_views, FlagDef, FlagDefView, OnUnknown};
use crate::parse::FlagKind;
use crate::text::{
    append_chars, append_str, append_string, char_at, char_index_from, split_lines,
    string_from_chars, string_views,
};
use crate::style::Style;

verus! {

/// A named positional argument.
#[derive(Debug, Clone, PartialEq, Eq)]
pub struct PositionalDef {
    /// The field name.
    pub name: String,
    /// Whether it must be given.
    pub required: bool,
    /// Help text.
    pub desc: String,
}

/// Everything known about a command: its name, conventions, flags,
/// positionals and help sections.
#[derive(Debug, Clone, PartialEq, Eq)]
pub struct CommandDef {
    pub name: String,
    pub about: String,
    pub short_doc: String,
    pub style: Style,
    pub on_unknown: OnUnknown,
    pub flags: Vec<FlagDef>,
    pub positionals: Vec<PositionalDef>,
    pub has_rest: bool,
    pub tags: Vec<(String, String)>,
    pub description: Vec<String>,
    pub extra: Vec<String>,
    pub exit_status: Vec<String>,
}

/// The content of a [`PositionalDef`].
pub struct PositionalView {
    pub name: Seq<char>,
    pub required: bool,
    pub desc: Seq<char>,
}

impl View for PositionalDef {
    type V = PositionalView;

    open spec fn view(&self) -> PositionalView {
        PositionalView { name: self.name@, required: self.required, desc: self.desc@ }
    }
}

/// The views of positional declarations.
pub open spec fn positional_views(v: Seq<PositionalDef>) -> Seq<PositionalView> {
    v.map_values(|p: PositionalDef| p@)
}

/// The content of a [`CommandDef`].
pub struct CommandDefView {
    pub name: Seq<char>,
    pub about: Seq<char>,
    pub short_doc: Seq<char>,
    pub style: Style,
    pub on_unknown: OnUnknown,
    pub flags: Seq<FlagDefView>,
    pub positionals: Seq<PositionalView>,
    pub has_rest: bool,
    pub tags: Seq<(Seq<char>, Seq<char>)>,
    pub description: Seq<Seq<char>>,
    pub extra: Seq<Seq<char>>,
    pub exit_status: Seq<Seq<char>>,
}

impl View for CommandDef {
    type V = CommandDefView;

    open spec fn view(&self) -> CommandDefView {
        CommandDefView {
            name: self.name@,
            about: self.about@,
            short_doc: self.short_doc@,
            style: self.style,
            on_unknown: self.on_unknown,
            flags: flag_def_views(self.flags@),
            positionals: positional_views(self.positionals@),
            has_rest: self.has_rest,
            tags: pair_views(self.tags@),
            description: string_views(self.description@),
            extra: string_views(self.extra@),
            exit_status: string_views(self.exit_status@),
        }
    }
}

/// A command that can describe itself and parse its arguments; the derive
/// implements it for a struct.
pub trait Command: Sized {
    /// The command's metadata.
    fn def() -> CommandDef;

    /// Parses the arguments into the command's fields.
    fn parse(args: &[&str]) -> Result<Self, Error>;
}


// ── Usage ───────────────────────────────────────────────────────

/// Whether `c` is a stand-in character of a long-only flag (private use area).
pub open spec fn is_synthetic(c: char) -> bool {
    '\u{E000}' <= c && c <= '\u{F8FF}'
}

/// Whether a flag kind takes a value.
pub open spec fn kind_takes_value(k: FlagKind) -> bool {
    k == FlagKind::Value || k == FlagKind::PolarValue
}

/// Whether flag `f` is shown inside the `[-abc]` bundle of the usage line.
pub open spec fn in_bundle(f: FlagDefView) -> bool {
    !f.hidden && (f.kind == FlagKind::Bool || f.kind == FlagKind::Polar) && !is_synthetic(f.ch)
}

/// The bundled characters of the first `n` flags.
pub open spec fn bundle_chars(flags: Seq<FlagDefView>, n: int) -> Seq<char>
    decreases n,
{
    if n <= 0 || n > flags.len() {
        seq![]
    } else if in_bundle(flags[n - 1]) {
        bundle_chars(flags, n - 1).push(flags[n - 1].ch)
    } else {
        bundle_chars(flags, n - 1)
    }
}

/// The usage item of a flag outside the bundle: `[-n NAME]`, `[--long=NAME]`
/// or `[--long]`; nothing for hidden, bundled and no-op flags.
pub open spec fn flag_usage_item(f: FlagDefView) -> Seq<char> {
    if f.hidden || in_bundle(f) || f.kind == FlagKind::Noop {
        seq![]
    } else if kind_takes_value(f.kind) {
        if is_synthetic(f.ch) {
            " [--"@ + f.long + "="@ + f.value_name + "]"@
        } else {
            " [-"@ + seq![f.ch] + " "@ + f.value_name + "]"@
        }
    } else {
        " [--"@ + f.long + "]"@
    }
}

/// The usage items of the first `n` flags, in order.
pub open spec fn flag_usage_items(flags: Seq<FlagDefView>, n: int) -> Seq<char>
    decreases n,
{
    if n <= 0 || n > flags.len() {
        seq![]
    } else {
        flag_usage_items(flags, n - 1) + flag_usage_item(flags[n - 1])
    }
}

/// The usage item of a positional: ` name` or ` [name]`.
pub open spec fn positional_usage_item(p: PositionalView) -> Seq<char> {
    if p.required {
        " "@ + p.name
    } else {
        " ["@ + p.name + "]"@
    }
}

/// The usage items of the first `n` positionals, in order.
pub open spec fn positional_usage_items(ps: Seq<PositionalView>, n: int) -> Seq<char>
    decreases n,
{
    if n <= 0 || n > ps.len() {
        seq![]
    } else {
        positional_usage_items(ps, n - 1) + positional_usage_item(ps[n - 1])
    }
}

/// The usage line: `short_doc` when given, else built from the declarations:
/// the name, the bundled flags, the other flags, the positionals, and
/// `[arg ...]` when the rest of the operands is collected.
pub open spec fn spec_usage(d: CommandDefView) -> Seq<char> {
    if d.short_doc.len() > 0 {
        d.short_doc
    } else {
        let b = bundle_chars(d.flags, d.flags.len() as int);
        d.name + (if b.len() > 0 {
            " [-"@ + b + "]"@
        } else {
            seq![]
        }) + flag_usage_items(d.flags, d.flags.len() as int) + positional_usage_items(
            d.positionals,
            d.positionals.len() as int,
        ) + (if d.has_rest {
            " [arg ...]"@
        } else {
            seq![]
        })
    }
}

fn synthetic(c: char) -> (r: bool)
    ensures
        r == is_synthetic(c),
{
    '\u{E000}' <= c && c <= '\u{F8FF}'
}

fn bundled(f: &FlagDef) -> (r: bool)
    ensures
        r == in_bundle(f@),
{
    !f.hidden && (f.kind == FlagKind::Bool || f.kind == FlagKind::Polar) && !synthetic(f.ch)
}

fn push_flag_usage_item(out: &mut Vec<char>, f: &FlagDef)
    ensures
        final(out)@ == old(out)@ + flag_usage_item(f@),
{
    if f.hidden || bundled(f) || f.kind == FlagKind::Noop {
        assert(old(out)@ + seq![] =~= old(out)@);
    } else if f.kind == FlagKind::Value || f.kind == FlagKind::PolarValue {
        if synthetic(f.ch) {
            append_str(out, " [--");
            append_string(out, &f.long);
            append_str(out, "=");
            append_string(out, &f.value_name);
            append_str(out, "]");
            assert(out@ =~= old(out)@ + flag_usage_item(f@));
        } else {
            append_str(out, " [-");
            out.push(f.ch);
            append_str(out, " ");
            append_string(out, &f.value_name);
            append_str(out, "]");
            assert(out@ =~= old(out)@ + flag_usage_item(f@));
        }
    } else {
        append_str(out, " [--");
        append_string(out, &f.long);
        append_str(out, "]");
        assert(out@ =~= old(out)@ + flag_usage_item(f@));
    }
}

impl CommandDef {
    /// The usage line, as [`spec_usage`] says.
    pub fn usage(&self) -> (r: String)
        ensures
            r@ == spec_usage(self@),
    {
        if !self.short_doc.as_str().is_empty() {
            return self.short_doc.clone();
        }
        let ghost fv = flag_def_views(self.flags@);
        let ghost pv = positional_views(self.positionals@);
        let mut bundle: Vec<char> = Vec::new();
        let mut items: Vec<char> = Vec::new();
        let mut i: usize = 0;
        while i < self.flags.len()
            invariant
                fv == flag_def_views(self.flags@),
                0 <= i <= fv.len(),
                bundle@ == bundle_chars(fv, i as int),
                items@ == flag_usage_items(fv, i as int),
            decreases self.flags.len() - i,
        {
            let f = &self.flags[i];
            if bundled(f) {
                bundle.push(f.ch);
            }
            push_flag_usage_item(&mut items, f);
            i += 1;
        }
        let mut pos: Vec<char> = Vec::new();
        let mut j: usize = 0;
        while j < self.positionals.len()
            invariant
                pv == positional_views(self.positionals@),
                0 <= j <= pv.len(),
                pos@ == positional_usage_items(pv, j as int),
            decreases self.positionals.len() - j,
        {
            let p = &self.positionals[j];
            let ghost before = pos@;
            if p.required {
                append_str(&mut pos, " ");
                append_string(&mut pos, &p.name);
            } else {
                append_str(&mut pos, " [");
                append_string(&mut pos, &p.name);
                append_str(&mut pos, "]");
            }
            assert(pos@ =~= before + positional_usage_item(pv[j as int]));
            j += 1;
        }
        let mut out: Vec<char> = Vec::new();
        append_string(&mut out, &self.name);
        if bundle.len() > 0 {
            append_str(&mut out, " [-");
            append_chars(&mut out, &bundle);
            append_str(&mut out, "]");
        }
        append_chars(&mut out, &items);
        append_chars(&mut out, &pos);
        if self.has_rest {
            append_str(&mut out, " [arg ...]");
        }
        assert(out@ =~= spec_usage(self@));
        string_from_chars(&out)
    }
}


// ── Help ────────────────────────────────────────────────────────

/// The rows of a (possibly multi-line) description: the first line, then
/// every further line after `cont`, each ending in a newline.
pub open spec fn desc_rows(lines: Seq<Seq<char>>, cont: Seq<char>, n: int) -> Seq<char>
    decreases n,
{
    if n <= 0 || n > lines.len() {
        seq![]
    } else if n == 1 {
        lines[0] + "\n"@
    } else {
        desc_rows(lines, cont, n - 1) + cont + lines[n - 1] + "\n"@
    }
}

/// The label of a flag in bash-style help: `-c`, `-c NAME`, `--long`, `--long=NAME`.
pub open spec fn posix_label(f: FlagDefView) -> Seq<char> {
    if is_synthetic(f.ch) {
        "--"@ + f.long + (if kind_takes_value(f.kind) {
            "="@ + f.value_name
        } else {
            seq![]
        })
    } else {
        "-"@ + seq![f.ch] + (if kind_takes_value(f.kind) {
            " "@ + f.value_name
        } else {
            seq![]
        })
    }
}

/// The label of a flag in GNU-style help: `-c, --long[=NAME]`, or
/// `    --long[=NAME]` for a long-only flag, or `-c[ NAME]` without a long name.
pub open spec fn gnu_label(f: FlagDefView) -> Seq<char> {
    if f.long.len() > 0 {
        (if is_synthetic(f.ch) {
            "    "@
        } else {
            "-"@ + seq![f.ch] + ", "@
        }) + "--"@ + f.long + (if kind_takes_value(f.kind) {
            "="@ + f.value_name
        } else {
            seq![]
        })
    } else {
        "-"@ + seq![f.ch] + (if kind_takes_value(f.kind) {
            " "@ + f.value_name
        } else {
            seq![]
        })
    }
}

/// The help line(s) of one flag; nothing for hidden and no-op flags.
pub open spec fn flag_help(f: FlagDefView, gnu: bool) -> Seq<char> {
    let lines = split_lines(f.desc);
    if f.hidden || f.kind == FlagKind::Noop {
        seq![]
    } else if gnu {
        "  "@ + gnu_label(f) + "\t"@ + desc_rows(lines, "\t\t"@, lines.len() as int)
    } else {
        "      "@ + posix_label(f) + "\t"@ + desc_rows(lines, "    \t\t"@, lines.len() as int)
    }
}

/// The help lines of the first `n` flags.
pub open spec fn flag_help_lines(flags: Seq<FlagDefView>, gnu: bool, n: int) -> Seq<char>
    decreases n,
{
    if n <= 0 || n > flags.len() {
        seq![]
    } else {
        flag_help_lines(flags, gnu, n - 1) + flag_help(flags[n - 1], gnu)
    }
}

/// The first `n` lines, each after `pre` and ending in a newline.
pub open spec fn indented(lines: Seq<Seq<char>>, pre: Seq<char>, n: int) -> Seq<char>
    decreases n,
{
    if n <= 0 || n > lines.len() {
        seq![]
    } else {
        indented(lines, pre, n - 1) + pre + lines[n - 1] + "\n"@
    }
}

/// All lines, each after `pre` and ending in a newline.
pub open spec fn all_indented(lines: Seq<Seq<char>>, pre: Seq<char>) -> Seq<char> {
    indented(lines, pre, lines.len() as int)
}

/// The first line of bash-style help: `name: usage`.
pub open spec fn posix_head(d: CommandDefView) -> Seq<char> {
    d.name + ": "@ + spec_usage(d) + "\n"@
}

/// The indented about line, if there is one.
pub open spec fn posix_about(d: CommandDefView) -> Seq<char> {
    if d.about.len() > 0 {
        "    "@ + d.about + "\n"@
    } else {
        seq![]
    }
}

/// The indented description after an indented blank line, if there is one.
pub open spec fn posix_description(d: CommandDefView) -> Seq<char> {
    if d.description.len() > 0 {
        "    \n"@ + all_indented(d.description, "    "@)
    } else {
        seq![]
    }
}

/// The `Options:` section with the extra lines after it, or the extra lines alone.
pub open spec fn posix_options(d: CommandDefView) -> Seq<char> {
    let fl = flag_help_lines(d.flags, false, d.flags.len() as int);
    if fl.len() > 0 {
        "    \n    Options:\n"@ + fl + all_indented(d.extra, "    "@)
    } else if d.extra.len() > 0 {
        "    \n"@ + all_indented(d.extra, "    "@)
    } else {
        seq![]
    }
}

/// The `Exit Status:` section, if there is one.
pub open spec fn posix_exit(d: CommandDefView) -> Seq<char> {
    if d.exit_status.len() > 0 {
        "    \n    Exit Status:\n"@ + all_indented(d.exit_status, "    "@)
    } else {
        seq![]
    }
}

/// Bash-style help: `name: usage`, then the about line, the description,
/// the options with the extra lines after them, and the exit status, every
/// line indented by four spaces and sections parted by an indented blank line.
pub open spec fn spec_help_posix(d: CommandDefView) -> Seq<char> {
    posix_head(d) + posix_about(d) + posix_description(d) + posix_options(d) + posix_exit(d)
}

/// The first line of GNU-style help: `Usage: usage`.
pub open spec fn gnu_head(d: CommandDefView) -> Seq<char> {
    "Usage: "@ + spec_usage(d) + "\n"@
}

/// The about line, if there is one.
pub open spec fn gnu_about(d: CommandDefView) -> Seq<char> {
    if d.about.len() > 0 {
        d.about + "\n"@
    } else {
        seq![]
    }
}

/// The description after a blank line, if there is one.
pub open spec fn gnu_description(d: CommandDefView) -> Seq<char> {
    if d.description.len() > 0 {
        "\n"@ + all_indented(d.description, ""@)
    } else {
        seq![]
    }
}

/// The options after a blank line, ending with `--help`.
pub open spec fn gnu_options(d: CommandDefView) -> Seq<char> {
    "\n"@ + flag_help_lines(d.flags, true, d.flags.len() as int)
        + "      --help\tdisplay this help and exit\n"@
}

/// The extra lines after a blank line, if there are any.
pub open spec fn gnu_extra(d: CommandDefView) -> Seq<char> {
    if d.extra.len() > 0 {
        "\n"@ + all_indented(d.extra, ""@)
    } else {
        seq![]
    }
}

/// The `Exit status:` section, if there is one.
pub open spec fn gnu_exit(d: CommandDefView) -> Seq<char> {
    if d.exit_status.len() > 0 {
        "\nExit status:\n"@ + all_indented(d.exit_status, ""@)
    } else {
        seq![]
    }
}

/// GNU-style help: `Usage: usage`, the about line, the description, the
/// options followed by `--help`, the extra lines and the exit status.
pub open spec fn spec_help_gnu(d: CommandDefView) -> Seq<char> {
    gnu_head(d) + gnu_about(d) + gnu_description(d) + gnu_options(d) + gnu_extra(d) + gnu_exit(d)
}

/// The help text in the command's style.
pub open spec fn spec_help(d: CommandDefView) -> Seq<char> {
    if d.style == Style::Gnu {
        spec_help_gnu(d)
    } else {
        spec_help_posix(d)
    }
}

fn copy_from(v: &Vec<char>, from: usize) -> (r: Vec<char>)
    requires
        from <= v@.len(),
    ensures
        r@ == v@.subrange(from as int, v@.len() as int),
{
    let mut r: Vec<char> = Vec::new();
    let mut i = from;
    while i < v.len()
        invariant
            from <= i <= v@.len(),
            r@ == v@.subrange(from as int, i as int),
        decreases v.len() - i,
    {
        r.push(char_at(v.as_slice(), i));
        i += 1;
    }
    r
}

fn newline_index(v: &Vec<char>) -> (r: Option<usize>)
    ensures
        match r {
            Some(k) => k < v@.len() && char_index_from(v@, '\n', 0) == Some(k as int),
            None => char_index_from(v@, '\n', 0) is None,
        },
{
    let mut k: usize = 0;
    while k < v.len()
        invariant
            0 <= k <= v@.len(),
            char_index_from(v@, '\n', 0) == char_index_from(v@, '\n', k as int),
        decreases v.len() - k,
    {
        if char_at(v.as_slice(), k) == '\n' {
            return Some(k);
        }
        k += 1;
    }
    None
}

/// The lines of `v`, as [`split_lines`] says.
fn lines_of(v: &Vec<char>) -> (r: Vec<Vec<char>>)
    ensures
        r@.map_values(|x: Vec<char>| x@) == split_lines(v@),
{
    let mut out: Vec<Vec<char>> = Vec::new();
    let mut rest = copy_from(v, 0);
    assert(v@.subrange(0, v@.len() as int) =~= v@);
    loop
        invariant
            split_lines(v@) == out@.map_values(|x: Vec<char>| x@) + split_lines(rest@),
        decreases rest@.len(),
    {
        let ghost before = out@.map_values(|x: Vec<char>| x@);
        match newline_index(&rest) {
            Some(k) => {
                let head = crate::parse::copy_prefix(&rest, k);
                let tail = copy_from(&rest, k + 1);
                let ghost hv = head@;
                out.push(head);
                assert(out@.map_values(|x: Vec<char>| x@) =~= before.push(hv));
                assert(before + split_lines(rest@) =~= out@.map_values(|x: Vec<char>| x@)
                    + split_lines(tail@));
                rest = tail;
            },
            None => {
                let ghost rv = rest@;
                out.push(rest);
                assert(out@.map_values(|x: Vec<char>| x@) =~= before + seq![rv]);
                return out;
            },
        }
    }
}

fn push_label(out: &mut Vec<char>, f: &FlagDef, gnu: bool)
    ensures
        final(out)@ == old(out)@ + (if gnu {
            gnu_label(f@)
        } else {
            posix_label(f@)
        }),
{
    let valued = f.kind == FlagKind::Value || f.kind == FlagKind::PolarValue;
    if gnu && !f.long.as_str().is_empty() {
        if synthetic(f.ch) {
            append_str(out, "    ");
        } else {
            append_str(out, "-");
            out.push(f.ch);
            append_str(out, ", ");
        }
        append_str(out, "--");
        append_string(out, &f.long);
        if valued {
            append_str(out, "=");
            append_string(out, &f.value_name);
        }
    } else if !gnu && synthetic(f.ch) {
        append_str(out, "--");
        append_string(out, &f.long);
        if valued {
            append_str(out, "=");
            append_string(out, &f.value_name);
        }
    } else {
        append_str(out, "-");
        out.push(f.ch);
        if valued {
            append_str(out, " ");
            append_string(out, &f.value_name);
        }
    }
    assert(out@ =~= old(out)@ + (if gnu {
        gnu_label(f@)
    } else {
        posix_label(f@)
    }));
}

fn push_flag_help(out: &mut Vec<char>, f: &FlagDef, gnu: bool)
    ensures
        final(out)@ == old(out)@ + flag_help(f@, gnu),
{
    if f.hidden || f.kind == FlagKind::Noop {
        assert(old(out)@ + seq![] =~= old(out)@);
        return;
    }
    let desc = crate::text::string_chars(&f.desc);
    let lines = lines_of(&desc);
    let ghost lv = lines@.map_values(|x: Vec<char>| x@);
    if gnu {
        append_str(out, "  ");
    } else {
        append_str(out, "      ");
    }
    push_label(out, f, gnu);
    append_str(out, "\t");
    let ghost head = out@;
    let cont: &str = if gnu {
        "\t\t"
    } else {
        "    \t\t"
    };
    let mut n: usize = 0;
    while n < lines.len()
        invariant
            lv == lines@.map_values(|x: Vec<char>| x@),
            0 <= n <= lv.len(),
            out@ == head + desc_rows(lv, cont@, n as int),
        decreases lines.len() - n,
    {
        if n > 0 {
            append_str(out, cont);
        }
        append_chars(out, &lines[n]);
        append_str(out, "\n");
        n += 1;
        assert(out@ =~= head + desc_rows(lv, cont@, n as int));
    }
    assert(lv == split_lines(f.desc@));
    assert(out@ =~= old(out)@ + flag_help(f@, gnu));
}

fn push_indented(out: &mut Vec<char>, lines: &Vec<String>, pre: &str)
    ensures
        final(out)@ == old(out)@ + all_indented(string_views(lines@), pre@),
{
    let ghost lv = string_views(lines@);
    let mut n: usize = 0;
    while n < lines.len()
        invariant
            lv == string_views(lines@),
            0 <= n <= lv.len(),
            out@ == old(out)@ + indented(lv, pre@, n as int),
        decreases lines.len() - n,
    {
        append_str(out, pre);
        append_string(out, &lines[n]);
        append_str(out, "\n");
        n += 1;
        assert(out@ =~= old(out)@ + indented(lv, pre@, n as int));
    }
}

impl CommandDef {
    fn flag_help_lines(&self, gnu: bool) -> (r: Vec<char>)
        ensures
            r@ == flag_help_lines(flag_def_views(self.flags@), gnu, self.flags@.len() as int),
    {
        let ghost fv = flag_def_views(self.flags@);
        let mut out: Vec<char> = Vec::new();
        let mut i: usize = 0;
        while i < self.flags.len()
            invariant
                fv == flag_def_views(self.flags@),
                0 <= i <= fv.len(),
                out@ == flag_help_lines(fv, gnu, i as int),
            decreases self.flags.len() - i,
        {
            push_flag_help(&mut out, &self.flags[i], gnu);
            i += 1;
        }
        out
    }

    fn push_posix_head(&self, out: &mut Vec<char>)
        ensures
            final(out)@ == old(out)@ + posix_head(self@),
    {
        let usage = self.usage();
        append_string(out, &self.name);
        append_str(out, ": ");
        append_string(out, &usage);
        append_str(out, "\n");
        assert(out@ =~= old(out)@ + posix_head(self@));
    }

    fn push_posix_about(&self, out: &mut Vec<char>)
        ensures
            final(out)@ == old(out)@ + posix_about(self@),
    {
        if !self.about.as_str().is_empty() {
            append_str(out, "    ");
            append_string(out, &self.about);
            append_str(out, "\n");
        }
        assert(out@ =~= old(out)@ + posix_about(self@));
    }

    fn push_posix_description(&self, out: &mut Vec<char>)
        ensures
            final(out)@ == old(out)@ + posix_description(self@),
    {
        if self.description.len() > 0 {
            append_str(out, "    \n");
            push_indented(out, &self.description, "    ");
        }
        assert(out@ =~= old(out)@ + posix_description(self@));
    }

    fn push_posix_options(&self, out: &mut Vec<char>)
        ensures
            final(out)@ == old(out)@ + posix_options(self@),
    {
        let fl = self.flag_help_lines(false);
        if fl.len() > 0 {
            append_str(out, "    \n    Options:\n");
            append_chars(out, &fl);
            push_indented(out, &self.extra, "    ");
        } else if self.extra.len() > 0 {
            append_str(out, "    \n");
            push_indented(out, &self.extra, "    ");
        }
        assert(out@ =~= old(out)@ + posix_options(self@));
    }

    fn push_posix_exit(&self, out: &mut Vec<char>)
        ensures
            final(out)@ == old(out)@ + posix_exit(self@),
    {
        if self.exit_status.len() > 0 {
            append_str(out, "    \n    Exit Status:\n");
            push_indented(out, &self.exit_status, "    ");
        }
        assert(out@ =~= old(out)@ + posix_exit(self@));
    }

    fn push_gnu_head(&self, out: &mut Vec<char>)
        ensures
            final(out)@ == old(out)@ + gnu_head(self@),
    {
        let usage = self.usage();
        append_str(out, "Usage: ");
        append_string(out, &usage);
        append_str(out, "\n");
        assert(out@ =~= old(out)@ + gnu_head(self@));
    }

    fn push_gnu_about(&self, out: &mut Vec<char>)
        ensures
            final(out)@ == old(out)@ + gnu_about(self@),
    {
        if !self.about.as_str().is_empty() {
            append_string(out, &self.about);
            append_str(out, "\n");
        }
        assert(out@ =~= old(out)@ + gnu_about(self@));
    }

    fn push_gnu_description(&self, out: &mut Vec<char>)
        ensures
            final(out)@ == old(out)@ + gnu_description(self@),
    {
        if self.description.len() > 0 {
            append_str(out, "\n");
            push_indented(out, &self.description, "");
        }
        assert(out@ =~= old(out)@ + gnu_description(self@));
    }

    fn push_gnu_options(&self, out: &mut Vec<char>)
        ensures
            final(out)@ == old(out)@ + gnu_options(self@),
    {
        append_str(out, "\n");
        let fl = self.flag_help_lines(true);
        append_chars(out, &fl);
        append_str(out, "      --help\tdisplay this help and exit\n");
        assert(out@ =~= old(out)@ + gnu_options(self@));
    }

    fn push_gnu_extra(&self, out: &mut Vec<char>)
        ensures
            final(out)@ == old(out)@ + gnu_extra(self@),
    {
        if self.extra.len() > 0 {
            append_str(out, "\n");
            push_indented(out, &self.extra, "");
        }
        assert(out@ =~= old(out)@ + gnu_extra(self@));
    }

    fn push_gnu_exit(&self, out: &mut Vec<char>)
        ensures
            final(out)@ == old(out)@ + gnu_exit(self@),
    {
        if self.exit_status.len() > 0 {
            append_str(out, "\nExit status:\n");
            push_indented(out, &self.exit_status, "");
        }
        assert(out@ =~= old(out)@ + gnu_exit(self@));
    }

    /// The help text, as [`spec_help`] says.
    pub fn help(&self) -> (r: String)
        ensures
            r@ == spec_help(self@),
    {
        let mut out: Vec<char> = Vec::new();
        if self.style == Style::Gnu {
            self.push_gnu_head(&mut out);
            self.push_gnu_about(&mut out);
            self.push_gnu_description(&mut out);
            self.push_gnu_options(&mut out);
            self.push_gnu_extra(&mut out);
            self.push_gnu_exit(&mut out);
            assert(out@ =~= spec_help_gnu(self@));
        } else {
            self.push_posix_head(&mut out);
            self.push_posix_about(&mut out);
            self.push_posix_description(&mut out);
            self.push_posix_options(&mut out);
            self.push_posix_exit(&mut out);
            assert(out@ =~= spec_help_posix(self@));
        }
        string_from_chars(&out)
    }
}


// ── Laws of usage and help ──────────────────────────────────────

/// The positional items split at positional `k`: the items before it, its
/// own item, then the rest, which is empty or starts with a space.
proof fn lemma_positional_items_split(ps: Seq<PositionalView>, k: int, m: int) -> (tail: Seq<char>)
    requires
        0 <= k < m <= ps.len(),
    ensures
        positional_usage_items(ps, m) == positional_usage_items(ps, k) + positional_usage_item(ps[k])
            + tail,
        tail.len() == 0 || tail[0] == ' ',
    decreases m,
{
    reveal_strlit(" ");
    reveal_strlit(" [");
    if m == k + 1 {
        assert(positional_usage_items(ps, m) =~= positional_usage_items(ps, k) + positional_usage_item(
            ps[k],
        ) + seq![]);
        seq![]
    } else {
        let t = lemma_positional_items_split(ps, k, m - 1);
        let item = positional_usage_item(ps[m - 1]);
        assert(item[0] == ' ');
        let tail = t + item;
        assert(positional_usage_items(ps, m) =~= positional_usage_items(ps, k) + positional_usage_item(
            ps[k],
        ) + tail);
        tail
    }
}

/// In a built usage line every positional appears by name: a required one as
/// ` name` followed by a space or the end of the line (no brackets), an
/// optional one as ` [name]`.
pub proof fn lemma_usage_shows_positional(d: CommandDefView, k: int)
    requires
        d.short_doc.len() == 0,
        0 <= k < d.positionals.len(),
    ensures
        d.positionals[k].required ==> exists|i: int|
            0 <= i && i + 1 + d.positionals[k].name.len() <= spec_usage(d).len() && #[trigger] spec_usage(
                d,
            ).subrange(i, i + 1 + d.positionals[k].name.len()) == " "@ + d.positionals[k].name && (i
                + 1 + d.positionals[k].name.len() == spec_usage(d).len() || spec_usage(d)[i + 1
                + d.positionals[k].name.len()] == ' '),
        !d.positionals[k].required ==> exists|i: int|
            0 <= i && i + 3 + d.positionals[k].name.len() <= spec_usage(d).len() && #[trigger] spec_usage(
                d,
            ).subrange(i, i + 3 + d.positionals[k].name.len()) == " ["@ + d.positionals[k].name + "]"@,
{
    reveal_strlit(" ");
    reveal_strlit(" [");
    reveal_strlit("]");
    reveal_strlit(" [arg ...]");
    reveal_strlit(" [-");
    let ps = d.positionals;
    let n = ps.len() as int;
    let b = bundle_chars(d.flags, d.flags.len() as int);
    let head = d.name + (if b.len() > 0 {
        " [-"@ + b + "]"@
    } else {
        seq![]
    }) + flag_usage_items(d.flags, d.flags.len() as int);
    let rest: Seq<char> = if d.has_rest {
        " [arg ...]"@
    } else {
        seq![]
    };
    let tail = lemma_positional_items_split(ps, k, n);
    let before = head + positional_usage_items(ps, k);
    let item = positional_usage_item(ps[k]);
    let after = tail + rest;
    let u = spec_usage(d);
    assert(u =~= before + item + after);
    let i = before.len() as int;
    let e = i + item.len();
    assert(u.subrange(i, e) =~= item);
    if e < u.len() {
        assert(u[e] == after[0]);
        if tail.len() == 0 {
            assert(after[0] == rest[0]);
        }
    }
    if ps[k].required {
        assert(item.len() == 1 + ps[k].name.len());
        assert(u.subrange(i, i + 1 + ps[k].name.len()) == " "@ + ps[k].name);
        assert(i + 1 + ps[k].name.len() == u.len() || u[i + 1 + ps[k].name.len()] == ' ');
    } else {
        assert(item.len() == 3 + ps[k].name.len());
        assert(u.subrange(i, i + 3 + ps[k].name.len()) == " ["@ + ps[k].name + "]"@);
    }
}

/// The help shows the about line right after its first line: in GNU style
/// as the second line, after `Usage: usage`; in bash style indented by four
/// spaces after `name: usage`.
pub proof fn lemma_help_shows_about(d: CommandDefView)
    requires
        d.about.len() > 0,
    ensures
        d.style == Style::Gnu ==> {
            let at = (8 + spec_usage(d).len()) as int;
            &&& spec_help(d).subrange(0, at) == "Usage: "@ + spec_usage(d) + "\n"@
            &&& spec_help(d).subrange(at, at + d.about.len() + 1) == d.about + "\n"@
        },
        d.style != Style::Gnu ==> {
            let at = (d.name.len() + 3 + spec_usage(d).len()) as int;
            &&& spec_help(d).subrange(0, at) == d.name + ": "@ + spec_usage(d) + "\n"@
            &&& spec_help(d).subrange(at, at + d.about.len() + 5) == "    "@ + d.about + "\n"@
        },
{
    reveal_strlit("Usage: ");
    reveal_strlit("\n");
    reveal_strlit(": ");
    reveal_strlit("    ");
    if d.style == Style::Gnu {
        let h = gnu_head(d);
        let a = gnu_about(d);
        let r = gnu_description(d) + gnu_options(d) + gnu_extra(d) + gnu_exit(d);
        assert(spec_help(d) =~= h + a + r);
        assert(h.len() == 8 + spec_usage(d).len());
        assert((h + a + r).subrange(0, h.len() as int) =~= h);
        assert((h + a + r).subrange(h.len() as int, (h.len() + a.len()) as int) =~= a);
    } else {
        let h = posix_head(d);
        let a = posix_about(d);
        let r = posix_description(d) + posix_options(d) + posix_exit(d);
        assert(spec_help(d) =~= h + a + r);
        assert(h.len() == d.name.len() + 3 + spec_usage(d).len());
        assert((h + a + r).subrange(0, h.len() as int) =~= h);
        assert((h + a + r).subrange(h.len() as int, (h.len() + a.len()) as int) =~= a);
    }
}

} // verus!
