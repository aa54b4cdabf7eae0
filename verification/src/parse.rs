//! The argument scanner: turns raw arguments into recognized flags and operands.
//!
//! Handles POSIX flag bundling (`-abc`), stuck values (`-ofile`), the `--`
//! terminator, bare `-` as an operand, `+x` polarity, lenient mode, and (in
//! GNU style) long options with `--opt=val`, prefix inference and permutation.

use vstd::prelude::*;

use crate::error::{Error, ErrorView};
use crate::polarity::Polarity;
use crate::style::Style;
use crate::text::{char_at, string_views, chars_eq, chars_of, starts_with, string_chars, string_of, is_prefix};

verus! {

/// How a flag behaves when it is seen.
#[derive(Debug, Clone, Copy, PartialEq, Eq, Structural, Hash)]
pub enum FlagKind {
    /// `-x` sets a boolean.
    Bool,
    /// `-x` turns on, `+x` turns off.
    Polar,
    /// `-x val` or `-xval` takes a value.
    Value,
    /// `-x val` / `+x val`: a value carrying polarity.
    PolarValue,
    /// Accepted and ignored.
    Noop,
}

/// What to do with an argument that looks like a flag but is not declared.
#[derive(Debug, Clone, Copy, PartialEq, Eq, Structural, Hash)]
pub enum OnUnknown {
    /// Fail with [`Error::UnknownFlag`].
    Reject,
    /// Treat the whole argument as an operand (echo-style).
    PassThrough,
}

/// The declaration of one flag.
#[derive(Debug, Clone, PartialEq, Eq)]
pub struct FlagDef {
    /// Short character (a private-use character for long-only flags).
    pub ch: char,
    /// GNU long name without the leading `--`, or empty.
    pub long: String,
    /// Further long names.
    pub aliases: Vec<String>,
    /// How the flag behaves.
    pub kind: FlagKind,
    /// Characters of the flags that this flag resets (last wins).
    pub clears: Vec<char>,
    /// Help text.
    pub desc: String,
    /// Placeholder for the value in usage and help.
    pub value_name: String,
    /// Left out of usage and help.
    pub hidden: bool,
}

/// The content of a [`FlagDef`], by characters.
pub struct FlagDefView {
    pub ch: char,
    pub long: Seq<char>,
    pub aliases: Seq<Seq<char>>,
    pub kind: FlagKind,
    pub clears: Seq<char>,
    pub desc: Seq<char>,
    pub value_name: Seq<char>,
    pub hidden: bool,
}

impl View for FlagDef {
    type V = FlagDefView;

    open spec fn view(&self) -> FlagDefView {
        FlagDefView {
            ch: self.ch,
            long: self.long@,
            aliases: string_views(self.aliases@),
            kind: self.kind,
            clears: self.clears@,
            desc: self.desc@,
            value_name: self.value_name@,
            hidden: self.hidden,
        }
    }
}

/// The views of flag declarations.
pub open spec fn flag_def_views(v: Seq<FlagDef>) -> Seq<FlagDefView> {
    v.map_values(|d: FlagDef| d@)
}

/// One recognized flag occurrence.
#[derive(Debug, Clone, PartialEq, Eq)]
pub enum Parsed {
    /// A boolean flag.
    Bool(char),
    /// A polarity flag and the polarity it was given with.
    Polar(char, Polarity),
    /// A valued flag and its value.
    Value(char, String),
    /// A polar valued flag, its polarity and its value.
    PolarValue(char, Polarity, String),
}

/// A [`Parsed`] with its value by characters.
pub enum ParsedView {
    Bool(char),
    Polar(char, Polarity),
    Value(char, Seq<char>),
    PolarValue(char, Polarity, Seq<char>),
}

impl View for Parsed {
    type V = ParsedView;

    open spec fn view(&self) -> ParsedView {
        match self {
            Parsed::Bool(c) => ParsedView::Bool(*c),
            Parsed::Polar(c, p) => ParsedView::Polar(*c, *p),
            Parsed::Value(c, v) => ParsedView::Value(*c, v@),
            Parsed::PolarValue(c, p, v) => ParsedView::PolarValue(*c, *p, v@),
        }
    }
}

/// The flags recognized, in order, and the operands, in order.
#[derive(Debug, Clone, PartialEq, Eq)]
pub struct ScanResult {
    /// Recognized flags, in the order they appeared.
    pub flags: Vec<Parsed>,
    /// Everything that is not a flag, in order.
    pub operands: Vec<String>,
}

// ── Specification ───────────────────────────────────────────────

/// The views of a sequence of parsed flags.
pub open spec fn parsed_views(v: Seq<Parsed>) -> Seq<ParsedView> {
    v.map_values(|p: Parsed| p@)
}

/// The views of a sequence of string slices.
pub open spec fn str_views(v: Seq<&str>) -> Seq<Seq<char>> {
    v.map_values(|s: &str| s@)
}

/// Index of the first declaration, at `k` or later, whose short character is `c`.
pub open spec fn find_short_from(defs: Seq<FlagDef>, c: char, k: int) -> Option<int>
    decreases defs.len() - k,
{
    if k < 0 || k >= defs.len() {
        None
    } else if defs[k].ch == c {
        Some(k)
    } else {
        find_short_from(defs, c, k + 1)
    }
}

/// The polarity that a `-` (`off == false`) or `+` (`off == true`) prefix gives.
pub open spec fn polarity_of(off: bool) -> Polarity {
    if off {
        Polarity::Off
    } else {
        Polarity::On
    }
}

/// The occurrence of a valued flag of kind `kind` with value `v`.
pub open spec fn valued(kind: FlagKind, c: char, off: bool, v: Seq<char>) -> ParsedView {
    if kind == FlagKind::Value {
        ParsedView::Value(c, v)
    } else {
        ParsedView::PolarValue(c, polarity_of(off), v)
    }
}

/// What a bundle of short flags comes to.
pub enum BundleView {
    /// The flags, and whether the next argument was taken as a value.
    Flags(Seq<ParsedView>, bool),
    /// The first character that is not a flag usable with this prefix.
    Unknown(char),
    /// The valued flag at the end of the bundle, with no argument after it.
    Missing(char),
}

/// `p` followed by what `b` recognizes.
pub open spec fn cons_flag(p: ParsedView, b: BundleView) -> BundleView {
    match b {
        BundleView::Flags(fs, u) => BundleView::Flags(seq![p] + fs, u),
        _ => b,
    }
}

/// `acc` followed by what `b` recognizes.
pub open spec fn prepend_flags(acc: Seq<ParsedView>, b: BundleView) -> BundleView {
    match b {
        BundleView::Flags(fs, u) => BundleView::Flags(acc + fs, u),
        _ => b,
    }
}

/// The meaning of the characters `body[j..]` of a short-flag bundle, read
/// left to right: each declared character is a flag; a valued flag takes the
/// rest of the bundle as its value, or else the next argument.
pub open spec fn spec_bundle(
    defs: Seq<FlagDef>,
    body: Seq<char>,
    j: int,
    off: bool,
    next: Option<Seq<char>>,
) -> BundleView
    decreases body.len() - j,
{
    if j < 0 || j >= body.len() {
        BundleView::Flags(seq![], false)
    } else {
        let c = body[j];
        match find_short_from(defs, c, 0) {
            None => BundleView::Unknown(c),
            Some(k) => {
                let kind = defs[k].kind;
                if kind == FlagKind::Noop {
                    spec_bundle(defs, body, j + 1, off, next)
                } else if kind == FlagKind::Bool {
                    if off {
                        BundleView::Unknown(c)
                    } else {
                        cons_flag(ParsedView::Bool(c), spec_bundle(defs, body, j + 1, off, next))
                    }
                } else if kind == FlagKind::Polar {
                    cons_flag(
                        ParsedView::Polar(c, polarity_of(off)),
                        spec_bundle(defs, body, j + 1, off, next),
                    )
                } else if kind == FlagKind::Value && off {
                    BundleView::Unknown(c)
                } else if j + 1 < body.len() {
                    BundleView::Flags(
                        seq![valued(kind, c, off, body.subrange(j + 1, body.len() as int))],
                        false,
                    )
                } else {
                    match next {
                        Some(v) => BundleView::Flags(seq![valued(kind, c, off, v)], true),
                        None => BundleView::Missing(c),
                    }
                }
            },
        }
    }
}

proof fn lemma_prepend_cons(acc: Seq<ParsedView>, p: ParsedView, b: BundleView)
    ensures
        prepend_flags(acc, cons_flag(p, b)) == prepend_flags(acc.push(p), b),
{
    match b {
        BundleView::Flags(fs, u) => {
            assert(acc + (seq![p] + fs) =~= acc.push(p) + fs);
        },
        _ => {},
    }
}

// ── Implementation ──────────────────────────────────────────────

/// Index of the first declaration whose short character is `c`.
pub fn find_short(defs: &[FlagDef], c: char) -> (r: Option<usize>)
    ensures
        match r {
            Some(k) => k < defs@.len() && find_short_from(defs@, c, 0) == Some(k as int),
            None => find_short_from(defs@, c, 0) is None,
        },
{
    let mut k: usize = 0;
    while k < defs.len()
        invariant
            0 <= k <= defs@.len(),
            find_short_from(defs@, c, 0) == find_short_from(defs@, c, k as int),
        decreases defs.len() - k,
    {
        if defs[k].ch == c {
            return Some(k);
        }
        k += 1;
    }
    None
}

/// A bundle outcome, as computed.
pub enum BundleOut {
    Flags(Vec<Parsed>, bool),
    Unknown(char),
    Missing(char),
}

impl View for BundleOut {
    type V = BundleView;

    open spec fn view(&self) -> BundleView {
        match self {
            BundleOut::Flags(fs, u) => BundleView::Flags(parsed_views(fs@), *u),
            BundleOut::Unknown(c) => BundleView::Unknown(*c),
            BundleOut::Missing(c) => BundleView::Missing(*c),
        }
    }
}

/// The `Option` of the characters of an optional next argument.
pub open spec fn opt_chars(next: Option<&Vec<char>>) -> Option<Seq<char>> {
    match next {
        Some(v) => Some(v@),
        None => None,
    }
}

fn make_valued(kind: FlagKind, c: char, off: bool, v: String) -> (p: Parsed)
    ensures
        p@ == valued(kind, c, off, v@),
{
    let pol = if off { Polarity::Off } else { Polarity::On };
    if kind == FlagKind::Value {
        Parsed::Value(c, v)
    } else {
        Parsed::PolarValue(c, pol, v)
    }
}

/// Reads a bundle of short flags (the characters after the `-` or `+`).
pub fn scan_bundle(defs: &[FlagDef], body: &Vec<char>, off: bool, next: Option<&Vec<char>>) -> (r:
    BundleOut)
    ensures
        r@ == spec_bundle(defs@, body@, 0, off, opt_chars(next)),
{
    let mut acc: Vec<Parsed> = Vec::new();
    let mut j: usize = 0;
    while j < body.len()
        invariant
            0 <= j <= body@.len(),
            spec_bundle(defs@, body@, 0, off, opt_chars(next)) == prepend_flags(
                parsed_views(acc@),
                spec_bundle(defs@, body@, j as int, off, opt_chars(next)),
            ),
        decreases body.len() - j,
    {
        let c = char_at(body.as_slice(), j);
        let ghost rest = spec_bundle(defs@, body@, j + 1, off, opt_chars(next));
        let ghost before = parsed_views(acc@);
        let k = match find_short(defs, c) {
            None => {
                return BundleOut::Unknown(c);
            },
            Some(k) => k,
        };
        let kind = defs[k].kind;
        if kind == FlagKind::Noop {
        } else if kind == FlagKind::Bool || kind == FlagKind::Polar {
            if kind == FlagKind::Bool && off {
                return BundleOut::Unknown(c);
            }
            let p = if kind == FlagKind::Bool {
                Parsed::Bool(c)
            } else {
                Parsed::Polar(c, if off { Polarity::Off } else { Polarity::On })
            };
            let ghost pv = p@;
            proof {
                lemma_prepend_cons(before, pv, rest);
            }
            acc.push(p);
            assert(parsed_views(acc@) =~= before.push(pv));
        } else if kind == FlagKind::Value && off {
            return BundleOut::Unknown(c);
        } else if j + 1 < body.len() {
            let v = string_of(body.as_slice(), j + 1, body.len());
            let p = make_valued(kind, c, off, v);
            acc.push(p);
            assert(parsed_views(acc@) =~= before + seq![p@]);
            return BundleOut::Flags(acc, false);
        } else {
            match next {
                Some(nv) => {
                    let v = string_of(nv.as_slice(), 0, nv.len());
                    assert(nv@.subrange(0, nv@.len() as int) =~= nv@);
                    let p = make_valued(kind, c, off, v);
                    acc.push(p);
                    assert(parsed_views(acc@) =~= before + seq![p@]);
                    return BundleOut::Flags(acc, true);
                },
                None => {
                    return BundleOut::Missing(c);
                },
            }
        }
        j += 1;
    }
    assert(parsed_views(acc@) + seq![] =~= parsed_views(acc@));
    BundleOut::Flags(acc, false)
}


// ── Long options ────────────────────────────────────────────────

/// Index of the first `c` in `s` at `k` or later.
pub open spec fn find_char_from(s: Seq<char>, c: char, k: int) -> Option<int>
    decreases s.len() - k,
{
    if k < 0 || k >= s.len() {
        None
    } else if s[k] == c {
        Some(k)
    } else {
        find_char_from(s, c, k + 1)
    }
}

/// The option name of `--body`: everything before the first `=`.
pub open spec fn long_name(body: Seq<char>) -> Seq<char> {
    match find_char_from(body, '=', 0) {
        Some(e) => body.subrange(0, e),
        None => body,
    }
}

/// The inline value of `--body`: everything after the first `=`, if there is one.
pub open spec fn long_value(body: Seq<char>) -> Option<Seq<char>> {
    match find_char_from(body, '=', 0) {
        Some(e) => Some(body.subrange(e + 1, body.len() as int)),
        None => None,
    }
}

/// Whether `name` is one of the long names of `d` (its non-empty long name or an alias).
pub open spec fn names_exactly(d: FlagDef, name: Seq<char>) -> bool {
    (d.long@.len() > 0 && d.long@ == name) || exists|j: int|
        0 <= j < d.aliases@.len() && #[trigger] d.aliases@[j]@ == name
}

/// Whether `name` begins one of the long names of `d`.
pub open spec fn names_by_prefix(d: FlagDef, name: Seq<char>) -> bool {
    (d.long@.len() > 0 && is_prefix(name, d.long@)) || exists|j: int|
        0 <= j < d.aliases@.len() && is_prefix(name, #[trigger] d.aliases@[j]@)
}

/// Index of the first declaration, at `k` or later, that has the long name `name`.
pub open spec fn find_exact_from(defs: Seq<FlagDef>, name: Seq<char>, k: int) -> Option<int>
    decreases defs.len() - k,
{
    if k < 0 || k >= defs.len() {
        None
    } else if names_exactly(defs[k], name) {
        Some(k)
    } else {
        find_exact_from(defs, name, k + 1)
    }
}

/// Index of the first declaration, at `k` or later, with a long name that `name` begins.
pub open spec fn find_prefix_from(defs: Seq<FlagDef>, name: Seq<char>, k: int) -> Option<int>
    decreases defs.len() - k,
{
    if k < 0 || k >= defs.len() {
        None
    } else if names_by_prefix(defs[k], name) {
        Some(k)
    } else {
        find_prefix_from(defs, name, k + 1)
    }
}

/// How many declarations, at `k` or later, have a long name that `name` begins.
pub open spec fn count_prefix_from(defs: Seq<FlagDef>, name: Seq<char>, k: int) -> nat
    decreases defs.len() - k,
{
    if k < 0 || k >= defs.len() {
        0
    } else if names_by_prefix(defs[k], name) {
        1 + count_prefix_from(defs, name, k + 1)
    } else {
        count_prefix_from(defs, name, k + 1)
    }
}

/// The declaration that `--name` denotes: an exact long name or alias, or in
/// GNU style the only declaration that `name` abbreviates.
pub open spec fn resolve_long(defs: Seq<FlagDef>, name: Seq<char>, style: Style) -> Option<int> {
    match find_exact_from(defs, name, 0) {
        Some(k) => Some(k),
        None => if style == Style::Gnu && name.len() > 0 && count_prefix_from(defs, name, 0) == 1 {
            find_prefix_from(defs, name, 0)
        } else {
            None
        },
    }
}

/// Why a flag that takes no value was given one.
pub open spec fn reason_no_argument() -> Seq<char> {
    "option does not take an argument"@
}

/// What one argument does to the scan.
pub enum StepView {
    /// It is an operand.
    Operand,
    /// It is `--`: everything after it is an operand.
    Terminator,
    /// It holds these flags; `true` when it also took the next argument as a value.
    Flags(Seq<ParsedView>, bool),
    /// It is an error.
    Fail(ErrorView),
}

/// The meaning of the argument `--body`.
pub open spec fn spec_long_step(
    defs: Seq<FlagDef>,
    body: Seq<char>,
    next: Option<Seq<char>>,
    on_unknown: OnUnknown,
    style: Style,
) -> StepView {
    let name = long_name(body);
    let label = seq!['-', '-'] + name;
    if style == Style::Gnu && name == "help"@ && find_exact_from(defs, name, 0) is None {
        StepView::Fail(ErrorView::HelpRequested)
    } else {
        match resolve_long(defs, name, style) {
            None => if on_unknown == OnUnknown::Reject {
                StepView::Fail(ErrorView::UnknownFlag(label))
            } else {
                StepView::Operand
            },
            Some(k) => {
                let kind = defs[k].kind;
                let c = defs[k].ch;
                if kind == FlagKind::Value || kind == FlagKind::PolarValue {
                    match long_value(body) {
                        Some(v) => StepView::Flags(seq![valued(kind, c, false, v)], false),
                        None => match next {
                            Some(v) => StepView::Flags(seq![valued(kind, c, false, v)], true),
                            None => StepView::Fail(ErrorView::MissingValue(label)),
                        },
                    }
                } else {
                    match long_value(body) {
                        Some(v) => StepView::Fail(
                            ErrorView::InvalidValue { flag: label, value: v, reason: reason_no_argument() },
                        ),
                        None => if kind == FlagKind::Bool {
                            StepView::Flags(seq![ParsedView::Bool(c)], false)
                        } else if kind == FlagKind::Polar {
                            StepView::Flags(seq![ParsedView::Polar(c, Polarity::On)], false)
                        } else {
                            StepView::Flags(seq![], false)
                        },
                    }
                }
            },
        }
    }
}

/// Whether some declaration accepts a `+` prefix.
pub open spec fn has_polar(defs: Seq<FlagDef>) -> bool {
    exists|k: int|
        0 <= k < defs.len() && (#[trigger] defs[k].kind == FlagKind::Polar || defs[k].kind
            == FlagKind::PolarValue)
}

/// The meaning of the bundle `a` (prefix `-` or `+` included).
pub open spec fn spec_short_step(
    defs: Seq<FlagDef>,
    a: Seq<char>,
    off: bool,
    next: Option<Seq<char>>,
    on_unknown: OnUnknown,
) -> StepView {
    match spec_bundle(defs, a.subrange(1, a.len() as int), 0, off, next) {
        BundleView::Flags(fs, u) => StepView::Flags(fs, u),
        BundleView::Unknown(c) => if on_unknown == OnUnknown::Reject {
            StepView::Fail(ErrorView::UnknownFlag(seq![a[0], c]))
        } else {
            StepView::Operand
        },
        BundleView::Missing(c) => StepView::Fail(ErrorView::MissingValue(seq![a[0], c])),
    }
}

/// The meaning of the argument `a`, with `next` the argument after it.
///
/// `--` ends the flags; `--name` is a long option; `-xyz` is a bundle of short
/// flags; `+xyz` turns polarity flags off where any are declared; anything
/// else (bare `-` or `+` included) is an operand.
pub open spec fn spec_step(
    defs: Seq<FlagDef>,
    a: Seq<char>,
    next: Option<Seq<char>>,
    on_unknown: OnUnknown,
    style: Style,
) -> StepView {
    if a == seq!['-', '-'] {
        StepView::Terminator
    } else if a.len() >= 3 && a[0] == '-' && a[1] == '-' {
        spec_long_step(defs, a.subrange(2, a.len() as int), next, on_unknown, style)
    } else if a.len() >= 2 && a[0] == '-' {
        spec_short_step(defs, a, false, next, on_unknown)
    } else if a.len() >= 2 && a[0] == '+' && has_polar(defs) {
        spec_short_step(defs, a, true, next, on_unknown)
    } else {
        StepView::Operand
    }
}

/// Whether operands and flags may interleave.
pub open spec fn permutes(style: Style, permute: bool) -> bool {
    style == Style::Gnu && permute
}

/// The scan of `args[i..]`, given the flags and operands found so far and
/// whether the flags have ended.
pub open spec fn scan_from(
    defs: Seq<FlagDef>,
    args: Seq<Seq<char>>,
    i: int,
    on_unknown: OnUnknown,
    style: Style,
    permute: bool,
    flags: Seq<ParsedView>,
    operands: Seq<Seq<char>>,
    done: bool,
) -> Result<(Seq<ParsedView>, Seq<Seq<char>>), ErrorView>
    decreases args.len() - i,
{
    if i < 0 || i >= args.len() {
        Ok((flags, operands))
    } else if done {
        scan_from(defs, args, i + 1, on_unknown, style, permute, flags, operands.push(args[i]), true)
    } else {
        let next = if i + 1 < args.len() {
            Some(args[i + 1])
        } else {
            None
        };
        match spec_step(defs, args[i], next, on_unknown, style) {
            StepView::Terminator => scan_from(
                defs,
                args,
                i + 1,
                on_unknown,
                style,
                permute,
                flags,
                operands,
                true,
            ),
            StepView::Operand => scan_from(
                defs,
                args,
                i + 1,
                on_unknown,
                style,
                permute,
                flags,
                operands.push(args[i]),
                !permutes(style, permute),
            ),
            StepView::Flags(fs, used) => if used && i + 1 < args.len() {
                scan_from(defs, args, i + 2, on_unknown, style, permute, flags + fs, operands, false)
            } else {
                scan_from(defs, args, i + 1, on_unknown, style, permute, flags + fs, operands, false)
            },
            StepView::Fail(e) => Err(e),
        }
    }
}

/// The scan of the whole argument list: the flags recognized, in order, and
/// the operands, in order, or the first error.
pub open spec fn spec_scan(
    defs: Seq<FlagDef>,
    args: Seq<Seq<char>>,
    on_unknown: OnUnknown,
    style: Style,
    permute: bool,
) -> Result<(Seq<ParsedView>, Seq<Seq<char>>), ErrorView> {
    scan_from(defs, args, 0, on_unknown, style, permute, seq![], seq![], false)
}


// ── Long options: implementation ───────────────────────────────

fn find_char(s: &Vec<char>, c: char) -> (r: Option<usize>)
    ensures
        match r {
            Some(e) => e < s@.len() && find_char_from(s@, c, 0) == Some(e as int),
            None => find_char_from(s@, c, 0) is None,
        },
{
    let mut k: usize = 0;
    while k < s.len()
        invariant
            0 <= k <= s@.len(),
            find_char_from(s@, c, 0) == find_char_from(s@, c, k as int),
        decreases s.len() - k,
    {
        if char_at(s.as_slice(), k) == c {
            return Some(k);
        }
        k += 1;
    }
    None
}

fn copy_range(v: &Vec<char>, from: usize, to: usize) -> (r: Vec<char>)
    requires
        from <= to <= v@.len(),
    ensures
        r@ == v@.subrange(from as int, to as int),
{
    let mut r: Vec<char> = Vec::new();
    let mut i = from;
    while i < to
        invariant
            from <= i <= to <= v@.len(),
            r@ == v@.subrange(from as int, i as int),
        decreases to - i,
    {
        r.push(char_at(v.as_slice(), i));
        i += 1;
    }
    r
}

/// The first `to` characters of `v`.
pub(crate) fn copy_prefix(v: &Vec<char>, to: usize) -> (r: Vec<char>)
    requires
        to <= v@.len(),
    ensures
        r@ == v@.subrange(0, to as int),
{
    copy_range(v, 0, to)
}

fn exactly(d: &FlagDef, name: &Vec<char>) -> (r: bool)
    ensures
        r == names_exactly(*d, name@),
{
    let long = string_chars(&d.long);
    if long.len() > 0 && chars_eq(long.as_slice(), name.as_slice()) {
        return true;
    }
    let mut j: usize = 0;
    while j < d.aliases.len()
        invariant
            0 <= j <= d.aliases@.len(),
            !(d.long@.len() > 0 && d.long@ == name@),
            forall|i: int| 0 <= i < j ==> d.aliases@[i]@ != name@,
        decreases d.aliases.len() - j,
    {
        let a = string_chars(&d.aliases[j]);
        if chars_eq(a.as_slice(), name.as_slice()) {
            return true;
        }
        j += 1;
    }
    false
}

fn by_prefix(d: &FlagDef, name: &Vec<char>) -> (r: bool)
    ensures
        r == names_by_prefix(*d, name@),
{
    let long = string_chars(&d.long);
    if long.len() > 0 && starts_with(name.as_slice(), long.as_slice()) {
        return true;
    }
    let mut j: usize = 0;
    while j < d.aliases.len()
        invariant
            0 <= j <= d.aliases@.len(),
            !(d.long@.len() > 0 && is_prefix(name@, d.long@)),
            forall|i: int| 0 <= i < j ==> !is_prefix(name@, #[trigger] d.aliases@[i]@),
        decreases d.aliases.len() - j,
    {
        let a = string_chars(&d.aliases[j]);
        if starts_with(name.as_slice(), a.as_slice()) {
            return true;
        }
        j += 1;
    }
    false
}

fn find_exact(defs: &[FlagDef], name: &Vec<char>) -> (r: Option<usize>)
    ensures
        match r {
            Some(k) => k < defs@.len() && find_exact_from(defs@, name@, 0) == Some(k as int),
            None => find_exact_from(defs@, name@, 0) is None,
        },
{
    let mut k: usize = 0;
    while k < defs.len()
        invariant
            0 <= k <= defs@.len(),
            find_exact_from(defs@, name@, 0) == find_exact_from(defs@, name@, k as int),
        decreases defs.len() - k,
    {
        if exactly(&defs[k], name) {
            return Some(k);
        }
        k += 1;
    }
    None
}

proof fn lemma_prefix_count_zero(defs: Seq<FlagDef>, name: Seq<char>, k: int)
    requires
        count_prefix_from(defs, name, k) == 0,
    ensures
        find_prefix_from(defs, name, k) is None,
    decreases defs.len() - k,
{
    if 0 <= k < defs.len() {
        lemma_prefix_count_zero(defs, name, k + 1);
    }
}

/// The declaration that `--name` denotes, as [`resolve_long`] says.
fn resolve(defs: &[FlagDef], name: &Vec<char>, style: Style) -> (r: Option<usize>)
    ensures
        match r {
            Some(k) => k < defs@.len() && resolve_long(defs@, name@, style) == Some(k as int),
            None => resolve_long(defs@, name@, style) is None,
        },
{
    if let Some(k) = find_exact(defs, name) {
        return Some(k);
    }
    if !(style == Style::Gnu && name.len() > 0) {
        return None;
    }
    let mut count: usize = 0;
    let mut first: Option<usize> = None;
    let mut k: usize = 0;
    while k < defs.len()
        invariant
            0 <= k <= defs@.len(),
            count <= k,
            count_prefix_from(defs@, name@, 0) == count + count_prefix_from(defs@, name@, k as int),
            match first {
                None => count == 0 && find_prefix_from(defs@, name@, 0) == find_prefix_from(
                    defs@,
                    name@,
                    k as int,
                ),
                Some(f) => count >= 1 && f < defs@.len() && find_prefix_from(defs@, name@, 0)
                    == Some(f as int),
            },
        decreases defs.len() - k,
    {
        if by_prefix(&defs[k], name) {
            if first.is_none() {
                first = Some(k);
            }
            count += 1;
        }
        k += 1;
    }
    if count == 1 {
        first
    } else {
        proof {
            if count == 0 {
                lemma_prefix_count_zero(defs@, name@, 0);
            }
        }
        None
    }
}

/// One argument's effect, as computed.
pub enum StepOut {
    Operand,
    Terminator,
    Flags(Vec<Parsed>, bool),
    Fail(Error),
}

impl View for StepOut {
    type V = StepView;

    open spec fn view(&self) -> StepView {
        match self {
            StepOut::Operand => StepView::Operand,
            StepOut::Terminator => StepView::Terminator,
            StepOut::Flags(fs, u) => StepView::Flags(parsed_views(fs@), *u),
            StepOut::Fail(e) => StepView::Fail(e@),
        }
    }
}

fn one_flag(p: Parsed, used: bool) -> (r: StepOut)
    ensures
        r@ == StepView::Flags(seq![p@], used),
{
    let mut v: Vec<Parsed> = Vec::new();
    let ghost pv = p@;
    v.push(p);
    assert(parsed_views(v@) =~= seq![pv]);
    StepOut::Flags(v, used)
}

fn dash_dash_label(name: &Vec<char>) -> (s: String)
    ensures
        s@ == seq!['-', '-'] + name@,
{
    let mut s = String::new();
    crate::text::push_char(&mut s, '-');
    crate::text::push_char(&mut s, '-');
    crate::text::push_chars(&mut s, name.as_slice());
    assert(s@ =~= seq!['-', '-'] + name@);
    s
}

/// The meaning of the argument `--body`, as [`spec_long_step`] says.
fn long_step(
    defs: &[FlagDef],
    body: &Vec<char>,
    next: Option<&Vec<char>>,
    on_unknown: OnUnknown,
    style: Style,
) -> (r: StepOut)
    ensures
        r@ == spec_long_step(defs@, body@, opt_chars(next), on_unknown, style),
{
    let eq = find_char(body, '=');
    let name = match eq {
        Some(e) => copy_range(body, 0, e),
        None => copy_range(body, 0, body.len()),
    };
    assert(body@.subrange(0, body@.len() as int) =~= body@);
    let help = chars_of("help");
    if style == Style::Gnu && chars_eq(name.as_slice(), help.as_slice()) && find_exact(
        defs,
        &name,
    ).is_none() {
        return StepOut::Fail(Error::HelpRequested);
    }
    let k = match resolve(defs, &name, style) {
        None => {
            if on_unknown == OnUnknown::Reject {
                return StepOut::Fail(Error::UnknownFlag(dash_dash_label(&name)));
            } else {
                return StepOut::Operand;
            }
        },
        Some(k) => k,
    };
    let kind = defs[k].kind;
    let c = defs[k].ch;
    if kind == FlagKind::Value || kind == FlagKind::PolarValue {
        match eq {
            Some(e) => {
                assert(eq == Some(e));
                assert(e < body.len());
                let v = string_of(body.as_slice(), e + 1, body.len());
                one_flag(make_valued(kind, c, false, v), false)
            },
            None => match next {
                Some(nv) => {
                    let v = string_of(nv.as_slice(), 0, nv.len());
                    assert(nv@.subrange(0, nv@.len() as int) =~= nv@);
                    one_flag(make_valued(kind, c, false, v), true)
                },
                None => StepOut::Fail(Error::MissingValue(dash_dash_label(&name))),
            },
        }
    } else {
        match eq {
            Some(e) => {
                assert(eq == Some(e));
                assert(e < body.len());
                let v = string_of(body.as_slice(), e + 1, body.len());
                StepOut::Fail(
                    Error::InvalidValue {
                        flag: dash_dash_label(&name),
                        value: v,
                        reason: "option does not take an argument".to_owned(),
                    },
                )
            },
            None => {
                if kind == FlagKind::Bool {
                    one_flag(Parsed::Bool(c), false)
                } else if kind == FlagKind::Polar {
                    one_flag(Parsed::Polar(c, Polarity::On), false)
                } else {
                    let v: Vec<Parsed> = Vec::new();
                    assert(parsed_views(v@) =~= seq![]);
                    StepOut::Flags(v, false)
                }
            },
        }
    }
}


// ── The scan: implementation ───────────────────────────────────

fn any_polar(defs: &[FlagDef]) -> (r: bool)
    ensures
        r == has_polar(defs@),
{
    let mut k: usize = 0;
    while k < defs.len()
        invariant
            0 <= k <= defs@.len(),
            forall|i: int|
                0 <= i < k ==> !(#[trigger] defs@[i].kind == FlagKind::Polar || defs@[i].kind
                    == FlagKind::PolarValue),
        decreases defs.len() - k,
    {
        let kind = defs[k].kind;
        if kind == FlagKind::Polar || kind == FlagKind::PolarValue {
            return true;
        }
        k += 1;
    }
    false
}

fn short_step(
    defs: &[FlagDef],
    a: &Vec<char>,
    off: bool,
    next: Option<&Vec<char>>,
    on_unknown: OnUnknown,
) -> (r: StepOut)
    requires
        a@.len() >= 1,
    ensures
        r@ == spec_short_step(defs@, a@, off, opt_chars(next), on_unknown),
{
    let body = copy_range(a, 1, a.len());
    let prefix = char_at(a.as_slice(), 0);
    match scan_bundle(defs, &body, off, next) {
        BundleOut::Flags(fs, u) => StepOut::Flags(fs, u),
        BundleOut::Unknown(c) => {
            if on_unknown == OnUnknown::Reject {
                let mut s = String::new();
                crate::text::push_char(&mut s, prefix);
                crate::text::push_char(&mut s, c);
                assert(s@ =~= seq![a@[0], c]);
                StepOut::Fail(Error::UnknownFlag(s))
            } else {
                StepOut::Operand
            }
        },
        BundleOut::Missing(c) => {
            let mut s = String::new();
            crate::text::push_char(&mut s, prefix);
            crate::text::push_char(&mut s, c);
            assert(s@ =~= seq![a@[0], c]);
            StepOut::Fail(Error::MissingValue(s))
        },
    }
}

/// The meaning of one argument `a`, with `next` the argument after it, as
/// [`spec_step`] says.
pub fn step(
    defs: &[FlagDef],
    a: &Vec<char>,
    next: Option<&Vec<char>>,
    on_unknown: OnUnknown,
    style: Style,
) -> (r: StepOut)
    ensures
        r@ == spec_step(defs@, a@, opt_chars(next), on_unknown, style),
{
    let n = a.len();
    if n == 2 && char_at(a.as_slice(), 0) == '-' && char_at(a.as_slice(), 1) == '-' {
        assert(a@ =~= seq!['-', '-']);
        return StepOut::Terminator;
    }
    if n >= 3 && char_at(a.as_slice(), 0) == '-' && char_at(a.as_slice(), 1) == '-' {
        let body = copy_range(a, 2, n);
        return long_step(defs, &body, next, on_unknown, style);
    }
    if n >= 2 && char_at(a.as_slice(), 0) == '-' {
        return short_step(defs, a, false, next, on_unknown);
    }
    if n >= 2 && char_at(a.as_slice(), 0) == '+' && any_polar(defs) {
        return short_step(defs, a, true, next, on_unknown);
    }
    StepOut::Operand
}

/// The argument list as character vectors.
fn arg_chars(args: &[&str]) -> (r: Vec<Vec<char>>)
    ensures
        r@.len() == args@.len(),
        forall|i: int| 0 <= i < args@.len() ==> #[trigger] r@[i]@ == args@[i]@,
{
    let mut r: Vec<Vec<char>> = Vec::new();
    let mut i: usize = 0;
    while i < args.len()
        invariant
            0 <= i <= args@.len(),
            r@.len() == i,
            forall|k: int| 0 <= k < i ==> #[trigger] r@[k]@ == args@[k]@,
        decreases args.len() - i,
    {
        let v = chars_of(args[i]);
        r.push(v);
        i += 1;
    }
    r
}

/// The views of a vector of character vectors.
pub open spec fn vec_views(v: Seq<Vec<char>>) -> Seq<Seq<char>> {
    v.map_values(|x: Vec<char>| x@)
}

fn whole(v: &Vec<char>) -> (s: String)
    ensures
        s@ == v@,
{
    let s = string_of(v.as_slice(), 0, v.len());
    assert(v@.subrange(0, v@.len() as int) =~= v@);
    s
}

/// Scans `args` against the declarations `flags`.
///
/// Returns the recognized flags and the operands, each in order, exactly as
/// [`spec_scan`] describes; an error is the first one [`spec_scan`] meets.
pub fn scan(
    args: &[&str],
    flags: &[FlagDef],
    on_unknown: OnUnknown,
    style: Style,
    permute: bool,
) -> (r: Result<ScanResult, Error>)
    ensures
        r matches Ok(res) ==> spec_scan(flags@, str_views(args@), on_unknown, style, permute)
            == Ok::<(Seq<ParsedView>, Seq<Seq<char>>), ErrorView>(
            (parsed_views(res.flags@), string_views(res.operands@)),
        ),
        r matches Err(e) ==> spec_scan(flags@, str_views(args@), on_unknown, style, permute)
            == Err::<(Seq<ParsedView>, Seq<Seq<char>>), ErrorView>(e@),
{
    let av = arg_chars(args);
    let ghost argv = str_views(args@);
    assert(vec_views(av@) =~= argv);
    let n = av.len();
    let mut out: Vec<Parsed> = Vec::new();
    let mut ops: Vec<String> = Vec::new();
    let mut done = false;
    let mut i: usize = 0;
    assert(parsed_views(out@) =~= seq![]);
    assert(string_views(ops@) =~= seq![]);
    while i < n
        invariant
            n == av@.len(),
            argv == str_views(args@),
            vec_views(av@) == argv,
            0 <= i <= n,
            spec_scan(flags@, argv, on_unknown, style, permute) == scan_from(
                flags@,
                argv,
                i as int,
                on_unknown,
                style,
                permute,
                parsed_views(out@),
                string_views(ops@),
                done,
            ),
        decreases n - i,
    {
        let ghost fv = parsed_views(out@);
        let ghost ov = string_views(ops@);
        assert(argv[i as int] == av@[i as int]@);
        if done {
            let s = whole(&av[i]);
            ops.push(s);
            assert(string_views(ops@) =~= ov.push(argv[i as int]));
            i += 1;
        } else {
            let next = if i + 1 < n {
                Some(&av[i + 1])
            } else {
                None
            };
            assert(i + 1 < n ==> argv[i + 1] == av@[i + 1]@);
            assert(opt_chars(next) == (if i + 1 < argv.len() {
                Some(argv[i + 1])
            } else {
                None
            }));
            match step(flags, &av[i], next, on_unknown, style) {
                StepOut::Terminator => {
                    done = true;
                    i += 1;
                },
                StepOut::Operand => {
                    let s = whole(&av[i]);
                    ops.push(s);
                    assert(string_views(ops@) =~= ov.push(argv[i as int]));
                    done = !(style == Style::Gnu && permute);
                    i += 1;
                },
                StepOut::Flags(fs, used) => {
                    let ghost fsv = parsed_views(fs@);
                    let mut fs = fs;
                    out.append(&mut fs);
                    assert(parsed_views(out@) =~= fv + fsv);
                    if used && i + 1 < n {
                        i += 2;
                    } else {
                        i += 1;
                    }
                },
                StepOut::Fail(e) => {
                    return Err(e);
                },
            }
        }
    }
    Ok(ScanResult { flags: out, operands: ops })
}


// ── Laws of the scan ────────────────────────────────────────────

/// Whether `a` can only be an operand: a bare `-` or `+`, the empty
/// argument, or anything that does not begin with `-` or `+`.
pub open spec fn plain_operand(a: Seq<char>) -> bool {
    a.len() < 2 || (a[0] != '-' && a[0] != '+')
}

proof fn lemma_done_collects(
    defs: Seq<FlagDef>,
    args: Seq<Seq<char>>,
    i: int,
    on_unknown: OnUnknown,
    style: Style,
    permute: bool,
    flags: Seq<ParsedView>,
    operands: Seq<Seq<char>>,
)
    requires
        0 <= i <= args.len(),
    ensures
        scan_from(defs, args, i, on_unknown, style, permute, flags, operands, true) == Ok::<
            (Seq<ParsedView>, Seq<Seq<char>>),
            ErrorView,
        >((flags, operands + args.subrange(i, args.len() as int))),
    decreases args.len() - i,
{
    if i < args.len() {
        lemma_done_collects(
            defs,
            args,
            i + 1,
            on_unknown,
            style,
            permute,
            flags,
            operands.push(args[i]),
        );
        assert(operands.push(args[i]) + args.subrange(i + 1, args.len() as int) =~= operands
            + args.subrange(i, args.len() as int));
    } else {
        assert(operands + args.subrange(i, args.len() as int) =~= operands);
    }
}

/// `--` ends the flags: whatever follows it is an operand, as written.
pub proof fn lemma_terminator_ends_flags(
    defs: Seq<FlagDef>,
    rest: Seq<Seq<char>>,
    on_unknown: OnUnknown,
    style: Style,
    permute: bool,
)
    ensures
        spec_scan(defs, seq![seq!['-', '-']] + rest, on_unknown, style, permute) == Ok::<
            (Seq<ParsedView>, Seq<Seq<char>>),
            ErrorView,
        >((seq![], rest)),
{
    let args = seq![seq!['-', '-']] + rest;
    assert(args[0] == seq!['-', '-']);
    lemma_done_collects(defs, args, 1, on_unknown, style, permute, seq![], seq![]);
    assert(seq![] + args.subrange(1, args.len() as int) =~= rest);
}

/// Without GNU permutation, the first operand ends the flags: when the
/// first argument is an operand, every argument is an operand.
pub proof fn lemma_operand_ends_flags(
    defs: Seq<FlagDef>,
    args: Seq<Seq<char>>,
    on_unknown: OnUnknown,
    style: Style,
    permute: bool,
)
    requires
        args.len() > 0,
        plain_operand(args[0]),
        !permutes(style, permute),
    ensures
        spec_scan(defs, args, on_unknown, style, permute) == Ok::<
            (Seq<ParsedView>, Seq<Seq<char>>),
            ErrorView,
        >((seq![], args)),
{
    lemma_done_collects(defs, args, 1, on_unknown, style, permute, seq![], seq![args[0]]);
    assert(seq![args[0]] + args.subrange(1, args.len() as int) =~= args);
}

proof fn lemma_plain_from(
    defs: Seq<FlagDef>,
    args: Seq<Seq<char>>,
    i: int,
    on_unknown: OnUnknown,
    style: Style,
    permute: bool,
    done: bool,
)
    requires
        0 <= i <= args.len(),
        forall|k: int| 0 <= k < args.len() ==> plain_operand(#[trigger] args[k]),
    ensures
        scan_from(
            defs,
            args,
            i,
            on_unknown,
            style,
            permute,
            seq![],
            args.subrange(0, i),
            done,
        ) == Ok::<(Seq<ParsedView>, Seq<Seq<char>>), ErrorView>((seq![], args)),
    decreases args.len() - i,
{
    if i < args.len() {
        assert(plain_operand(args[i]));
        assert(args.subrange(0, i).push(args[i]) =~= args.subrange(0, i + 1));
        lemma_plain_from(defs, args, i + 1, on_unknown, style, permute, true);
        lemma_plain_from(defs, args, i + 1, on_unknown, style, permute, false);
        lemma_plain_from(
            defs,
            args,
            i + 1,
            on_unknown,
            style,
            permute,
            !permutes(style, permute),
        );
    } else {
        assert(args.subrange(0, i) =~= args);
    }
}

/// Arguments that do not begin with `-` or `+` (or are bare `-`, `+` or
/// empty) are all operands, in order, whatever the declarations and style.
pub proof fn lemma_plain_arguments_are_operands(
    defs: Seq<FlagDef>,
    args: Seq<Seq<char>>,
    on_unknown: OnUnknown,
    style: Style,
    permute: bool,
)
    requires
        forall|k: int| 0 <= k < args.len() ==> plain_operand(#[trigger] args[k]),
    ensures
        spec_scan(defs, args, on_unknown, style, permute) == Ok::<
            (Seq<ParsedView>, Seq<Seq<char>>),
            ErrorView,
        >((seq![], args)),
{
    lemma_plain_from(defs, args, 0, on_unknown, style, permute, false);
    assert(args.subrange(0, 0) =~= Seq::<Seq<char>>::empty());
}

proof fn lemma_step_lenient(
    defs: Seq<FlagDef>,
    a: Seq<char>,
    next: Option<Seq<char>>,
    style: Style,
)
    ensures
        !(spec_step(defs, a, next, OnUnknown::PassThrough, style) matches StepView::Fail(
            ErrorView::UnknownFlag(_),
        )),
{
}

proof fn lemma_lenient_from(
    defs: Seq<FlagDef>,
    args: Seq<Seq<char>>,
    i: int,
    style: Style,
    permute: bool,
    flags: Seq<ParsedView>,
    operands: Seq<Seq<char>>,
    done: bool,
)
    ensures
        !(scan_from(
            defs,
            args,
            i,
            OnUnknown::PassThrough,
            style,
            permute,
            flags,
            operands,
            done,
        ) matches Err(ErrorView::UnknownFlag(_))),
    decreases args.len() - i,
{
    if 0 <= i < args.len() {
        let next = if i + 1 < args.len() {
            Some(args[i + 1])
        } else {
            None
        };
        lemma_step_lenient(defs, args[i], next, style);
        if done {
            lemma_lenient_from(
                defs,
                args,
                i + 1,
                style,
                permute,
                flags,
                operands.push(args[i]),
                true,
            );
        } else {
            match spec_step(defs, args[i], next, OnUnknown::PassThrough, style) {
                StepView::Terminator => {
                    lemma_lenient_from(defs, args, i + 1, style, permute, flags, operands, true);
                },
                StepView::Operand => {
                    lemma_lenient_from(
                        defs,
                        args,
                        i + 1,
                        style,
                        permute,
                        flags,
                        operands.push(args[i]),
                        !permutes(style, permute),
                    );
                },
                StepView::Flags(fs, used) => {
                    if used && i + 1 < args.len() {
                        lemma_lenient_from(
                            defs,
                            args,
                            i + 2,
                            style,
                            permute,
                            flags + fs,
                            operands,
                            false,
                        );
                    } else {
                        lemma_lenient_from(
                            defs,
                            args,
                            i + 1,
                            style,
                            permute,
                            flags + fs,
                            operands,
                            false,
                        );
                    }
                },
                StepView::Fail(_) => {},
            }
        }
    }
}

/// In lenient mode no argument is refused as an unknown flag.
pub proof fn lemma_lenient_never_unknown(
    defs: Seq<FlagDef>,
    args: Seq<Seq<char>>,
    style: Style,
    permute: bool,
)
    ensures
        !(spec_scan(defs, args, OnUnknown::PassThrough, style, permute) matches Err(
            ErrorView::UnknownFlag(_),
        )),
{
    lemma_lenient_from(defs, args, 0, style, permute, seq![], seq![], false);
}


/// The character of a flag occurrence.
pub open spec fn parsed_char(p: ParsedView) -> char {
    match p {
        ParsedView::Bool(c) => c,
        ParsedView::Polar(c, _) => c,
        ParsedView::Value(c, _) => c,
        ParsedView::PolarValue(c, _, _) => c,
    }
}

/// Whether an occurrence has the shape that a flag of kind `kind` produces.
pub open spec fn fits(kind: FlagKind, p: ParsedView) -> bool {
    match p {
        ParsedView::Bool(_) => kind == FlagKind::Bool,
        ParsedView::Polar(_, _) => kind == FlagKind::Polar,
        ParsedView::Value(_, _) => kind == FlagKind::Value,
        ParsedView::PolarValue(_, _, _) => kind == FlagKind::PolarValue,
    }
}

/// Whether some declaration produces the occurrence `p`.
pub open spec fn declared(defs: Seq<FlagDef>, p: ParsedView) -> bool {
    exists|k: int| 0 <= k < defs.len() && #[trigger] defs[k].ch == parsed_char(p) && fits(defs[k].kind, p)
}

/// Whether every occurrence in `fs` is declared.
pub open spec fn all_declared(defs: Seq<FlagDef>, fs: Seq<ParsedView>) -> bool {
    forall|i: int| 0 <= i < fs.len() ==> declared(defs, #[trigger] fs[i])
}

proof fn lemma_find_short_found(defs: Seq<FlagDef>, c: char, k: int)
    ensures
        find_short_from(defs, c, k) matches Some(r) ==> 0 <= r < defs.len() && defs[r].ch == c,
    decreases defs.len() - k,
{
    if 0 <= k < defs.len() && defs[k].ch != c {
        lemma_find_short_found(defs, c, k + 1);
    }
}

proof fn lemma_find_exact_in_range(defs: Seq<FlagDef>, name: Seq<char>, k: int)
    ensures
        find_exact_from(defs, name, k) matches Some(r) ==> 0 <= r < defs.len(),
    decreases defs.len() - k,
{
    if 0 <= k < defs.len() {
        lemma_find_exact_in_range(defs, name, k + 1);
    }
}

proof fn lemma_find_prefix_in_range(defs: Seq<FlagDef>, name: Seq<char>, k: int)
    ensures
        find_prefix_from(defs, name, k) matches Some(r) ==> 0 <= r < defs.len(),
    decreases defs.len() - k,
{
    if 0 <= k < defs.len() {
        lemma_find_prefix_in_range(defs, name, k + 1);
    }
}

proof fn lemma_bundle_declared(
    defs: Seq<FlagDef>,
    body: Seq<char>,
    j: int,
    off: bool,
    next: Option<Seq<char>>,
)
    ensures
        spec_bundle(defs, body, j, off, next) matches BundleView::Flags(fs, _) ==> all_declared(
            defs,
            fs,
        ),
    decreases body.len() - j,
{
    if 0 <= j < body.len() {
        let c = body[j];
        lemma_find_short_found(defs, c, 0);
        lemma_bundle_declared(defs, body, j + 1, off, next);
        match find_short_from(defs, c, 0) {
            Some(k) => {
                let rest = spec_bundle(defs, body, j + 1, off, next);
                match spec_bundle(defs, body, j, off, next) {
                    BundleView::Flags(fs, _) => {
                        assert forall|i: int| 0 <= i < fs.len() implies declared(
                            defs,
                            #[trigger] fs[i],
                        ) by {
                            if defs[k].kind == FlagKind::Bool || defs[k].kind == FlagKind::Polar {
                                if i == 0 {
                                    assert(defs[k].ch == parsed_char(fs[i]));
                                } else {
                                    if let BundleView::Flags(rfs, _) = rest {
                                        assert(fs[i] == rfs[i - 1]);
                                    }
                                }
                            } else if defs[k].kind != FlagKind::Noop {
                                assert(defs[k].ch == parsed_char(fs[i]));
                            }
                        }
                    },
                    _ => {},
                }
            },
            None => {},
        }
    }
}

proof fn lemma_step_declared(
    defs: Seq<FlagDef>,
    a: Seq<char>,
    next: Option<Seq<char>>,
    on_unknown: OnUnknown,
    style: Style,
)
    ensures
        spec_step(defs, a, next, on_unknown, style) matches StepView::Flags(fs, _) ==> all_declared(
            defs,
            fs,
        ),
{
    if a.len() >= 3 && a[0] == '-' && a[1] == '-' {
        let body = a.subrange(2, a.len() as int);
        let name = long_name(body);
        lemma_find_exact_in_range(defs, name, 0);
        lemma_find_prefix_in_range(defs, name, 0);
        match resolve_long(defs, name, style) {
            Some(k) => {
                if let StepView::Flags(fs, _) = spec_step(defs, a, next, on_unknown, style) {
                    assert forall|i: int| 0 <= i < fs.len() implies declared(defs, #[trigger] fs[i]) by {
                        assert(defs[k].ch == parsed_char(fs[i]));
                    }
                }
            },
            None => {},
        }
    } else if a.len() >= 2 {
        lemma_bundle_declared(defs, a.subrange(1, a.len() as int), 0, false, next);
        lemma_bundle_declared(defs, a.subrange(1, a.len() as int), 0, true, next);
    }
}

proof fn lemma_declared_from(
    defs: Seq<FlagDef>,
    args: Seq<Seq<char>>,
    i: int,
    on_unknown: OnUnknown,
    style: Style,
    permute: bool,
    flags: Seq<ParsedView>,
    operands: Seq<Seq<char>>,
    done: bool,
)
    requires
        all_declared(defs, flags),
    ensures
        scan_from(defs, args, i, on_unknown, style, permute, flags, operands, done) matches Ok(
            (fs, _),
        ) ==> all_declared(defs, fs),
    decreases args.len() - i,
{
    if 0 <= i < args.len() {
        if done {
            lemma_declared_from(
                defs,
                args,
                i + 1,
                on_unknown,
                style,
                permute,
                flags,
                operands.push(args[i]),
                true,
            );
        } else {
            let next = if i + 1 < args.len() {
                Some(args[i + 1])
            } else {
                None
            };
            lemma_step_declared(defs, args[i], next, on_unknown, style);
            match spec_step(defs, args[i], next, on_unknown, style) {
                StepView::Terminator => {
                    lemma_declared_from(
                        defs,
                        args,
                        i + 1,
                        on_unknown,
                        style,
                        permute,
                        flags,
                        operands,
                        true,
                    );
                },
                StepView::Operand => {
                    lemma_declared_from(
                        defs,
                        args,
                        i + 1,
                        on_unknown,
                        style,
                        permute,
                        flags,
                        operands.push(args[i]),
                        !permutes(style, permute),
                    );
                },
                StepView::Flags(fs, used) => {
                    assert(all_declared(defs, flags + fs)) by {
                        assert forall|k: int| 0 <= k < (flags + fs).len() implies declared(
                            defs,
                            #[trigger] (flags + fs)[k],
                        ) by {
                            if k < flags.len() {
                                assert((flags + fs)[k] == flags[k]);
                            } else {
                                assert((flags + fs)[k] == fs[k - flags.len()]);
                            }
                        }
                    }
                    if used && i + 1 < args.len() {
                        lemma_declared_from(
                            defs,
                            args,
                            i + 2,
                            on_unknown,
                            style,
                            permute,
                            flags + fs,
                            operands,
                            false,
                        );
                    } else {
                        lemma_declared_from(
                            defs,
                            args,
                            i + 1,
                            on_unknown,
                            style,
                            permute,
                            flags + fs,
                            operands,
                            false,
                        );
                    }
                },
                StepView::Fail(_) => {},
            }
        }
    }
}

/// The scan reports only declared flags: every recognized occurrence has the
/// character of some declaration, in the shape that declaration's kind gives.
pub proof fn lemma_scan_reports_declared_flags(
    defs: Seq<FlagDef>,
    args: Seq<Seq<char>>,
    on_unknown: OnUnknown,
    style: Style,
    permute: bool,
)
    ensures
        spec_scan(defs, args, on_unknown, style, permute) matches Ok((fs, _)) ==> all_declared(
            defs,
            fs,
        ),
{
    lemma_declared_from(defs, args, 0, on_unknown, style, permute, seq![], seq![], false);
}


/// The scan from argument `i` depends only on the arguments from `s` on.
proof fn lemma_scan_suffix(
    defs: Seq<FlagDef>,
    args: Seq<Seq<char>>,
    s: int,
    i: int,
    on_unknown: OnUnknown,
    style: Style,
    permute: bool,
    flags: Seq<ParsedView>,
    operands: Seq<Seq<char>>,
    done: bool,
)
    requires
        0 <= s <= i <= args.len(),
    ensures
        scan_from(defs, args, i, on_unknown, style, permute, flags, operands, done) == scan_from(
            defs,
            args.subrange(s, args.len() as int),
            i - s,
            on_unknown,
            style,
            permute,
            flags,
            operands,
            done,
        ),
    decreases args.len() - i,
{
    let t = args.subrange(s, args.len() as int);
    if i < args.len() {
        assert(t[i - s] == args[i]);
        if i + 1 < args.len() {
            assert(t[i - s + 1] == args[i + 1]);
        }
        if done {
            lemma_scan_suffix(
                defs, args, s, i + 1, on_unknown, style, permute, flags, operands.push(args[i]), true);
        } else {
            let next = if i + 1 < args.len() {
                Some(args[i + 1])
            } else {
                None
            };
            match spec_step(defs, args[i], next, on_unknown, style) {
                StepView::Terminator => {
                    lemma_scan_suffix(
                        defs, args, s, i + 1, on_unknown, style, permute, flags, operands, true);
                },
                StepView::Operand => {
                    lemma_scan_suffix(
                        defs,
                        args,
                        s,
                        i + 1,
                        on_unknown,
                        style,
                        permute,
                        flags,
                        operands.push(args[i]),
                        !permutes(style, permute),
                    );
                },
                StepView::Flags(fs, used) => {
                    if used && i + 1 < args.len() {
                        lemma_scan_suffix(
                            defs, args, s, i + 2, on_unknown, style, permute, flags + fs, operands,
                            false);
                    } else {
                        lemma_scan_suffix(
                            defs, args, s, i + 1, on_unknown, style, permute, flags + fs, operands,
                            false);
                    }
                },
                StepView::Fail(_) => {},
            }
        }
    }
}

/// Whether `c`'s first declaration is of kind `kind`.
pub open spec fn declared_as(defs: Seq<FlagDef>, c: char, kind: FlagKind) -> bool {
    match find_short_from(defs, c, 0) {
        Some(k) => defs[k].kind == kind,
        None => false,
    }
}

/// A stuck value is the same as a separate one: `-ofile` scans as `-o file`.
pub proof fn lemma_stuck_value(
    defs: Seq<FlagDef>,
    c: char,
    v: Seq<char>,
    rest: Seq<Seq<char>>,
    on_unknown: OnUnknown,
    style: Style,
    permute: bool,
)
    requires
        c != '-',
        v.len() > 0,
        declared_as(defs, c, FlagKind::Value) || declared_as(defs, c, FlagKind::PolarValue),
    ensures
        spec_scan(defs, seq![seq!['-', c] + v] + rest, on_unknown, style, permute) == spec_scan(
            defs,
            seq![seq!['-', c], v] + rest,
            on_unknown,
            style,
            permute,
        ),
{
    let k = find_short_from(defs, c, 0)->0;
    let kind = defs[k].kind;
    let p = valued(kind, c, false, v);
    let stuck = seq!['-', c] + v;
    let a1 = seq![stuck] + rest;
    let a2 = seq![seq!['-', c], v] + rest;
    assert(a1[0] == stuck);
    assert(stuck[1] == c);
    let body1 = stuck.subrange(1, stuck.len() as int);
    assert(body1[0] == c);
    assert(body1.subrange(1, body1.len() as int) =~= v);
    let next1 = if 1 < a1.len() {
        Some(a1[1])
    } else {
        None
    };
    assert(spec_bundle(defs, body1, 0, false, next1) == BundleView::Flags(seq![p], false));
    assert(spec_step(defs, stuck, next1, on_unknown, style) == StepView::Flags(seq![p], false));
    lemma_scan_suffix(defs, a1, 1, 1, on_unknown, style, permute, seq![] + seq![p], seq![], false);
    assert(a1.subrange(1, a1.len() as int) =~= rest);
    assert(a2[0] == seq!['-', c] && a2[1] == v);
    let body2 = seq!['-', c].subrange(1, 2);
    assert(body2 =~= seq![c]);
    assert(spec_bundle(defs, body2, 0, false, Some(v)) == BundleView::Flags(seq![p], true));
    assert(spec_step(defs, a2[0], Some(v), on_unknown, style) == StepView::Flags(seq![p], true));
    lemma_scan_suffix(defs, a2, 2, 2, on_unknown, style, permute, seq![] + seq![p], seq![], false);
    assert(a2.subrange(2, a2.len() as int) =~= rest);
}

/// The occurrence of the boolean flag `c`.
pub open spec fn bool_occurrence(c: char) -> ParsedView {
    ParsedView::Bool(c)
}

/// The occurrences of the boolean flags `cs`, in order.
pub open spec fn bool_flags(cs: Seq<char>) -> Seq<ParsedView> {
    Seq::new(cs.len(), |i: int| bool_occurrence(cs[i]))
}

/// The arguments `-c` for each `c` of `cs`, in order.
pub open spec fn split_bundle(cs: Seq<char>) -> Seq<Seq<char>> {
    Seq::new(cs.len(), |i: int| seq!['-', cs[i]])
}

proof fn lemma_bool_bundle(defs: Seq<FlagDef>, cs: Seq<char>, j: int, next: Option<Seq<char>>)
    requires
        0 <= j <= cs.len(),
        forall|i: int| 0 <= i < cs.len() ==> declared_as(defs, #[trigger] cs[i], FlagKind::Bool),
    ensures
        spec_bundle(defs, cs, j, false, next) == BundleView::Flags(
            bool_flags(cs.subrange(j, cs.len() as int)),
            false,
        ),
    decreases cs.len() - j,
{
    if j < cs.len() {
        assert(declared_as(defs, cs[j], FlagKind::Bool));
        lemma_bool_bundle(defs, cs, j + 1, next);
        let tail = cs.subrange(j + 1, cs.len() as int);
        let here = cs.subrange(j, cs.len() as int);
        assert forall|k: int| 0 <= k < here.len() implies (seq![bool_occurrence(cs[j])]
            + bool_flags(tail))[k] == bool_flags(here)[k] by {
            if k > 0 {
                assert(here[k] == tail[k - 1]);
            }
        }
        assert(seq![bool_occurrence(cs[j])] + bool_flags(tail) =~= bool_flags(here));
    } else {
        assert(bool_flags(cs.subrange(j, cs.len() as int)) =~= seq![]);
    }
}

proof fn lemma_split_scan(
    defs: Seq<FlagDef>,
    cs: Seq<char>,
    rest: Seq<Seq<char>>,
    j: int,
    on_unknown: OnUnknown,
    style: Style,
    permute: bool,
    flags: Seq<ParsedView>,
)
    requires
        0 <= j <= cs.len(),
        forall|i: int|
            0 <= i < cs.len() ==> #[trigger] cs[i] != '-' && declared_as(defs, cs[i], FlagKind::Bool),
    ensures
        scan_from(
            defs,
            split_bundle(cs) + rest,
            j,
            on_unknown,
            style,
            permute,
            flags,
            seq![],
            false,
        ) == scan_from(
            defs,
            split_bundle(cs) + rest,
            cs.len() as int,
            on_unknown,
            style,
            permute,
            flags + bool_flags(cs.subrange(j, cs.len() as int)),
            seq![],
            false,
        ),
    decreases cs.len() - j,
{
    let args = split_bundle(cs) + rest;
    let n = cs.len() as int;
    if j < n {
        let c = cs[j];
        assert(c != '-' && declared_as(defs, c, FlagKind::Bool));
        assert(args[j] == seq!['-', c]);
        let next = if j + 1 < args.len() {
            Some(args[j + 1])
        } else {
            None
        };
        let body = seq!['-', c].subrange(1, 2);
        assert(body =~= seq![c]);
        lemma_bool_bundle(defs, body, 0, next);
        assert(bool_flags(body.subrange(0, 1)) =~= seq![ParsedView::Bool(c)]);
        assert(spec_step(defs, args[j], next, on_unknown, style) == StepView::Flags(
            seq![ParsedView::Bool(c)],
            false,
        ));
        lemma_split_scan(
            defs, cs, rest, j + 1, on_unknown, style, permute, flags + seq![ParsedView::Bool(c)]);
        assert(flags + seq![ParsedView::Bool(c)] + bool_flags(cs.subrange(j + 1, n)) =~= flags
            + bool_flags(cs.subrange(j, n)));
    } else {
        assert(flags + bool_flags(cs.subrange(j, n)) =~= flags);
    }
}

/// Boolean flags bundle: `-abc` scans as `-a -b -c`.
pub proof fn lemma_bundle_splits(
    defs: Seq<FlagDef>,
    cs: Seq<char>,
    rest: Seq<Seq<char>>,
    on_unknown: OnUnknown,
    style: Style,
    permute: bool,
)
    requires
        cs.len() > 0,
        forall|i: int|
            0 <= i < cs.len() ==> #[trigger] cs[i] != '-' && declared_as(defs, cs[i], FlagKind::Bool),
    ensures
        spec_scan(defs, seq![seq!['-'] + cs] + rest, on_unknown, style, permute) == spec_scan(
            defs,
            split_bundle(cs) + rest,
            on_unknown,
            style,
            permute,
        ),
{
    let a = seq!['-'] + cs;
    let a1 = seq![a] + rest;
    let n = cs.len() as int;
    assert(a1[0] == a);
    assert(cs[0] != '-');
    assert(a[1] == cs[0]);
    let body = a.subrange(1, a.len() as int);
    assert(body =~= cs);
    let next = if 1 < a1.len() {
        Some(a1[1])
    } else {
        None
    };
    lemma_bool_bundle(defs, cs, 0, next);
    assert(cs.subrange(0, n) =~= cs);
    assert(spec_step(defs, a, next, on_unknown, style) == StepView::Flags(bool_flags(cs), false));
    lemma_scan_suffix(
        defs, a1, 1, 1, on_unknown, style, permute, seq![] + bool_flags(cs), seq![], false);
    assert(a1.subrange(1, a1.len() as int) =~= rest);
    let a2 = split_bundle(cs) + rest;
    lemma_split_scan(defs, cs, rest, 0, on_unknown, style, permute, seq![]);
    lemma_scan_suffix(
        defs, a2, n, n, on_unknown, style, permute, seq![] + bool_flags(cs), seq![], false);
    assert(a2.subrange(n, a2.len() as int) =~= rest);
}

/// In lenient mode a bundle that starts with an undeclared character is an
/// operand.
pub proof fn lemma_lenient_unknown_is_operand(
    defs: Seq<FlagDef>,
    c: char,
    w: Seq<char>,
    next: Option<Seq<char>>,
    style: Style,
)
    requires
        c != '-',
        find_short_from(defs, c, 0) is None,
    ensures
        spec_step(defs, seq!['-', c] + w, next, OnUnknown::PassThrough, style) == StepView::Operand,
{
    let a = seq!['-', c] + w;
    assert(a[0] == '-' && a[1] == c);
    assert(a.subrange(1, a.len() as int)[0] == c);
}


/// The scan only ever adds operands after those it was given.
proof fn lemma_scan_keeps_operands(
    defs: Seq<FlagDef>,
    args: Seq<Seq<char>>,
    i: int,
    on_unknown: OnUnknown,
    style: Style,
    permute: bool,
    flags: Seq<ParsedView>,
    operands: Seq<Seq<char>>,
    done: bool,
)
    requires
        0 <= i,
    ensures
        scan_from(defs, args, i, on_unknown, style, permute, flags, operands, done) matches Ok(
            (_, ops),
        ) ==> operands.len() <= ops.len() && ops.subrange(0, operands.len() as int) == operands,
    decreases args.len() - i,
{
    if i >= args.len() {
        assert(operands.subrange(0, operands.len() as int) =~= operands);
    } else if done {
        lemma_scan_keeps_operands(
            defs, args, i + 1, on_unknown, style, permute, flags, operands.push(args[i]), true);
        match scan_from(defs, args, i, on_unknown, style, permute, flags, operands, done) {
            Ok((_, ops)) => {
                assert(ops.subrange(0, operands.len() as int) =~= ops.subrange(
                    0,
                    operands.len() + 1int,
                ).subrange(0, operands.len() as int));
            },
            Err(_) => {},
        }
    } else {
        let next = if i + 1 < args.len() {
            Some(args[i + 1])
        } else {
            None
        };
        match spec_step(defs, args[i], next, on_unknown, style) {
            StepView::Terminator => {
                lemma_scan_keeps_operands(
                    defs, args, i + 1, on_unknown, style, permute, flags, operands, true);
            },
            StepView::Operand => {
                lemma_scan_keeps_operands(
                    defs,
                    args,
                    i + 1,
                    on_unknown,
                    style,
                    permute,
                    flags,
                    operands.push(args[i]),
                    !permutes(style, permute),
                );
                match scan_from(defs, args, i, on_unknown, style, permute, flags, operands, done) {
                    Ok((_, ops)) => {
                        assert(ops.subrange(0, operands.len() as int) =~= ops.subrange(
                            0,
                            operands.len() + 1int,
                        ).subrange(0, operands.len() as int));
                    },
                    Err(_) => {},
                }
            },
            StepView::Flags(fs, used) => {
                if used && i + 1 < args.len() {
                    lemma_scan_keeps_operands(
                        defs, args, i + 2, on_unknown, style, permute, flags + fs, operands, false);
                } else {
                    lemma_scan_keeps_operands(
                        defs, args, i + 1, on_unknown, style, permute, flags + fs, operands, false);
                }
            },
            StepView::Fail(_) => {},
        }
    }
}

/// In lenient mode an undeclared long option is kept as an operand: when
/// `--body` names no declaration (and is not GNU's `--help`), the scan
/// keeps it, as written, as the first operand; without permutation it also
/// ends the flags, so the result is no flag and every argument an operand.
pub proof fn lemma_lenient_unknown_long_is_operand(
    defs: Seq<FlagDef>,
    body: Seq<char>,
    rest: Seq<Seq<char>>,
    style: Style,
    permute: bool,
)
    requires
        body.len() > 0,
        resolve_long(defs, long_name(body), style) is None,
        !(style == Style::Gnu && long_name(body) == "help"@),
    ensures
        spec_scan(defs, seq![seq!['-', '-'] + body] + rest, OnUnknown::PassThrough, style, permute)
            matches Ok((_, ops)) ==> ops.len() > 0 && ops[0] == seq!['-', '-'] + body,
        !permutes(style, permute) ==> spec_scan(
            defs,
            seq![seq!['-', '-'] + body] + rest,
            OnUnknown::PassThrough,
            style,
            permute,
        ) == Ok::<(Seq<ParsedView>, Seq<Seq<char>>), ErrorView>(
            (seq![], seq![seq!['-', '-'] + body] + rest),
        ),
{
    let a = seq!['-', '-'] + body;
    let args = seq![a] + rest;
    assert(args[0] == a);
    assert(a.len() >= 3 && a[0] == '-' && a[1] == '-');
    assert(a != seq!['-', '-']);
    assert(a.subrange(2, a.len() as int) =~= body);
    let next = if 1 < args.len() {
        Some(args[1])
    } else {
        None
    };
    assert(spec_long_step(defs, body, next, OnUnknown::PassThrough, style) == StepView::Operand);
    assert(spec_step(defs, a, next, OnUnknown::PassThrough, style) == StepView::Operand);
    let d = !permutes(style, permute);
    assert(seq![].push(a) =~= seq![a]);
    lemma_scan_keeps_operands(
        defs, args, 1, OnUnknown::PassThrough, style, permute, seq![], seq![a], d);
    if d {
        lemma_done_collects(defs, args, 1, OnUnknown::PassThrough, style, permute, seq![], seq![a]);
        assert(seq![a] + args.subrange(1, args.len() as int) =~= args);
    }
}

} // verus!
