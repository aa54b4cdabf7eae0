//! Commands declared the way the derive front end reads struct definitions,
//! then planned and parsed by the library.

use ecmd::derive::attrs::{AttrArg, AttrEntry, AttrLit, ListItem};
use ecmd::derive::bind::{bind, FieldValue};
use ecmd::derive::codegen::FieldInfo;
use ecmd::derive::plan::{expand, CommandInput, CommandPlan, ItemShape};
use ecmd::error::Error;
use ecmd::meta::CommandDef;
use ecmd::operands::Operands;
use ecmd::polarity::{PolarVal, Polarity};

// ── Declaring commands ─────────────────────────────────────────

fn string(key: &str, v: &str) -> AttrEntry {
    AttrEntry { key: key.into(), arg: AttrArg::Value(AttrLit::Str(v.into())) }
}

fn bare(key: &str) -> AttrEntry {
    AttrEntry { key: key.into(), arg: AttrArg::Bare }
}

fn character(key: &str, c: char) -> AttrEntry {
    AttrEntry { key: key.into(), arg: AttrArg::Value(AttrLit::Char(c)) }
}

fn idents(key: &str, names: &[&str]) -> AttrEntry {
    AttrEntry {
        key: key.into(),
        arg: AttrArg::List(names.iter().map(|n| ListItem::Ident((*n).into())).collect()),
    }
}

fn strings(key: &str, values: &[&str]) -> AttrEntry {
    AttrEntry {
        key: key.into(),
        arg: AttrArg::List(values.iter().map(|v| ListItem::Str((*v).into())).collect()),
    }
}

fn tag(key: &str) -> AttrEntry {
    AttrEntry { key: "tag".into(), arg: AttrArg::List(vec![ListItem::Ident(key.into())]) }
}

fn tag_value(key: &str, value: &str) -> AttrEntry {
    AttrEntry {
        key: "tag".into(),
        arg: AttrArg::List(vec![ListItem::KeyValue(key.into(), AttrLit::Str(value.into()))]),
    }
}

fn short(c: char) -> Option<Vec<AttrEntry>> {
    Some(vec![character("short", c)])
}

fn doc(lines: &[&str]) -> Vec<String> {
    lines.iter().map(|l| if l.is_empty() { String::new() } else { format!(" {l}") }).collect()
}

fn field(ident: &str, ty: &str, inner: Option<&str>, flag: Option<Vec<AttrEntry>>, lines: &[&str]) -> FieldInfo {
    FieldInfo {
        ident: ident.into(),
        ty: ty.into(),
        inner: inner.map(Into::into),
        flag,
        doc: doc(lines),
    }
}

fn plan(attrs: Vec<AttrEntry>, lines: &[&str], fields: Vec<FieldInfo>) -> CommandPlan {
    expand(&CommandInput { attrs, doc: doc(lines), shape: ItemShape::NamedStruct, fields }).unwrap()
}

/// Field values by field name.
struct Cmd {
    names: Vec<String>,
    values: Vec<FieldValue>,
}

impl Cmd {
    fn value(&self, name: &str) -> &FieldValue {
        let i = self.names.iter().position(|n| n == name).unwrap();
        &self.values[i]
    }

    fn flag(&self, name: &str) -> bool {
        match self.value(name) {
            FieldValue::Bool(b) => *b,
            other => panic!("{name} is {other:?}"),
        }
    }

    fn polarity(&self, name: &str) -> Polarity {
        match self.value(name) {
            FieldValue::Polar(p) => *p,
            other => panic!("{name} is {other:?}"),
        }
    }

    fn opt(&self, name: &str) -> Option<String> {
        match self.value(name) {
            FieldValue::Opt(o) => o.clone(),
            other => panic!("{name} is {other:?}"),
        }
    }

    fn list(&self, name: &str) -> Vec<String> {
        match self.value(name) {
            FieldValue::List(l) => l.clone(),
            other => panic!("{name} is {other:?}"),
        }
    }

    fn polar_list(&self, name: &str) -> Vec<PolarVal> {
        match self.value(name) {
            FieldValue::PolarList(l) => l.clone(),
            other => panic!("{name} is {other:?}"),
        }
    }

    fn string(&self, name: &str) -> String {
        match self.value(name) {
            FieldValue::Str(s) => s.clone(),
            other => panic!("{name} is {other:?}"),
        }
    }

    fn rest(&self, name: &str) -> Operands {
        match self.value(name) {
            FieldValue::Rest(o) => o.clone(),
            other => panic!("{name} is {other:?}"),
        }
    }
}

fn parse(plan: &CommandPlan, args: &[&str]) -> Result<Cmd, Error> {
    let values = plan.parse(args)?;
    Ok(Cmd { names: plan.slots.iter().map(|s| s.ident.clone()).collect(), values })
}

/// What a derived field of type `T: FromStr` does with a value.
fn typed<T: std::str::FromStr>(flag: char, v: &str) -> Result<T, Error>
where
    T::Err: std::fmt::Display,
{
    v.parse().map_err(|e: T::Err| Error::invalid_value(flag, v, &format!("{e}")))
}

/// A derived parse of a command with typed fields, as the generated code
/// runs it: scan, then every value a valued field is given must pass
/// `check` (by field name) when it is seen, then the fields bind.
fn parse_checked(plan: &CommandPlan, args: &[&str], check: fn(&str, &str) -> Result<(), Error>) -> Result<Cmd, Error> {
    let scanned = plan.scan_args(args)?;
    for (slot, v) in plan.value_occurrences(&scanned.flags) {
        check(&plan.slots[slot].ident, &v)?;
    }
    let values = bind(&plan.slots, scanned)?;
    Ok(Cmd { names: plan.slots.iter().map(|s| s.ident.clone()).collect(), values })
}

fn ulimit_types(field: &str, v: &str) -> Result<(), Error> {
    match field {
        "limits" => typed::<u32>('n', v).map(|_| ()),
        _ => Ok(()),
    }
}

fn read_types(field: &str, v: &str) -> Result<(), Error> {
    match field {
        "nchars" => typed::<usize>('n', v).map(|_| ()),
        "timeout" => typed::<f64>('t', v).map(|_| ()),
        _ => Ok(()),
    }
}

fn def(plan: &CommandPlan) -> &CommandDef {
    &plan.def
}

// ── The commands ───────────────────────────────────────────────

fn cd() -> CommandPlan {
    plan(
        vec![string("name", "cd")],
        &[],
        vec![
            field("logical", "bool", None, Some(vec![character("short", 'L'), idents("clears", &["physical"])]), &[]),
            field("physical", "bool", None, Some(vec![character("short", 'P'), idents("clears", &["logical"])]), &[]),
            field("dir", "Option", Some("String"), None, &[]),
        ],
    )
}

fn echo() -> CommandPlan {
    plan(
        vec![string("name", "echo"), bare("lenient")],
        &[],
        vec![
            field("no_newline", "bool", None, short('n'), &[]),
            field("escapes", "bool", None, short('e'), &[]),
            field("no_escapes", "bool", None, short('E'), &[]),
            field("args", "Operands", None, None, &[]),
        ],
    )
}

fn declare() -> CommandPlan {
    plan(
        vec![string("name", "declare")],
        &[],
        vec![
            field("array", "Polarity", None, short('a'), &[]),
            field("export", "Polarity", None, short('x'), &[]),
            field("print", "bool", None, short('p'), &[]),
            field("args", "Operands", None, None, &[]),
        ],
    )
}

fn hash() -> CommandPlan {
    plan(
        vec![string("name", "hash")],
        &[],
        vec![
            field("delete", "bool", None, short('d'), &[]),
            field("paths", "Vec", Some("String"), short('p'), &[]),
            field("args", "Operands", None, None, &[]),
        ],
    )
}

fn ulimit() -> CommandPlan {
    plan(vec![string("name", "ulimit")], &[], vec![field("limits", "Vec", Some("u32"), short('n'), &[])])
}

fn read_cmd() -> CommandPlan {
    plan(
        vec![string("name", "read"), string("noop", "eE")],
        &[],
        vec![
            field("raw", "bool", None, short('r'), &[]),
            field("nchars", "Option", Some("usize"), short('n'), &[]),
            field("timeout", "Option", Some("f64"), short('t'), &[]),
            field("prompt", "Option", Some("String"), short('p'), &[]),
            field("vars", "Operands", None, None, &[]),
        ],
    )
}

fn set() -> CommandPlan {
    plan(
        vec![string("name", "set")],
        &[],
        vec![
            field("errexit", "Polarity", None, short('e'), &[]),
            field("xtrace", "Polarity", None, short('x'), &[]),
            field("option", "Vec", Some("PolarVal"), short('o'), &[]),
            field("positional", "Operands", None, None, &[]),
        ],
    )
}

fn grep() -> CommandPlan {
    plan(
        vec![string("name", "grep")],
        &[],
        vec![
            field("ignore_case", "bool", None, short('i'), &[]),
            field("line_numbers", "bool", None, short('n'), &[]),
            field("pattern", "String", None, None, &[]),
            field("files", "Operands", None, None, &[]),
        ],
    )
}

fn my_cd() -> CommandPlan {
    plan(
        vec![string("name", "mycd")],
        &["Change the shell working directory."],
        vec![
            field(
                "my_logical",
                "bool",
                None,
                Some(vec![character("short", 'L'), idents("clears", &["my_physical"])]),
                &["Follow symlinks (default)."],
            ),
            field(
                "my_physical",
                "bool",
                None,
                Some(vec![character("short", 'P'), idents("clears", &["my_logical"])]),
                &["Use physical directory."],
            ),
            field("target", "Option", Some("String"), None, &["Target directory."]),
        ],
    )
}

fn my_read() -> CommandPlan {
    plan(
        vec![string("name", "myread"), string("noop", "eE")],
        &["Read input."],
        vec![
            field("raw", "bool", None, short('r'), &["Raw mode."]),
            field(
                "nchars",
                "Option",
                Some("usize"),
                Some(vec![character("short", 'n'), string("value_name", "NCHARS")]),
                &["Read N characters."],
            ),
            field(
                "prompt",
                "Option",
                Some("String"),
                Some(vec![character("short", 'p'), string("value_name", "PROMPT")]),
                &["Prompt string."],
            ),
            field("vars", "Operands", None, None, &[]),
        ],
    )
}

fn export() -> CommandPlan {
    plan(
        vec![string("name", "export"), tag_value("kind", "special"), tag("special"), tag("assignment")],
        &["Export variables."],
        vec![
            field("unexport", "bool", None, short('n'), &[]),
            field("print", "bool", None, short('p'), &[]),
            field("names", "Operands", None, None, &[]),
        ],
    )
}

fn bash_alias() -> CommandPlan {
    plan(
        vec![
            string("name", "alias"),
            tag_value("kind", "bash"),
            bare("lenient"),
            string("short_doc", "alias [-p] [name[=value] ... ]"),
        ],
        &[
            "Define or display aliases.",
            "",
            "Without arguments, `alias' prints the list of aliases in the reusable",
            "form `alias NAME=VALUE' on standard output.",
            "",
            "Otherwise, an alias is defined for each NAME whose VALUE is given.",
            "A trailing space in VALUE causes the next word to be checked for",
            "alias substitution when the alias is expanded.",
            "",
            "# Options",
            "",
            "# Exit Status",
            "alias returns true unless a NAME is supplied for which no alias has been",
            "defined.",
        ],
        vec![
            field("alias_print", "bool", None, short('p'), &["print all defined aliases in a reusable format"]),
            field("alias_args", "Operands", None, None, &[]),
        ],
    )
}

fn bash_exit() -> CommandPlan {
    plan(
        vec![string("name", "exit"), tag_value("kind", "special"), tag("special"), string("short_doc", "exit [n]")],
        &[
            "Exit the shell.",
            "",
            "Exits the shell with a status of N.  If N is omitted, the exit status",
            "is that of the last command executed.",
        ],
        vec![field("exit_code", "Option", Some("String"), None, &[])],
    )
}

fn bash_echo() -> CommandPlan {
    plan(
        vec![
            string("name", "echo2"),
            tag_value("kind", "bash"),
            tag("no_help"),
            bare("lenient"),
            string("short_doc", "echo [-neE] [arg ...]"),
            strings(
                "extra_help",
                &[
                    "Options:",
                    "  -n\tdo not append a newline",
                    "  -e\tenable interpretation of the following backslash escapes",
                    "  -E\texplicitly suppress interpretation of backslash escapes",
                ],
            ),
        ],
        &[
            "Write arguments to the standard output.",
            "",
            "Display the ARGs, separated by a single space character and followed by a",
            "newline, on the standard output.",
            "",
            "# Exit Status",
            "Returns success unless a write error occurs.",
        ],
        vec![field("echo_args", "Operands", None, None, &[])],
    )
}

fn bash_cd() -> CommandPlan {
    plan(
        vec![string("name", "cd2"), string("short_doc", "cd [-LP] [dir]")],
        &[
            "Change the shell working directory.",
            "",
            "Change the current directory to DIR.",
            "",
            "# Options",
            "",
            "The default is to follow symbolic links.",
            "",
            "# Exit Status",
            "Returns 0 if the directory is changed.",
        ],
        vec![
            field(
                "cd_logical",
                "bool",
                None,
                Some(vec![character("short", 'L'), idents("clears", &["cd_physical"])]),
                &["force symbolic links to be followed: resolve symbolic", "links in DIR after processing instances of `..'"],
            ),
            field(
                "cd_physical",
                "bool",
                None,
                Some(vec![character("short", 'P'), idents("clears", &["cd_logical"])]),
                &["use the physical directory structure without following", "symbolic links"],
            ),
            field("cd_dir", "Option", Some("String"), None, &[]),
        ],
    )
}

fn basename() -> CommandPlan {
    plan(
        vec![string("name", "basename"), string("style", "gnu"), string("short_doc", "basename [-z] NAME [SUFFIX]")],
        &[],
        vec![
            field("multiple", "bool", None, short('a'), &["support multiple arguments and treat each as a NAME"]),
            field(
                "suffix",
                "Option",
                Some("String"),
                Some(vec![character("short", 's'), string("value_name", "SUFFIX")]),
                &["remove a trailing SUFFIX; implies -a"],
            ),
            field("zero", "bool", None, short('z'), &["end each output line with NUL, not newline"]),
            field("names", "Operands", None, None, &[]),
        ],
    )
}

fn paint() -> CommandPlan {
    plan(
        vec![string("name", "paint"), string("style", "gnu")],
        &[],
        vec![
            field("color", "bool", None, Some(vec![string("long", "color")]), &["colorize the output"]),
            field("verbose", "bool", None, short('v'), &["be verbose"]),
            field(
                "tint",
                "Option",
                Some("String"),
                Some(vec![string("long", "tint"), string("value_name", "HUE")]),
                &["tint with HUE"],
            ),
            field("files", "Operands", None, None, &[]),
        ],
    )
}

// ── Basic: bool flags + positionals ─────────────────────────────

#[test]
fn cd_no_args() {
    let cmd = parse(&cd(), &[]).unwrap();
    assert!(!cmd.flag("logical"));
    assert!(!cmd.flag("physical"));
    assert_eq!(cmd.opt("dir"), None);
}

#[test]
fn cd_with_dir() {
    let cmd = parse(&cd(), &["/tmp"]).unwrap();
    assert_eq!(cmd.opt("dir"), Some("/tmp".to_owned()));
}

#[test]
fn cd_physical_flag() {
    let cmd = parse(&cd(), &["-P", "/home"]).unwrap();
    assert!(cmd.flag("physical"));
    assert!(!cmd.flag("logical"));
    assert_eq!(cmd.opt("dir"), Some("/home".to_owned()));
}

#[test]
fn cd_last_wins_mutex() {
    let cmd = parse(&cd(), &["-L", "-P"]).unwrap();
    assert!(cmd.flag("physical"));
    assert!(!cmd.flag("logical"));
}

// ── Lenient mode ────────────────────────────────────────────────

#[test]
fn echo_simple() {
    let cmd = parse(&echo(), &["hello", "world"]).unwrap();
    assert!(!cmd.flag("no_newline"));
    assert!(!cmd.flag("escapes"));
    assert!(!cmd.flag("no_escapes"));
    assert_eq!(cmd.rest("args").join(" "), "hello world");
}

#[test]
fn echo_with_flag() {
    let cmd = parse(&echo(), &["-n", "hello"]).unwrap();
    assert!(cmd.flag("no_newline"));
    assert_eq!(cmd.rest("args").join(" "), "hello");
}

#[test]
fn echo_lenient_unknown_becomes_operand() {
    let cmd = parse(&echo(), &["-nXYZ", "rest"]).unwrap();
    assert!(!cmd.flag("no_newline"));
    assert_eq!(cmd.rest("args").join(" "), "-nXYZ rest");
}

// ── Polarity ────────────────────────────────────────────────────

#[test]
fn declare_polarity_on() {
    let cmd = parse(&declare(), &["-ax", "foo"]).unwrap();
    assert_eq!(cmd.polarity("array"), Polarity::On);
    assert_eq!(cmd.polarity("export"), Polarity::On);
    assert!(!cmd.flag("print"));
    assert_eq!(cmd.rest("args").first(), Some("foo"));
}

#[test]
fn declare_print_flag() {
    let cmd = parse(&declare(), &["-p"]).unwrap();
    assert!(cmd.flag("print"));
    assert_eq!(cmd.polarity("array"), Polarity::Unset);
}

#[test]
fn declare_polarity_off() {
    let cmd = parse(&declare(), &["+a", "bar"]).unwrap();
    assert_eq!(cmd.polarity("array"), Polarity::Off);
    assert_eq!(cmd.rest("args").first(), Some("bar"));
}

// ── Repeatable valued flags ─────────────────────────────────────

#[test]
fn hash_repeatable_single() {
    let cmd = parse(&hash(), &["-p", "/usr/bin", "ls"]).unwrap();
    assert_eq!(cmd.list("paths"), vec!["/usr/bin"]);
    assert_eq!(cmd.rest("args").first(), Some("ls"));
}

#[test]
fn hash_repeatable_multiple() {
    let cmd = parse(&hash(), &["-p", "/a", "-p", "/b"]).unwrap();
    assert_eq!(cmd.list("paths"), vec!["/a", "/b"]);
}

#[test]
fn hash_repeatable_empty() {
    let cmd = parse(&hash(), &["-d"]).unwrap();
    assert!(cmd.flag("delete"));
    assert!(cmd.list("paths").is_empty());
}

// ── Repeatable parsed (Vec<u32>) ────────────────────────────────

#[test]
fn ulimit_repeatable_parsed() {
    let cmd = parse_checked(&ulimit(), &["-n", "1024", "-n", "4096"], ulimit_types).unwrap();
    let limits: Vec<u32> = cmd.list("limits").iter().map(|v| typed('n', v).unwrap()).collect();
    assert_eq!(limits, vec![1024_u32, 4096]);
}

#[test]
fn ulimit_repeatable_parsed_error() {
    let result = parse_checked(&ulimit(), &["-n", "abc"], ulimit_types);
    assert!(result.is_err());
}

// ── FromStr parsing ─────────────────────────────────────────────

#[test]
fn read_typed_usize() {
    let cmd = parse_checked(&read_cmd(), &["-n", "5", "var"], read_types).unwrap();
    let nchars: Option<usize> = cmd.opt("nchars").map(|v| typed('n', &v).unwrap());
    assert_eq!(nchars, Some(5));
    assert_eq!(cmd.rest("vars").first(), Some("var"));
}

#[test]
fn read_typed_float() {
    let cmd = parse_checked(&read_cmd(), &["-t", "1.5"], read_types).unwrap();
    let timeout: Option<f64> = cmd.opt("timeout").map(|v| typed('t', &v).unwrap());
    assert_eq!(timeout, Some(1.5));
}

#[test]
fn read_typed_string_still_works() {
    let cmd = parse(&read_cmd(), &["-p", "Enter: "]).unwrap();
    assert_eq!(cmd.opt("prompt"), Some("Enter: ".to_owned()));
}

#[test]
fn read_typed_invalid_errors() {
    let result = parse_checked(&read_cmd(), &["-n", "abc"], read_types);
    assert!(result.is_err());
}

// ── PolarValue (set -o name) ────────────────────────────────────

#[test]
fn set_polar_value_on() {
    let cmd = parse(&set(), &["-o", "errexit"]).unwrap();
    let option = cmd.polar_list("option");
    assert_eq!(option.len(), 1);
    assert_eq!(option[0].polarity, Polarity::On);
    assert_eq!(option[0].value, "errexit");
}

#[test]
fn set_polar_value_off() {
    let cmd = parse(&set(), &["+o", "verbose"]).unwrap();
    let option = cmd.polar_list("option");
    assert_eq!(option[0].polarity, Polarity::Off);
    assert_eq!(option[0].value, "verbose");
}

#[test]
fn set_mixed_flags_and_polar() {
    let cmd = parse(&set(), &["-ex", "-o", "pipefail"]).unwrap();
    assert_eq!(cmd.polarity("errexit"), Polarity::On);
    assert_eq!(cmd.polarity("xtrace"), Polarity::On);
    assert_eq!(cmd.polar_list("option")[0].value, "pipefail");
}

// ── Required positional ─────────────────────────────────────────

#[test]
fn grep_with_pattern_and_files() {
    let cmd = parse(&grep(), &["-i", "hello", "a.rs", "b.rs"]).unwrap();
    assert!(cmd.flag("ignore_case"));
    assert_eq!(cmd.string("pattern"), "hello");
    assert_eq!(cmd.rest("files").len(), 2);
}

#[test]
fn grep_missing_pattern_errors() {
    let result = parse(&grep(), &["-i"]);
    assert!(result.is_err());
}

// ── Edge cases ──────────────────────────────────────────────────

#[test]
fn grep_double_dash_with_positional() {
    let cmd = parse(&grep(), &["--", "-i", "file"]).unwrap();
    assert!(!cmd.flag("ignore_case"));
    assert_eq!(cmd.string("pattern"), "-i");
    assert_eq!(cmd.rest("files").first(), Some("file"));
}

#[test]
fn read_bundled_with_fromstr_value() {
    let cmd = parse_checked(&read_cmd(), &["-rn5"], read_types).unwrap();
    assert!(cmd.flag("raw"));
    let nchars: Option<usize> = cmd.opt("nchars").map(|v| typed('n', &v).unwrap());
    assert_eq!(nchars, Some(5));
}

#[test]
fn plus_prefix_with_only_bool_flags_is_operand() {
    let cmd = parse(&grep(), &["+i", "file"]).unwrap();
    assert!(!cmd.flag("ignore_case"));
    assert_eq!(cmd.string("pattern"), "+i");
    assert_eq!(cmd.rest("files").first(), Some("file"));
}

#[test]
fn cd_def_has_flags() {
    let p = cd();
    let def = def(&p);
    assert_eq!(def.name, "cd");
    assert!(!def.flags.is_empty());
    assert!(def.has_rest == false);
}

#[test]
fn grep_def_has_positionals() {
    let p = grep();
    let def = def(&p);
    assert_eq!(def.positionals.len(), 1);
    assert!(def.positionals[0].required);
    assert!(def.has_rest);
}

// ── Doc comments → about/desc ───────────────────────────────────

#[test]
fn doc_comment_about() {
    assert_eq!(my_cd().def.about, "Change the shell working directory.");
}

#[test]
fn doc_comment_flag_desc() {
    let flags = my_cd().def.flags;
    assert_eq!(flags[0].desc, "Follow symlinks (default).");
    assert_eq!(flags[1].desc, "Use physical directory.");
}

#[test]
fn doc_comment_positional_desc() {
    let pos = my_cd().def.positionals;
    assert_eq!(pos[0].desc, "Target directory.");
}

#[test]
fn usage_auto_generated() {
    let usage = my_cd().def.usage();
    assert_eq!(usage, "mycd [-LP] [target]");
}

#[test]
fn help_contains_about_and_flags() {
    let help = my_cd().def.help();
    assert!(help.contains("Change the shell working directory."));
    assert!(help.contains("-L"));
    assert!(help.contains("Follow symlinks"));
    assert!(help.contains("-P"));
    assert!(help.contains("Use physical directory"));
}

// ── value_name ──────────────────────────────────────────────────

#[test]
fn value_name_in_usage() {
    let usage = my_read().def.usage();
    assert!(usage.contains("[-n NCHARS]"), "got: {usage}");
    assert!(usage.contains("[-p PROMPT]"), "got: {usage}");
}

#[test]
fn value_name_in_help() {
    let help = my_read().def.help();
    assert!(help.contains("-n NCHARS"), "got: {help}");
    assert!(help.contains("Read N characters"), "got: {help}");
}

#[test]
fn value_name_in_flag_def() {
    let flags = my_read().def.flags;
    let n_flag = flags.iter().find(|f| f.ch == 'n').unwrap();
    assert_eq!(n_flag.value_name, "NCHARS");
}

// ── Tags ────────────────────────────────────────────────────────

#[test]
fn tags_present() {
    let def = export().def;
    assert_eq!(def.tags.len(), 3);
    assert_eq!(def.tags[0], ("kind".to_owned(), "special".to_owned()));
    assert_eq!(def.tags[1], ("special".to_owned(), String::new()));
    assert_eq!(def.tags[2], ("assignment".to_owned(), String::new()));
}

#[test]
fn tags_empty_when_none() {
    assert!(my_cd().def.tags.is_empty());
}

// ── Doc comment sections → bash-compatible help ─────────────────

#[test]
fn derive_alias_help_matches_bash() {
    let expected = [
        "alias: alias [-p] [name[=value] ... ]\n",
        "    Define or display aliases.\n",
        "    \n",
        "    Without arguments, `alias' prints the list of aliases in the reusable\n",
        "    form `alias NAME=VALUE' on standard output.\n",
        "    \n",
        "    Otherwise, an alias is defined for each NAME whose VALUE is given.\n",
        "    A trailing space in VALUE causes the next word to be checked for\n",
        "    alias substitution when the alias is expanded.\n",
        "    \n",
        "    Options:\n",
        "      -p\tprint all defined aliases in a reusable format\n",
        "    \n",
        "    Exit Status:\n",
        "    alias returns true unless a NAME is supplied for which no alias has been\n",
        "    defined.\n",
    ]
    .concat();
    assert_eq!(bash_alias().def.help(), expected);
}

#[test]
fn derive_alias_about_from_first_paragraph() {
    assert_eq!(bash_alias().def.about, "Define or display aliases.");
}

#[test]
fn derive_alias_short_doc_in_help() {
    assert!(bash_alias().def.help().starts_with("alias: alias [-p] [name[=value] ... ]\n"));
}

// ── Minimal: no Options, no Exit Status ─────────────────────────

#[test]
fn derive_exit_help_matches_bash() {
    let expected = [
        "exit: exit [n]\n",
        "    Exit the shell.\n",
        "    \n",
        "    Exits the shell with a status of N.  If N is omitted, the exit status\n",
        "    is that of the last command executed.\n",
    ]
    .concat();
    assert_eq!(bash_exit().def.help(), expected);
}

// ── extra_help attribute for tab-formatted content ──────────────

#[test]
fn derive_echo_extra_help_replaces_doc_extra() {
    let help = bash_echo().def.help();
    assert!(help.contains("      -n\tdo not append a newline\n"));
    assert!(help.contains("    Exit Status:\n    Returns success"));
}

#[test]
fn derive_echo_no_help_tag() {
    let def = bash_echo().def;
    assert!(def.tags.iter().any(|(k, _)| k == "no_help"));
}

// ── Multi-line flag descriptions ────────────────────────────────

#[test]
fn derive_cd_multiline_flag_desc() {
    let help = bash_cd().def.help();
    assert!(help.contains("  -L\tforce symbolic links to be followed: resolve symbolic\n"));
    assert!(help.contains("\t\tlinks in DIR after processing instances of `..'\n"));
}

#[test]
fn derive_cd_post_options_extra() {
    let help = bash_cd().def.help();
    assert!(help.contains("    The default is to follow symbolic links.\n"));
}

#[test]
fn derive_cd_exit_status() {
    let help = bash_cd().def.help();
    assert!(help.contains("    Exit Status:\n    Returns 0 if the directory is changed.\n"));
}

// ── GNU style: long options, inference, permutation, help ──────

#[test]
fn gnu_derive_long_bool_and_operands() {
    let cmd = parse(&basename(), &["--multiple", "a", "b"]).unwrap();
    assert!(cmd.flag("multiple"));
    assert_eq!(cmd.rest("names").len(), 2);
    assert_eq!(cmd.rest("names").get(0), Some("a"));
}

#[test]
fn gnu_derive_long_value_inline() {
    let cmd = parse(&basename(), &["--suffix=.txt", "x"]).unwrap();
    assert_eq!(cmd.opt("suffix").as_deref(), Some(".txt"));
}

#[test]
fn gnu_derive_long_value_separated() {
    let cmd = parse(&basename(), &["--suffix", ".txt", "x"]).unwrap();
    assert_eq!(cmd.opt("suffix").as_deref(), Some(".txt"));
}

#[test]
fn gnu_derive_prefix_inference() {
    let cmd = parse(&basename(), &["--mult", "x"]).unwrap();
    assert!(cmd.flag("multiple"));
}

#[test]
fn gnu_derive_short_flags_still_work() {
    let cmd = parse(&basename(), &["-a", "-s", ".bak", "x"]).unwrap();
    assert!(cmd.flag("multiple"));
    assert_eq!(cmd.opt("suffix").as_deref(), Some(".bak"));
}

#[test]
fn gnu_derive_permutes_flags_after_operands() {
    let cmd = parse(&basename(), &["x", "--zero", "y"]).unwrap();
    assert!(cmd.flag("zero"));
    assert_eq!(cmd.rest("names").len(), 2);
}

#[test]
fn gnu_derive_help_format() {
    let help = basename().def.help();
    assert!(help.starts_with("Usage: basename [-z] NAME [SUFFIX]\n"));
    assert!(help.contains("  -a, --multiple\tsupport multiple arguments and treat each as a NAME\n"));
    assert!(help.contains("  -s, --suffix=SUFFIX\tremove a trailing SUFFIX; implies -a\n"));
    assert!(help.contains("      --help\tdisplay this help and exit\n"));
}

#[test]
fn gnu_derive_help_is_signalled() {
    let result = parse(&basename(), &["--help"]);
    assert_eq!(result.err(), Some(Error::HelpRequested));
}

// ── Long-only options (a long name with no short char) ──────────

#[test]
fn long_only_flag_sets_field() {
    let cmd = parse(&paint(), &["--color", "a"]).unwrap();
    assert!(cmd.flag("color"));
    assert!(!cmd.flag("verbose"));
    assert_eq!(cmd.rest("files").len(), 1);
}

#[test]
fn long_only_coexists_with_short_sibling() {
    let cmd = parse(&paint(), &["-v", "--color", "x"]).unwrap();
    assert!(cmd.flag("verbose"));
    assert!(cmd.flag("color"));
}

#[test]
fn long_only_prefix_inference() {
    let cmd = parse(&paint(), &["--col", "x"]).unwrap();
    assert!(cmd.flag("color"));
}

#[test]
fn long_only_valued_flag() {
    let cmd = parse(&paint(), &["--tint=red", "x"]).unwrap();
    assert_eq!(cmd.opt("tint").as_deref(), Some("red"));
}

#[test]
fn long_only_usage_has_no_synthetic_char() {
    let usage = paint().def.usage();
    assert!(!usage.contains('\u{E000}'), "synthetic char leaked: {usage}");
    assert!(usage.contains("[--color]"), "usage: {usage}");
    assert!(usage.contains("[--tint=HUE]"), "usage: {usage}");
    assert!(usage.contains("[-v]"), "usage: {usage}");
}

// ── Typed values are checked when seen ─────────────────────────

#[test]
fn typed_value_refused_even_when_replaced() {
    let result = parse_checked(&read_cmd(), &["-n", "abc", "-n", "5"], read_types);
    assert_eq!(result.err(), Some(Error::invalid_value('n', "abc", "invalid digit found in string")));
}

#[test]
fn typed_value_refused_before_missing_positional() {
    let p = plan(
        vec![string("name", "t")],
        &[],
        vec![
            field("nchars", "Option", Some("usize"), short('n'), &[]),
            field("name", "String", None, None, &[]),
        ],
    );
    let result = parse_checked(&p, &["-n", "x"], read_types);
    assert!(matches!(result.err(), Some(Error::InvalidValue { .. })));
    let missing = parse_checked(&p, &["-n", "3"], read_types);
    assert_eq!(missing.err(), Some(Error::MissingRequired("name".into())));
}

#[test]
fn value_occurrences_keep_every_value_in_order() {
    let p = ulimit();
    let scanned = p.scan_args(&["-n", "1", "-n", "2"]).unwrap();
    assert_eq!(p.value_occurrences(&scanned.flags), vec![(0, "1".to_string()), (0, "2".to_string())]);
}
