//! The scanner on its own, with hand-written declarations.

use ecmd::error::Error;
use ecmd::parse::{scan, FlagDef, FlagKind, OnUnknown, Parsed, ScanResult};
use ecmd::polarity::Polarity;
use ecmd::style::Style;

fn def(ch: char, kind: FlagKind) -> FlagDef {
    FlagDef {
        ch,
        long: String::new(),
        aliases: Vec::new(),
        kind,
        clears: Vec::new(),
        desc: String::new(),
        value_name: String::new(),
        hidden: false,
    }
}

fn long_def(ch: char, long: &str, kind: FlagKind) -> FlagDef {
    FlagDef { long: long.into(), ..def(ch, kind) }
}

fn defs() -> Vec<FlagDef> {
    vec![
        def('a', FlagKind::Bool),
        def('b', FlagKind::Bool),
        def('c', FlagKind::Bool),
        def('o', FlagKind::Value),
        def('x', FlagKind::Polar),
        def('s', FlagKind::PolarValue),
        def('n', FlagKind::Noop),
    ]
}

fn posix(args: &[&str]) -> Result<ScanResult, Error> {
    scan(args, &defs(), OnUnknown::Reject, Style::Posix, false)
}

fn ops(v: &[&str]) -> Vec<String> {
    v.iter().map(|s| s.to_string()).collect()
}

#[test]
fn readme_example_scans() {
    let r = posix(&["-a", "-o", "out.txt", "input.rs"]).unwrap();
    assert_eq!(r.flags, vec![Parsed::Bool('a'), Parsed::Value('o', "out.txt".into())]);
    assert_eq!(r.operands, ops(&["input.rs"]));
}

#[test]
fn bundle_scans_as_separate_flags() {
    let bundled = posix(&["-abc", "f"]).unwrap();
    let split = posix(&["-a", "-b", "-c", "f"]).unwrap();
    assert_eq!(bundled, split);
    assert_eq!(bundled.flags, vec![Parsed::Bool('a'), Parsed::Bool('b'), Parsed::Bool('c')]);
}

#[test]
fn stuck_value_scans_as_separate_value() {
    let stuck = posix(&["-ofile", "x"]).unwrap();
    let split = posix(&["-o", "file", "x"]).unwrap();
    assert_eq!(stuck, split);
    assert_eq!(stuck.flags, vec![Parsed::Value('o', "file".into())]);
    assert_eq!(stuck.operands, ops(&["x"]));
}

#[test]
fn value_flag_ends_a_bundle() {
    let r = posix(&["-aofile"]).unwrap();
    assert_eq!(r.flags, vec![Parsed::Bool('a'), Parsed::Value('o', "file".into())]);
    assert!(r.operands.is_empty());
}

#[test]
fn value_may_look_like_a_flag() {
    let r = posix(&["-o", "-a"]).unwrap();
    assert_eq!(r.flags, vec![Parsed::Value('o', "-a".into())]);
}

#[test]
fn terminator_makes_the_rest_operands() {
    let r = posix(&["-a", "--", "-b", "--"]).unwrap();
    assert_eq!(r.flags, vec![Parsed::Bool('a')]);
    assert_eq!(r.operands, ops(&["-b", "--"]));
}

#[test]
fn bare_dash_is_an_operand() {
    let r = posix(&["-", "-a"]).unwrap();
    assert!(r.flags.is_empty());
    assert_eq!(r.operands, ops(&["-", "-a"]));
}

#[test]
fn first_operand_ends_flags_in_posix() {
    let r = posix(&["f", "-a"]).unwrap();
    assert!(r.flags.is_empty());
    assert_eq!(r.operands, ops(&["f", "-a"]));
}

#[test]
fn gnu_permutes_flags_after_operands() {
    let r = scan(&["f", "-a", "g"], &defs(), OnUnknown::Reject, Style::Gnu, true).unwrap();
    assert_eq!(r.flags, vec![Parsed::Bool('a')]);
    assert_eq!(r.operands, ops(&["f", "g"]));
}

#[test]
fn gnu_without_permutation_stops_at_operand() {
    let r = scan(&["f", "-a"], &defs(), OnUnknown::Reject, Style::Gnu, false).unwrap();
    assert!(r.flags.is_empty());
    assert_eq!(r.operands, ops(&["f", "-a"]));
}

#[test]
fn missing_value_is_refused() {
    assert_eq!(posix(&["-o"]), Err(Error::MissingValue("-o".into())));
    assert_eq!(posix(&["-ao"]), Err(Error::MissingValue("-o".into())));
}

#[test]
fn unknown_flag_is_refused() {
    assert_eq!(posix(&["-z"]), Err(Error::UnknownFlag("-z".into())));
    assert_eq!(posix(&["-az"]), Err(Error::UnknownFlag("-z".into())));
}

#[test]
fn lenient_unknown_bundle_is_an_operand() {
    let r = scan(&["-z", "-a"], &defs(), OnUnknown::PassThrough, Style::Posix, false).unwrap();
    assert!(r.flags.is_empty());
    assert_eq!(r.operands, ops(&["-z", "-a"]));
}

#[test]
fn polarity_from_prefix() {
    let r = posix(&["-x", "+x"]).unwrap();
    assert_eq!(r.flags, vec![Parsed::Polar('x', Polarity::On), Parsed::Polar('x', Polarity::Off)]);
}

#[test]
fn plus_turns_off_polar_value() {
    let r = posix(&["+s", "v"]).unwrap();
    assert_eq!(r.flags, vec![Parsed::PolarValue('s', Polarity::Off, "v".into())]);
}

#[test]
fn plus_with_bool_flag_is_unknown() {
    assert_eq!(posix(&["+a"]), Err(Error::UnknownFlag("+a".into())));
}

#[test]
fn noop_flag_is_accepted_and_dropped() {
    let r = posix(&["-na", "f"]).unwrap();
    assert_eq!(r.flags, vec![Parsed::Bool('a')]);
    assert_eq!(r.operands, ops(&["f"]));
}

#[test]
fn long_bool_with_value_is_invalid() {
    let d = vec![long_def('v', "verbose", FlagKind::Bool)];
    let r = scan(&["--verbose=yes"], &d, OnUnknown::Reject, Style::Gnu, true);
    assert_eq!(
        r,
        Err(Error::InvalidValue {
            flag: "--verbose".into(),
            value: "yes".into(),
            reason: "option does not take an argument".into(),
        })
    );
}

#[test]
fn long_value_inline_and_separate() {
    let d = vec![long_def('o', "output", FlagKind::Value)];
    let inline = scan(&["--output=f"], &d, OnUnknown::Reject, Style::Gnu, true).unwrap();
    let separate = scan(&["--output", "f"], &d, OnUnknown::Reject, Style::Gnu, true).unwrap();
    assert_eq!(inline, separate);
    assert_eq!(inline.flags, vec![Parsed::Value('o', "f".into())]);
}

#[test]
fn long_missing_value() {
    let d = vec![long_def('o', "output", FlagKind::Value)];
    let r = scan(&["--output"], &d, OnUnknown::Reject, Style::Gnu, true);
    assert_eq!(r, Err(Error::MissingValue("--output".into())));
}

#[test]
fn ambiguous_prefix_is_unknown() {
    let d = vec![long_def('a', "alpha", FlagKind::Bool), long_def('b', "alps", FlagKind::Bool)];
    let r = scan(&["--al"], &d, OnUnknown::Reject, Style::Gnu, true);
    assert_eq!(r, Err(Error::UnknownFlag("--al".into())));
    let ok = scan(&["--alph"], &d, OnUnknown::Reject, Style::Gnu, true).unwrap();
    assert_eq!(ok.flags, vec![Parsed::Bool('a')]);
}

#[test]
fn gnu_help_is_signalled() {
    let r = scan(&["--help"], &defs(), OnUnknown::Reject, Style::Gnu, true);
    assert_eq!(r, Err(Error::HelpRequested));
}

#[test]
fn posix_long_option_needs_exact_name() {
    let d = vec![long_def('a', "alpha", FlagKind::Bool)];
    let r = scan(&["--alp"], &d, OnUnknown::Reject, Style::Posix, false);
    assert_eq!(r, Err(Error::UnknownFlag("--alp".into())));
}
