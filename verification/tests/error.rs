use ecmd::error::Error;

#[test]
fn unknown_flag_displays_correctly() {
    let e = Error::UnknownFlag("-z".into());
    assert_eq!(e.to_string(), "-z: invalid option");
}

#[test]
fn missing_value_displays_correctly() {
    let e = Error::MissingValue("-o".into());
    assert_eq!(e.to_string(), "-o: option requires an argument");
}

#[test]
fn missing_required_displays_correctly() {
    let e = Error::MissingRequired("target".into());
    assert_eq!(e.to_string(), "missing required argument: target");
}

#[test]
fn invalid_value_displays_correctly() {
    let e = Error::InvalidValue {
        flag: "-n".into(),
        value: "abc".into(),
        reason: "not a number".into(),
    };
    assert_eq!(e.to_string(), "-n: abc: not a number");
}

#[test]
fn unknown_command_displays_correctly() {
    let e = Error::UnknownCommand("frobnicate".into());
    assert_eq!(e.to_string(), "frobnicate: unknown command");
}

#[test]
fn help_requested_displays_correctly() {
    assert_eq!(Error::HelpRequested.to_string(), "help requested");
}

#[test]
fn equality_works() {
    let a = Error::UnknownFlag("-x".into());
    let b = Error::UnknownFlag("-x".into());
    let c = Error::UnknownFlag("-y".into());
    assert_eq!(a, b);
    assert_ne!(a, c);
}

#[test]
fn invalid_value_names_the_flag() {
    let e = Error::invalid_value('n', "abc", "bad number");
    assert_eq!(
        e,
        Error::InvalidValue { flag: "-n".into(), value: "abc".into(), reason: "bad number".into() }
    );
    assert_eq!(e.to_string(), "-n: abc: bad number");
}
