//! Parse errors produced when command-line arguments don't match
//! the declared command structure.

use vstd::prelude::*;

use crate::text::{append_str, append_string, string_from_chars};

verus! {

/// An error encountered while parsing command-line arguments.
#[derive(Debug, Clone, PartialEq, Eq)]
#[non_exhaustive]
pub enum Error {
    /// An unrecognized flag character or long option was provided.
    UnknownFlag(String),
    /// A flag that requires a value was not given one.
    MissingValue(String),
    /// A required positional argument was not provided.
    MissingRequired(String),
    /// A flag's value could not be parsed into the expected type.
    InvalidValue {
        /// The flag that received the bad value.
        flag: String,
        /// The value that was provided.
        value: String,
        /// Why the value was rejected.
        reason: String,
    },
    /// An unrecognized subcommand name was provided.
    UnknownCommand(String),
    /// `--help` was given to a GNU-style command.
    HelpRequested,
}

/// The mathematical content of an [`Error`]: every string by its characters.
pub enum ErrorView {
    UnknownFlag(Seq<char>),
    MissingValue(Seq<char>),
    MissingRequired(Seq<char>),
    InvalidValue { flag: Seq<char>, value: Seq<char>, reason: Seq<char> },
    UnknownCommand(Seq<char>),
    HelpRequested,
}

impl View for Error {
    type V = ErrorView;

    open spec fn view(&self) -> ErrorView {
        match self {
            Error::UnknownFlag(s) => ErrorView::UnknownFlag(s@),
            Error::MissingValue(s) => ErrorView::MissingValue(s@),
            Error::MissingRequired(s) => ErrorView::MissingRequired(s@),
            Error::InvalidValue { flag, value, reason } => ErrorView::InvalidValue {
                flag: flag@,
                value: value@,
                reason: reason@,
            },
            Error::UnknownCommand(s) => ErrorView::UnknownCommand(s@),
            Error::HelpRequested => ErrorView::HelpRequested,
        }
    }
}


/// The message of an error, as a shell prints it.
pub open spec fn spec_message(e: ErrorView) -> Seq<char> {
    match e {
        ErrorView::UnknownFlag(f) => f + ": invalid option"@,
        ErrorView::MissingValue(f) => f + ": option requires an argument"@,
        ErrorView::MissingRequired(n) => "missing required argument: "@ + n,
        ErrorView::InvalidValue { flag, value, reason } => flag + ": "@ + value + ": "@ + reason,
        ErrorView::UnknownCommand(n) => n + ": unknown command"@,
        ErrorView::HelpRequested => "help requested"@,
    }
}

impl Error {
    /// The error's message, as [`spec_message`] says.
    pub fn to_string(&self) -> (r: String)
        ensures
            r@ == spec_message(self@),
    {
        let mut out: Vec<char> = Vec::new();
        match self {
            Error::UnknownFlag(f) => {
                append_string(&mut out, f);
                append_str(&mut out, ": invalid option");
            },
            Error::MissingValue(f) => {
                append_string(&mut out, f);
                append_str(&mut out, ": option requires an argument");
            },
            Error::MissingRequired(n) => {
                append_str(&mut out, "missing required argument: ");
                append_string(&mut out, n);
            },
            Error::InvalidValue { flag, value, reason } => {
                append_string(&mut out, flag);
                append_str(&mut out, ": ");
                append_string(&mut out, value);
                append_str(&mut out, ": ");
                append_string(&mut out, reason);
            },
            Error::UnknownCommand(n) => {
                append_string(&mut out, n);
                append_str(&mut out, ": unknown command");
            },
            Error::HelpRequested => {
                append_str(&mut out, "help requested");
            },
        }
        assert(out@ =~= spec_message(self@));
        string_from_chars(&out)
    }

    /// The error for a flag value that its field's type refused: the flag is
    /// written `-c` with the flag's character `c`, beside the value and the
    /// reason the type gave.
    pub fn invalid_value(flag: char, value: &str, reason: &str) -> (r: Error)
        ensures
            r@ == (ErrorView::InvalidValue { flag: seq!['-', flag], value: value@, reason: reason@ }),
    {
        let mut f: Vec<char> = Vec::new();
        f.push('-');
        f.push(flag);
        let mut v: Vec<char> = Vec::new();
        append_str(&mut v, value);
        let mut why: Vec<char> = Vec::new();
        append_str(&mut why, reason);
        assert(f@ =~= seq!['-', flag]);
        assert(v@ =~= value@);
        assert(why@ =~= reason@);
        Error::InvalidValue {
            flag: string_from_chars(&f),
            value: string_from_chars(&v),
            reason: string_from_chars(&why),
        }
    }
}

} // verus!
