//! Why a struct definition is refused by the `Command` derive.

use vstd::prelude::*;

verus! {

/// A reason to refuse a `Command` struct definition.
#[derive(Debug, Clone, PartialEq, Eq)]
pub enum DeriveError {
    /// A `#[command(...)]` key that is not known.
    UnknownCommandAttribute(String),
    /// A `#[flag(...)]` key that is not known.
    UnknownFlagAttribute(String),
    /// The key needs `= value`.
    ExpectedValue(String),
    /// The key needs a string literal.
    ExpectedString(String),
    /// The key needs a char literal.
    ExpectedChar(String),
    /// The key needs identifiers.
    ExpectedIdent(String),
    /// The key needs a parenthesized list.
    ExpectedList(String),
    /// The key takes no argument, or fewer items than were given.
    UnexpectedArgument(String),
    /// No `#[command(name = "...")]`.
    MissingName,
    /// A `#[flag(...)]` with neither `short` nor `long`.
    FlagNeedsShortOrLong,
    /// The item is a struct with unnamed fields.
    NotNamedStruct,
    /// The item is not a struct.
    NotStruct,
    /// Two flags share a character.
    DuplicateFlag { field: usize, id: char },
    /// A field follows the `Operands` field.
    FieldAfterOperands { field: usize },
    /// A required positional follows an optional one.
    RequiredAfterOptional { field: usize },
    /// A flag lists itself in `clears`.
    ClearsItself { field: usize, target: String },
    /// A flag lists in `clears` a name that is not a flag field.
    ClearsNonFlag { field: usize, target: String },
}

/// The content of a [`DeriveError`], by characters.
pub enum DeriveErrorView {
    UnknownCommandAttribute(Seq<char>),
    UnknownFlagAttribute(Seq<char>),
    ExpectedValue(Seq<char>),
    ExpectedString(Seq<char>),
    ExpectedChar(Seq<char>),
    ExpectedIdent(Seq<char>),
    ExpectedList(Seq<char>),
    UnexpectedArgument(Seq<char>),
    MissingName,
    FlagNeedsShortOrLong,
    NotNamedStruct,
    NotStruct,
    DuplicateFlag { field: nat, id: char },
    FieldAfterOperands { field: nat },
    RequiredAfterOptional { field: nat },
    ClearsItself { field: nat, target: Seq<char> },
    ClearsNonFlag { field: nat, target: Seq<char> },
}

impl View for DeriveError {
    type V = DeriveErrorView;

    open spec fn view(&self) -> DeriveErrorView {
        match self {
            DeriveError::UnknownCommandAttribute(k) => DeriveErrorView::UnknownCommandAttribute(k@),
            DeriveError::UnknownFlagAttribute(k) => DeriveErrorView::UnknownFlagAttribute(k@),
            DeriveError::ExpectedValue(k) => DeriveErrorView::ExpectedValue(k@),
            DeriveError::ExpectedString(k) => DeriveErrorView::ExpectedString(k@),
            DeriveError::ExpectedChar(k) => DeriveErrorView::ExpectedChar(k@),
            DeriveError::ExpectedIdent(k) => DeriveErrorView::ExpectedIdent(k@),
            DeriveError::ExpectedList(k) => DeriveErrorView::ExpectedList(k@),
            DeriveError::UnexpectedArgument(k) => DeriveErrorView::UnexpectedArgument(k@),
            DeriveError::MissingName => DeriveErrorView::MissingName,
            DeriveError::FlagNeedsShortOrLong => DeriveErrorView::FlagNeedsShortOrLong,
            DeriveError::NotNamedStruct => DeriveErrorView::NotNamedStruct,
            DeriveError::NotStruct => DeriveErrorView::NotStruct,
            DeriveError::DuplicateFlag { field, id } => DeriveErrorView::DuplicateFlag {
                field: *field as nat,
                id: *id,
            },
            DeriveError::FieldAfterOperands { field } => DeriveErrorView::FieldAfterOperands {
                field: *field as nat,
            },
            DeriveError::RequiredAfterOptional { field } => DeriveErrorView::RequiredAfterOptional {
                field: *field as nat,
            },
            DeriveError::ClearsItself { field, target } => DeriveErrorView::ClearsItself {
                field: *field as nat,
                target: target@,
            },
            DeriveError::ClearsNonFlag { field, target } => DeriveErrorView::ClearsNonFlag {
                field: *field as nat,
                target: target@,
            },
        }
    }
}

} // verus!
