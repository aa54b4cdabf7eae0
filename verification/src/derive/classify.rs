//! Field classification — determines parse behavior from types.

use vstd::prelude::*;

use crate::derive::attrs::FlagAttrs;
use crate::text::{chars_eq, chars_of};

verus! {

/// What role a field plays in parsing, without its attributes.
#[derive(Debug, Clone, Copy, PartialEq, Eq, Structural, Hash)]
pub enum RoleKind {
    BoolFlag,
    PolarityFlag,
    ValuedFlag,
    RepeatableValueFlag,
    PolarValueFlag,
    OptionalPositional,
    RequiredPositional,
    Rest,
}

/// What role a field plays in parsing.
#[derive(Debug, Clone, PartialEq, Eq)]
pub enum FieldRole {
    /// Boolean flag: `-x` sets true.
    BoolFlag(FlagAttrs),
    /// Polarity flag: `-x` On, `+x` Off.
    PolarityFlag(FlagAttrs),
    /// Valued flag: `-x val` produces `Option<T>`.
    ValuedFlag(FlagAttrs),
    /// Repeatable valued flag: `-x a -x b` produces `Vec<T>`.
    RepeatableValueFlag(FlagAttrs),
    /// Accumulated polar values: `-o val` / `+o val`.
    PolarValueFlag(FlagAttrs),
    /// Optional positional (`Option<String>`).
    OptionalPositional,
    /// Required positional (`String`).
    RequiredPositional,
    /// Rest-of-args collector (`Operands`).
    Rest,
}

/// Whether a role is one of the flag roles.
pub open spec fn is_flag_kind(k: RoleKind) -> bool {
    k == RoleKind::BoolFlag || k == RoleKind::PolarityFlag || k == RoleKind::ValuedFlag || k
        == RoleKind::RepeatableValueFlag || k == RoleKind::PolarValueFlag
}

impl FieldRole {
    /// The role without its attributes.
    pub open spec fn kind(&self) -> RoleKind {
        match self {
            FieldRole::BoolFlag(_) => RoleKind::BoolFlag,
            FieldRole::PolarityFlag(_) => RoleKind::PolarityFlag,
            FieldRole::ValuedFlag(_) => RoleKind::ValuedFlag,
            FieldRole::RepeatableValueFlag(_) => RoleKind::RepeatableValueFlag,
            FieldRole::PolarValueFlag(_) => RoleKind::PolarValueFlag,
            FieldRole::OptionalPositional => RoleKind::OptionalPositional,
            FieldRole::RequiredPositional => RoleKind::RequiredPositional,
            FieldRole::Rest => RoleKind::Rest,
        }
    }

    /// The flag attributes of a flag role.
    pub open spec fn attrs(&self) -> Option<FlagAttrs> {
        match self {
            FieldRole::BoolFlag(a) => Some(*a),
            FieldRole::PolarityFlag(a) => Some(*a),
            FieldRole::ValuedFlag(a) => Some(*a),
            FieldRole::RepeatableValueFlag(a) => Some(*a),
            FieldRole::PolarValueFlag(a) => Some(*a),
            _ => None,
        }
    }

    /// The role without its attributes.
    pub fn role_kind(&self) -> (k: RoleKind)
        ensures
            k == self.kind(),
    {
        match self {
            FieldRole::BoolFlag(_) => RoleKind::BoolFlag,
            FieldRole::PolarityFlag(_) => RoleKind::PolarityFlag,
            FieldRole::ValuedFlag(_) => RoleKind::ValuedFlag,
            FieldRole::RepeatableValueFlag(_) => RoleKind::RepeatableValueFlag,
            FieldRole::PolarValueFlag(_) => RoleKind::PolarValueFlag,
            FieldRole::OptionalPositional => RoleKind::OptionalPositional,
            FieldRole::RequiredPositional => RoleKind::RequiredPositional,
            FieldRole::Rest => RoleKind::Rest,
        }
    }

    /// The flag attributes of a flag role.
    pub fn flag_attrs(&self) -> (r: Option<&FlagAttrs>)
        ensures
            match r {
                Some(a) => self.attrs() == Some(*a),
                None => self.attrs() is None,
            },
    {
        match self {
            FieldRole::BoolFlag(a) => Some(a),
            FieldRole::PolarityFlag(a) => Some(a),
            FieldRole::ValuedFlag(a) => Some(a),
            FieldRole::RepeatableValueFlag(a) => Some(a),
            FieldRole::PolarValueFlag(a) => Some(a),
            _ => None,
        }
    }
}

/// The role that a field's type and `#[flag]` presence give it: with a flag,
/// `bool` is a boolean flag, `Polarity` a polarity flag, `Vec<PolarVal>` a
/// polar value list, another `Vec` a repeatable valued flag, anything else a
/// valued flag; without one, `Operands` takes the rest, `Option` is an
/// optional positional, anything else a required positional.
pub open spec fn spec_classify(has_flag: bool, ty: Seq<char>, inner: Option<Seq<char>>) -> RoleKind {
    if has_flag {
        if ty == "bool"@ {
            RoleKind::BoolFlag
        } else if ty == "Polarity"@ {
            RoleKind::PolarityFlag
        } else if ty == "Vec"@ {
            if inner == Some("PolarVal"@) {
                RoleKind::PolarValueFlag
            } else {
                RoleKind::RepeatableValueFlag
            }
        } else {
            RoleKind::ValuedFlag
        }
    } else if ty == "Operands"@ {
        RoleKind::Rest
    } else if ty == "Option"@ {
        RoleKind::OptionalPositional
    } else {
        RoleKind::RequiredPositional
    }
}

/// The `Option` of a string slice's characters.
pub open spec fn opt_str_view(o: Option<&str>) -> Option<Seq<char>> {
    match o {
        Some(s) => Some(s@),
        None => None,
    }
}

fn is_word(s: &str, word: &str) -> (r: bool)
    ensures
        r == (s@ == word@),
{
    let a = chars_of(s);
    let b = chars_of(word);
    chars_eq(a.as_slice(), b.as_slice())
}

/// Classifies a field into its parsing role, from its outermost type name
/// `ty`, the name of its first type argument `inner`, and its `#[flag]`
/// attributes if it has them.
pub fn classify_field(flag: Option<FlagAttrs>, ty: &str, inner: Option<&str>) -> (r: FieldRole)
    ensures
        r.kind() == spec_classify(flag is Some, ty@, opt_str_view(inner)),
        r.attrs() == flag,
{
    match flag {
        Some(attrs) => {
            if is_word(ty, "bool") {
                FieldRole::BoolFlag(attrs)
            } else if is_word(ty, "Polarity") {
                FieldRole::PolarityFlag(attrs)
            } else if is_word(ty, "Vec") {
                let polar = match inner {
                    Some(i) => is_word(i, "PolarVal"),
                    None => false,
                };
                if polar {
                    FieldRole::PolarValueFlag(attrs)
                } else {
                    FieldRole::RepeatableValueFlag(attrs)
                }
            } else {
                FieldRole::ValuedFlag(attrs)
            }
        },
        None => {
            if is_word(ty, "Operands") {
                FieldRole::Rest
            } else if is_word(ty, "Option") {
                FieldRole::OptionalPositional
            } else {
                FieldRole::RequiredPositional
            }
        },
    }
}

} // verus!
