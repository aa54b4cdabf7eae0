//! Flag polarity for shell-style `+x` / `-x` semantics.
//!
//! In POSIX shells, some builtins accept `+flag` to turn OFF and `-flag`
//! to turn ON. `Polarity` captures this three-state: unset, on, or off.

use vstd::prelude::*;

verus! {

/// Three-state flag polarity.
///
/// - `Unset` — flag was not provided (default)
/// - `On` — flag was provided with `-` prefix
/// - `Off` — flag was provided with `+` prefix
#[derive(Debug, Clone, Copy, PartialEq, Eq, Structural, Hash)]
pub enum Polarity {
    /// Flag was not provided.
    Unset,
    /// Flag was enabled (`-x`).
    On,
    /// Flag was disabled (`+x`).
    Off,
}

impl Default for Polarity {
    fn default() -> (p: Self)
        ensures
            p == Polarity::Unset,
    {
        Polarity::Unset
    }
}

impl Polarity {
    /// Whether the flag was explicitly turned on.
    pub fn is_on(self) -> (b: bool)
        ensures
            b <==> self == Polarity::On,
    {
        matches!(self, Polarity::On)
    }

    /// Whether the flag was explicitly turned off.
    pub fn is_off(self) -> (b: bool)
        ensures
            b <==> self == Polarity::Off,
    {
        matches!(self, Polarity::Off)
    }

    /// Whether the flag was provided at all (on or off).
    pub fn is_set(self) -> (b: bool)
        ensures
            b <==> self != Polarity::Unset,
    {
        !matches!(self, Polarity::Unset)
    }
}

/// Every polarity is exactly one of unset, on and off: a flag is set
/// precisely when it was turned on or turned off, and never both.
pub proof fn lemma_polarity_partition(p: Polarity)
    ensures
        (p != Polarity::Unset) <==> (p == Polarity::On || p == Polarity::Off),
        !(p == Polarity::On && p == Polarity::Off),
{
}

/// A valued flag that records its polarity.
///
/// Used for flags like `set -o errexit` / `set +o errexit` where
/// each occurrence carries both a polarity and a string value.
#[derive(Debug, Clone, PartialEq, Eq, Hash)]
pub struct PolarVal {
    /// Whether this was `-flag` (On) or `+flag` (Off).
    pub polarity: Polarity,
    /// The value associated with this flag occurrence.
    pub value: String,
}

impl PolarVal {
    /// Create a new polar value.
    pub fn new(polarity: Polarity, value: &str) -> (r: Self)
        ensures
            r.polarity == polarity,
            r.value@ == value@,
    {
        PolarVal { polarity, value: value.to_owned() }
    }
}

} // verus!
