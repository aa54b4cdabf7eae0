//! Parsing style controlling which CLI convention layers are active.

use vstd::prelude::*;

verus! {

/// Controls which argument parsing conventions are applied.
///
/// Each style is additive — GNU includes POSIX.
#[derive(Debug, Clone, Copy, PartialEq, Eq, Structural, Hash)]
#[non_exhaustive]
pub enum Style {
    /// POSIX only: `-x` flags, strict option-before-operand ordering.
    Posix,
    /// POSIX + GNU: `--long` options, `--opt=val`, prefix inference, permutation.
    Gnu,
}

impl Default for Style {
    fn default() -> (s: Self)
        ensures
            s == Style::Posix,
    {
        Style::Posix
    }
}

} // verus!
