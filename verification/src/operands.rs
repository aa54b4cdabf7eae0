//! Remaining positional arguments after flags and named positionals.
//!
//! Use `Operands` as a field type — the derive recognizes it and collects
//! the rest of the arguments into it.

use vstd::prelude::*;

use crate::text::{join_strings, spec_join, string_views, chars_of};

verus! {

/// All positional arguments remaining after flag parsing completes.
///
/// Derefs to `[String]` for slice access.
#[derive(Debug, Clone, PartialEq, Eq)]
pub struct Operands {
    items: Vec<String>,
}

impl View for Operands {
    type V = Seq<Seq<char>>;

    closed spec fn view(&self) -> Seq<Seq<char>> {
        string_views(self.items@)
    }
}

impl Default for Operands {
    fn default() -> (r: Self)
        ensures
            r@ == Seq::<Seq<char>>::empty(),
    {
        let r = Operands { items: Vec::new() };
        assert(r@ =~= Seq::<Seq<char>>::empty());
        r
    }
}

impl Operands {
    /// Build from string slices, in order.
    pub fn from_args(args: &[&str]) -> (r: Self)
        ensures
            r@ == args@.map_values(|s: &str| s@),
    {
        let mut items: Vec<String> = Vec::new();
        let mut i: usize = 0;
        while i < args.len()
            invariant
                0 <= i <= args@.len(),
                string_views(items@) == args@.map_values(|s: &str| s@).take(i as int),
            decreases args.len() - i,
        {
            let ghost before = string_views(items@);
            let s: &str = args[i];
            items.push(s.to_owned());
            assert(string_views(items@) =~= before.push(args@[i as int]@));
            i += 1;
            assert(args@.map_values(|s: &str| s@).take(i as int) =~= args@.map_values(
                |s: &str| s@,
            ).take(i - 1).push(args@[i - 1]@));
        }
        assert(args@.map_values(|s: &str| s@).take(args@.len() as int) =~= args@.map_values(
            |s: &str| s@,
        ));
        Operands { items }
    }

    /// Number of operands.
    pub fn len(&self) -> (n: usize)
        ensures
            n == self@.len(),
    {
        self.items.len()
    }

    /// Whether no operands were provided.
    pub fn is_empty(&self) -> (b: bool)
        ensures
            b <==> self@.len() == 0,
    {
        self.items.len() == 0
    }

    /// Join all operands with a separator.
    pub fn join(&self, sep: &str) -> (r: String)
        ensures
            r@ == spec_join(self@, sep@),
    {
        let sv = chars_of(sep);
        join_strings(self.items.as_slice(), sv.as_slice())
    }

    /// First operand, if any.
    pub fn first(&self) -> (r: Option<&str>)
        ensures
            match r {
                Some(s) => self@.len() > 0 && s@ == self@[0],
                None => self@.len() == 0,
            },
    {
        self.get(0)
    }

    /// Operand at position `n`, if it exists.
    pub fn get(&self, n: usize) -> (r: Option<&str>)
        ensures
            match r {
                Some(s) => n < self@.len() && s@ == self@[n as int],
                None => n >= self@.len(),
            },
    {
        if n < self.items.len() {
            Some(self.items[n].as_str())
        } else {
            None
        }
    }

    /// The operands as a slice.
    pub fn as_slice(&self) -> (r: &[String])
        ensures
            string_views(r@) == self@,
    {
        self.items.as_slice()
    }

    /// The operands as an owned vector.
    pub fn into_vec(self) -> (r: Vec<String>)
        ensures
            string_views(r@) == self@,
    {
        self.items
    }

    /// Takes ownership of a vector of operands.
    pub fn from_vec(items: Vec<String>) -> (r: Self)
        ensures
            r@ == string_views(items@),
    {
        Operands { items }
    }
}

impl From<Vec<String>> for Operands {
    fn from(items: Vec<String>) -> (r: Self)
        ensures
            r@ == string_views(items@),
    {
        Operands { items }
    }
}

impl vstd::std_specs::convert::FromSpecImpl<Vec<String>> for Operands {
    open spec fn obeys_from_spec() -> bool {
        true
    }

    closed spec fn from_spec(items: Vec<String>) -> Self {
        Operands { items }
    }
}

impl std::ops::Deref for Operands {
    type Target = [String];

    fn deref(&self) -> (r: &[String])
        ensures
            string_views(r@) == self@,
    {
        self.items.as_slice()
    }
}

} // verus!
