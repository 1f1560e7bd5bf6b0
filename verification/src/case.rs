//! Case conversion of identifiers, done by the `convert_case` crate.
use vstd::prelude::*;
use convert_case::{Case, Casing};

verus! {

/// The cases the translator converts names into.
#[derive(Debug, Clone, Copy, PartialEq, Eq, Structural)]
pub enum WordCase {
    /// `PascalCase`.
    Pascal,
    /// `snake_case`.
    Snake,
}

/// The text `convert_case` produces from `s` in the given case.
pub uninterp spec fn cased(s: Seq<char>, case: WordCase) -> Seq<char>;

/// `convert_case::Casing::to_case`: splits `s` into words at its default boundaries
/// and joins them in the pattern and with the delimiter of the case. Trusted: the
/// result is `cased(s, case)`, a function of `s` and `case` alone; what that text is
/// is left to the crate.
#[verifier::external_body]
pub(crate) fn to_case(s: &str, case: WordCase) -> (r: String)
    ensures
        r@ == cased(s@, case),
{
    match case {
        WordCase::Pascal => s.to_case(Case::Pascal),
        WordCase::Snake => s.to_case(Case::Snake),
    }
}

} // verus!
