use vstd::prelude::*;

verus! {

/// A target naming convention for object keys.
#[derive(Copy, Clone, Debug)]
pub enum CaseConvention {
    /// `lower_snake_case`
    Snake,
    /// `camelCase`
    Camel,
    /// `PascalCase`
    Pascal,
    /// `kebab-case`
    Kebab,
    /// `SCREAMING_SNAKE_CASE`
    Constant,
    /// `Title Case`
    Title,
}

/// The string that rewriting `s` into `convention` produces.
///
/// Case conversion is delegated to the `convert_case` crate, so the result is
/// not given by a definition here; it is pinned down only as a fixed function
/// of the convention and the characters of the input.
pub uninterp spec fn cased(convention: CaseConvention, s: Seq<char>) -> Seq<char>;

/// Relies on `convert_case`'s `Casing::to_case`, which rewrites a string into
/// the chosen case. Its output is a pure function of the input string and the
/// case, which is all this contract states.
#[verifier::external_body]
pub(crate) fn apply_convention(s: &String, convention: CaseConvention) -> (r: String)
    ensures
        r@ == cased(convention, s@),
{
    let case = match convention {
        CaseConvention::Snake => convert_case::Case::Snake,
        CaseConvention::Camel => convert_case::Case::Camel,
        CaseConvention::Pascal => convert_case::Case::Pascal,
        CaseConvention::Kebab => convert_case::Case::Kebab,
        CaseConvention::Constant => convert_case::Case::Constant,
        CaseConvention::Title => convert_case::Case::Title,
    };
    convert_case::Casing::to_case(s, case)
}

} // verus!
