use convert_case::{Case, Casing};
use vstd::prelude::*;

verus! {

/// The kebab-case form of a text, as convert_case computes it.
pub uninterp spec fn kebab_case(s: Seq<char>) -> Seq<char>;

/// Calls convert_case's `Casing::to_case` with `Case::Kebab`: the text is
/// split into words at convert_case's default boundaries (underscores,
/// hyphens, spaces, lower-to-upper changes, changes between letters and
/// digits, the end of an acronym) and the lowercased words are joined with
/// hyphens. The contract claims only that the result depends on
/// the text alone, and names it `kebab_case`; how words are split is left
/// unsaid.
#[verifier::external_body]
pub fn to_kebab_case(s: &str) -> (r: String)
    ensures
        r@ == kebab_case(s@),
{
    s.to_case(Case::Kebab)
}

} // verus!
