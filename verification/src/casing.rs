//! Variant-name casing: host-side names are converted to the wire's
//! snake_case convention at the atom boundary.
//!
//! Only enum variant and unit-variant names are converted; record field
//! names cross the wire verbatim.
use vstd::prelude::*;

verus! {

/// The snake_case form of an identifier, as the case-conversion library
/// computes it.  The result depends on the input characters alone.
pub uninterp spec fn snake_of(s: Seq<char>) -> Seq<char>;

/// Relies on heck's `ToSnakeCase` for `str`: a pure conversion whose result
/// depends on the input characters alone.
#[verifier::external_body]
pub(crate) fn to_snake_case(s: &str) -> (r: String)
    ensures
        r@ == snake_of(s@),
{
    heck::ToSnakeCase::to_snake_case(s)
}

} // verus!
