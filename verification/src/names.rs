//! The casing of the tags of union variants.

use vstd::prelude::*;

verus! {

/// What `inflector`'s `to_snake_case` returns for a name.
pub uninterp spec fn snake_case_of(name: Seq<char>) -> Seq<char>;

/// Calls `inflector::cases::snakecase::to_snake_case`, which rewrites a
/// name in lower case with an underscore between its words. The contract
/// only names the result.
#[verifier::external_body]
pub(crate) fn to_snake_case(name: &str) -> (r: String)
    ensures
        r@ == snake_case_of(name@),
{
    inflector::cases::snakecase::to_snake_case(name)
}

} // verus!
