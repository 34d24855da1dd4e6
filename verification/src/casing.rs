use heck::SnakeCase;
use vstd::prelude::*;

verus! {

/// The snake-case form of a name, as heck's `SnakeCase::to_snake_case` writes it.
pub uninterp spec fn snake_case(s: Seq<char>) -> Seq<char>;

/// Calls heck's `SnakeCase::to_snake_case` on `s`. The contract claims only
/// that the result depends on the characters of `s` alone and names it
/// `snake_case`; heck's word splitting and lowercasing are not stated.
#[verifier::external_body]
pub(crate) fn to_snake_case(s: &str) -> (r: String)
    ensures
        r@ == snake_case(s@),
{
    s.to_snake_case()
}

/// The name under which a function is bound: the module's binding prefix, an
/// underscore, and the snake-case form of the function's name.
pub fn binding_name(prefix: &str, snake_name: &str) -> (r: String)
    ensures
        r@ == prefix@ + seq!['_'] + snake_name@,
{
    let mut r = String::from_str(prefix);
    let sep = "_";
    proof {
        reveal_strlit("_");
    }
    r.append(sep);
    r.append(snake_name);
    r
}

} // verus!
