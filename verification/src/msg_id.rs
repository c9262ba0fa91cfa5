//! Message ids derived from type names.
use heck::ToKebabCase;
use vstd::prelude::*;

verus! {

/// What `heck::ToKebabCase::to_kebab_case` gives for a text.
pub uninterp spec fn kebab_case(s: Seq<char>) -> Seq<char>;

/// `heck::ToKebabCase::to_kebab_case` on a `str`.
///
/// The contract names the result: it depends on the text alone. heck splits
/// the text into words and joins them, lower-cased, with hyphens; nothing
/// more of it is stated.
#[verifier::external_body]
fn to_kebab_case(s: &str) -> (r: String)
    ensures
        r@ == kebab_case(s@),
{
    s.to_kebab_case()
}

/// The message id for a type named `ident`: the name in kebab case, as
/// `#[derive(MsgId)]` computes it.
pub fn msg_id(ident: &str) -> (r: String)
    ensures
        r@ == kebab_case(ident@),
{
    to_kebab_case(ident)
}

} // verus!
