//! The calls this library makes into outside code, each with the contract it relies on.
use vstd::prelude::*;

verus! {

/// What `stringcase::pascal_case` makes of a text.
pub uninterp spec fn pascal_of(s: Seq<char>) -> Seq<char>;

/// What `stringcase::kebab_case` makes of a text.
pub uninterp spec fn kebab_of(s: Seq<char>) -> Seq<char>;

/// What `stringcase::snake_case` makes of a text.
pub uninterp spec fn snake_of(s: Seq<char>) -> Seq<char>;

/// What `str::to_uppercase` makes of a text.
pub uninterp spec fn upper_of(s: Seq<char>) -> Seq<char>;

/// What `char::to_uppercase` makes of one character.
pub uninterp spec fn char_upper_of(c: char) -> Seq<char>;

/// Whether `char::is_uppercase` holds of a character.
pub uninterp spec fn is_upper(c: char) -> bool;

/// Relies on stringcase::pascal_case: the result depends on the text alone.
#[verifier::external_body]
pub(crate) fn pascal_case(s: &str) -> (r: String)
    ensures
        r@ == pascal_of(s@),
{
    stringcase::pascal_case(s)
}

/// Relies on stringcase::kebab_case: the result depends on the text alone.
#[verifier::external_body]
pub(crate) fn kebab_case(s: &str) -> (r: String)
    ensures
        r@ == kebab_of(s@),
{
    stringcase::kebab_case(s)
}

/// Relies on stringcase::snake_case: the result depends on the text alone.
#[verifier::external_body]
pub(crate) fn snake_case(s: &str) -> (r: String)
    ensures
        r@ == snake_of(s@),
{
    stringcase::snake_case(s)
}

/// Relies on str::to_uppercase: the result depends on the text alone.
#[verifier::external_body]
pub(crate) fn to_uppercase(s: &str) -> (r: String)
    ensures
        r@ == upper_of(s@),
{
    s.to_uppercase()
}

/// Relies on char::to_uppercase, collected into a string: it depends on the character alone.
#[verifier::external_body]
pub(crate) fn char_to_uppercase(c: char) -> (r: String)
    ensures
        r@ == char_upper_of(c),
{
    c.to_uppercase().collect::<String>()
}

/// Relies on char::is_uppercase: whether the character has the Unicode Uppercase property.
#[verifier::external_body]
pub(crate) fn char_is_uppercase(c: char) -> (r: bool)
    ensures
        r == is_upper(c),
{
    c.is_uppercase()
}

} // verus!
