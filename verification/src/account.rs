//! Account identifiers and their syntax.

use vstd::prelude::*;

verus! {

/// A lower-case letter or a digit.
pub open spec fn is_account_letter(c: char) -> bool {
    ('a' <= c && c <= 'z') || ('0' <= c && c <= '9')
}

/// One of the three characters that may join two runs of letters.
pub open spec fn is_account_separator(c: char) -> bool {
    c == '-' || c == '_' || c == '.'
}

/// The syntax of an account identifier: 2 to 64 characters, each a lower-case
/// letter, a digit or a separator, where no separator stands first, last or
/// next to another separator.
pub open spec fn valid_account_id(id: Seq<char>) -> bool {
    &&& 2 <= id.len() <= 64
    &&& forall|i: int|
        0 <= i < id.len() ==> is_account_letter(#[trigger] id[i]) || is_account_separator(id[i])
    &&& !is_account_separator(id[0])
    &&& !is_account_separator(id[id.len() - 1])
    &&& forall|i: int|
        0 <= i < id.len() - 1 ==> !(is_account_separator(#[trigger] id[i])
            && is_account_separator(id[i + 1]))
}

/// Trusted: `near_sdk::env::is_valid_account_id`, applied to the UTF-8 bytes of
/// `id`. The function accepts exactly the byte strings of 2 to 64 bytes made of
/// `a`-`z`, `0`-`9`, `-`, `_` and `.` in which no separator stands first, last
/// or next to another one. All of these bytes are ASCII, so the same holds of
/// the characters of `id`.
#[verifier::external_body]
pub(crate) fn account_syntax_ok(id: &str) -> (ok: bool)
    ensures
        ok == valid_account_id(id@),
{
    near_sdk::env::is_valid_account_id(id.as_bytes())
}

/// Whether `id` is a syntactically valid account identifier.
pub fn is_valid_account_id(id: &str) -> (ok: bool)
    ensures
        ok == valid_account_id(id@),
{
    account_syntax_ok(id)
}

/// No valid account identifier contains a colon.
pub proof fn lemma_valid_account_has_no_colon(id: Seq<char>)
    requires
        valid_account_id(id),
    ensures
        !id.contains(':'),
{
    assert forall|i: int| 0 <= i < id.len() implies id[i] != ':' by {
        assert(is_account_letter(id[i]) || is_account_separator(id[i]));
    }
}

} // verus!
