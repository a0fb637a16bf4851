//! Strings as sequences of characters, and lists of strings as sequences of
//! such sequences.

use vstd::prelude::*;

verus! {

/// The characters of each string of `list`, in order.
pub open spec fn views(list: Seq<String>) -> Seq<Seq<char>> {
    Seq::new(list.len(), |i: int| list[i]@)
}

/// The characters of an optional string.
pub open spec fn option_view(text: Option<String>) -> Option<Seq<char>> {
    match text {
        Some(t) => Some(t@),
        None => None,
    }
}

/// Appending a string to a list appends its characters to the list's views.
pub proof fn lemma_views_push(list: Seq<String>, last: String)
    ensures
        views(list.push(last)) == views(list).push(last@),
{
}

/// Trusted: `String::push` of std, which appends one character.
#[verifier::external_body]
pub(crate) fn push_char(s: &mut String, c: char)
    ensures
        final(s)@ == old(s)@.push(c),
{
    s.push(c)
}

/// Whether two strings hold the same characters.
pub fn same_text(a: &String, b: &String) -> (same: bool)
    ensures
        same == (a@ == b@),
{
    *a == *b
}

/// The position of the first `needle` in `list` is `at`, once everything
/// before `at` is known to differ from it.
pub proof fn lemma_first_index<T>(list: Seq<T>, needle: T, at: int)
    requires
        0 <= at < list.len(),
        list[at] == needle,
        forall|j: int| 0 <= j < at ==> list[j] != needle,
    ensures
        list.index_of_first(needle) == Some(at),
{
    list.index_of_first_ensures(needle);
}

/// Nothing has a first position in a list that does not contain it.
pub proof fn lemma_no_index<T>(list: Seq<T>, needle: T)
    requires
        forall|j: int| 0 <= j < list.len() ==> list[j] != needle,
    ensures
        list.index_of_first(needle) is None,
        !list.contains(needle),
{
    list.index_of_first_ensures(needle);
}

/// Removing a string from a list removes its characters from the list's
/// views.
pub proof fn lemma_views_remove(list: Seq<String>, at: int)
    requires
        0 <= at < list.len(),
    ensures
        views(list.remove(at)) == views(list).remove(at),
{
}

/// Where `key` first stands in `list`, if it does.
pub fn find_text(list: &Vec<String>, key: &String) -> (at: Option<usize>)
    ensures
        match at {
            Some(i) => i < list@.len() && views(list@).index_of_first(key@) == Some(i as int),
            None => !views(list@).contains(key@),
        },
{
    let mut i: usize = 0;
    while i < list.len()
        invariant
            i <= list@.len(),
            forall|j: int| 0 <= j < i ==> views(list@)[j] != key@,
        decreases list@.len() - i,
    {
        if same_text(&list[i], key) {
            proof {
                lemma_first_index(views(list@), key@, i as int);
            }
            return Some(i);
        }
        i += 1;
    }
    proof {
        lemma_no_index(views(list@), key@);
    }
    None
}

} // verus!
