//! The two text formats of the ledger: the list of item identifiers that an
//! account holds, joined by a delimiter into one string, and the composite
//! identifier of a holding, `<account>:<item>`.

use vstd::prelude::*;
use vstd::string::*;
use crate::account::{account_syntax_ok, lemma_valid_account_has_no_colon, valid_account_id};
use crate::error::LedgerError;
use crate::text::{lemma_first_index, lemma_no_index, lemma_views_push, push_char, views};

verus! {

/// The character that joins item identifiers, and account and item.
pub const DELIMITER: char = ':';

/// Whether `t` is free of the delimiter.
pub open spec fn is_plain(t: Seq<char>) -> bool {
    !t.contains(DELIMITER)
}

/// Whether `t` can stand in a joined list and be read back: not empty, and
/// free of the delimiter.
pub open spec fn is_clean_id(t: Seq<char>) -> bool {
    t.len() > 0 && is_plain(t)
}

/// Whether every identifier of `ids` is clean.
pub open spec fn all_clean(ids: Seq<Seq<char>>) -> bool {
    forall|i: int| 0 <= i < ids.len() ==> is_clean_id(#[trigger] ids[i])
}

/// The fields of `s`: what stands between its delimiters. Read from the left,
/// a delimiter opens a new, empty field and any other character extends the
/// field that is open. There is always at least one field.
pub open spec fn split_fields(s: Seq<char>) -> Seq<Seq<char>>
    decreases s.len(),
{
    if s.len() == 0 {
        seq![Seq::<char>::empty()]
    } else {
        let before = split_fields(s.drop_last());
        if s.last() == DELIMITER {
            before.push(Seq::<char>::empty())
        } else {
            before.drop_last().push(before.last().push(s.last()))
        }
    }
}

/// The fields of `parts` with one delimiter between each two neighbours.
pub open spec fn join_fields(parts: Seq<Seq<char>>) -> Seq<char>
    decreases parts.len(),
{
    if parts.len() == 0 {
        Seq::<char>::empty()
    } else if parts.len() == 1 {
        parts[0]
    } else {
        join_fields(parts.drop_last()) + seq![DELIMITER] + parts.last()
    }
}

/// The identifiers that the stored string `s` stands for: none for the empty
/// string, else its fields.
pub open spec fn parse_ids(s: Seq<char>) -> Seq<Seq<char>> {
    if s.len() == 0 {
        Seq::<Seq<char>>::empty()
    } else {
        split_fields(s)
    }
}

/// A string always has a field, and no field holds the delimiter.
pub proof fn lemma_split_shape(s: Seq<char>)
    ensures
        split_fields(s).len() >= 1,
        forall|i: int| 0 <= i < split_fields(s).len() ==> is_plain(#[trigger] split_fields(s)[i]),
    decreases s.len(),
{
    if s.len() > 0 {
        lemma_split_shape(s.drop_last());
        let before = split_fields(s.drop_last());
        if s.last() != DELIMITER {
            assert(is_plain(before.last().push(s.last())));
        }
        assert forall|i: int| 0 <= i < split_fields(s).len() implies is_plain(
            #[trigger] split_fields(s)[i],
        ) by {}
    }
}

/// Joining the fields of a string gives the string back.
pub proof fn lemma_join_split(s: Seq<char>)
    ensures
        join_fields(split_fields(s)) == s,
    decreases s.len(),
{
    if s.len() > 0 {
        let init = s.drop_last();
        lemma_join_split(init);
        lemma_split_shape(init);
        let before = split_fields(init);
        if s.last() == DELIMITER {
            assert(before.push(Seq::<char>::empty()).drop_last() =~= before);
        } else {
            let after = before.drop_last().push(before.last().push(s.last()));
            if before.len() > 1 {
                assert(after.drop_last() =~= before.drop_last());
            }
            assert(init.push(s.last()) =~= s);
        }
    }
}

/// Text without a delimiter, appended to a string, extends its last field.
pub proof fn lemma_split_append_plain(a: Seq<char>, b: Seq<char>)
    requires
        is_plain(b),
    ensures
        split_fields(a + b) == split_fields(a).drop_last().push(split_fields(a).last() + b),
    decreases b.len(),
{
    lemma_split_shape(a);
    if b.len() > 0 {
        let shorter = b.drop_last();
        assert(is_plain(shorter));
        assert(b.last() != DELIMITER);
        lemma_split_append_plain(a, shorter);
        assert((a + b).drop_last() =~= a + shorter);
        assert(split_fields(a + shorter).last().push(b.last()) =~= split_fields(a).last() + b);
    }
}

/// Splitting the join of fields that are free of the delimiter gives the
/// fields back.
pub proof fn lemma_split_join(parts: Seq<Seq<char>>)
    requires
        parts.len() >= 1,
        forall|i: int| 0 <= i < parts.len() ==> is_plain(#[trigger] parts[i]),
    ensures
        split_fields(join_fields(parts)) == parts,
    decreases parts.len(),
{
    let nothing = Seq::<char>::empty();
    if parts.len() == 1 {
        lemma_split_append_plain(nothing, parts[0]);
    } else {
        let init = parts.drop_last();
        lemma_split_join(init);
        let joined = join_fields(init);
        let opened = joined.push(DELIMITER);
        assert(opened.drop_last() =~= joined);
        lemma_split_append_plain(opened, parts.last());
        assert(join_fields(parts) =~= opened + parts.last());
    }
}

/// The join of a list that holds a non-empty field, or more than one field,
/// is not empty.
pub proof fn lemma_join_not_empty(parts: Seq<Seq<char>>)
    requires
        parts.len() >= 2 || (parts.len() == 1 && parts[0].len() > 0),
    ensures
        join_fields(parts).len() > 0,
{
}

/// Law: a list of clean identifiers survives being stored and read back.
pub proof fn lemma_parse_of_join(ids: Seq<Seq<char>>)
    requires
        all_clean(ids),
    ensures
        parse_ids(join_fields(ids)) == ids,
{
    if ids.len() > 0 {
        lemma_join_not_empty(ids);
        lemma_split_join(ids);
    }
}

/// Law: every stored string is the join of the identifiers it stands for.
pub proof fn lemma_join_of_parse(s: Seq<char>)
    ensures
        join_fields(parse_ids(s)) == s,
{
    if s.len() > 0 {
        lemma_join_split(s);
    }
}

/// Reads a stored string into the identifiers it stands for.
pub fn deserialize_ids(s: &str) -> (ids: Vec<String>)
    ensures
        views(ids@) == parse_ids(s@),
{
    let mut done: Vec<String> = Vec::new();
    let mut open = String::new();
    for c in it: s.chars()
        invariant
            it.seq() == s@,
            views(done@).push(open@) == split_fields(s@.subrange(0, it.index() as int)),
    {
        assert(s@.subrange(0, it.index() + 1).drop_last() =~= s@.subrange(0, it.index() as int));
        if c == DELIMITER {
            proof {
                lemma_views_push(done@, open);
            }
            done.push(open);
            open = String::new();
        } else {
            push_char(&mut open, c);
        }
    }
    assert(s@.subrange(0, s@.len() as int) =~= s@);
    if s.is_empty() {
        Vec::new()
    } else {
        proof {
            lemma_views_push(done@, open);
        }
        done.push(open);
        done
    }
}

/// Joins identifiers into the string that is stored for them.
pub fn serialize_ids(ids: &Vec<String>) -> (s: String)
    ensures
        s@ == join_fields(views(ids@)),
{
    let mut out = String::new();
    let mut i: usize = 0;
    while i < ids.len()
        invariant
            i <= ids.len(),
            out@ == join_fields(views(ids@).subrange(0, i as int)),
        decreases ids.len() - i,
    {
        assert(views(ids@).subrange(0, i + 1).drop_last() =~= views(ids@).subrange(0, i as int));
        if i > 0 {
            proof {
                reveal_strlit(":");
            }
            out.append(":");
        }
        out.append(ids[i].as_str());
        i += 1;
    }
    assert(views(ids@).subrange(0, ids@.len() as int) =~= views(ids@));
    out
}

/// The identifier of the holding of `item` by `account`.
pub open spec fn holding_id(account: Seq<char>, item: Seq<char>) -> Seq<char> {
    account + seq![DELIMITER] + item
}

/// Builds the identifier of the holding of `token_id` by `account`.
pub fn encode_holding_id(account: &str, token_id: &str) -> (id: String)
    ensures
        id@ == holding_id(account@, token_id@),
{
    let mut id = account.to_owned();
    proof {
        reveal_strlit(":");
    }
    id.append(":");
    id.append(token_id);
    id
}

/// What a holding identifier stands for: the account before its first
/// delimiter and the item after it. It is malformed without a delimiter, and
/// refused if the account part is not a valid account name.
pub open spec fn decode_spec(id: Seq<char>) -> Result<(Seq<char>, Seq<char>), LedgerError> {
    match id.index_of_first(DELIMITER) {
        None => Err(LedgerError::MalformedHoldingId),
        Some(cut) => {
            let account = id.subrange(0, cut);
            if valid_account_id(account) {
                Ok((account, id.subrange(cut + 1, id.len() as int)))
            } else {
                Err(LedgerError::InvalidAccount)
            }
        },
    }
}

/// The characters of a decoded pair, or its error.
pub open spec fn pair_view(r: Result<(String, String), LedgerError>) -> Result<
    (Seq<char>, Seq<char>),
    LedgerError,
> {
    match r {
        Ok(pair) => Ok((pair.0@, pair.1@)),
        Err(e) => Err(e),
    }
}

/// Takes a holding identifier apart into account and item.
pub fn decode_holding_id(id: &str) -> (r: Result<(String, String), LedgerError>)
    ensures
        pair_view(r) == decode_spec(id@),
{
    let mut account = String::new();
    let mut item = String::new();
    let mut found = false;
    let ghost mut cut: int = 0;
    for c in it: id.chars()
        invariant
            it.seq() == id@,
            !found ==> account@ == id@.subrange(0, it.index() as int) && item@.len() == 0
                && forall|j: int| 0 <= j < it.index() ==> id@[j] != DELIMITER,
            found ==> 0 <= cut < it.index() && id@[cut] == DELIMITER && account@ == id@.subrange(
                0,
                cut,
            ) && item@ == id@.subrange(cut + 1, it.index() as int) && forall|j: int|
                0 <= j < cut ==> id@[j] != DELIMITER,
    {
        if found {
            push_char(&mut item, c);
        } else if c == DELIMITER {
            found = true;
            proof {
                cut = it.index() as int;
            }
        } else {
            push_char(&mut account, c);
        }
    }
    if !found {
        proof {
            lemma_no_index(id@, DELIMITER);
        }
        Err(LedgerError::MalformedHoldingId)
    } else {
        proof {
            lemma_first_index(id@, DELIMITER, cut);
        }
        if account_syntax_ok(account.as_str()) {
            Ok((account, item))
        } else {
            Err(LedgerError::InvalidAccount)
        }
    }
}

/// Law: the identifier built for a valid account and any item decodes to
/// that account and that item.
pub proof fn lemma_decode_of_encode(account: Seq<char>, item: Seq<char>)
    requires
        valid_account_id(account),
    ensures
        decode_spec(holding_id(account, item)) == Ok::<(Seq<char>, Seq<char>), LedgerError>(
            (account, item),
        ),
{
    let id = holding_id(account, item);
    lemma_valid_account_has_no_colon(account);
    let cut = account.len() as int;
    assert forall|j: int| 0 <= j < cut implies id[j] != DELIMITER by {}
    lemma_first_index(id, DELIMITER, cut);
    assert(id.subrange(0, cut) =~= account);
    assert(id.subrange(cut + 1, id.len() as int) =~= item);
}

} // verus!
