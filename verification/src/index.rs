//! The ownership index: for each account that holds anything, the item
//! identifiers it holds, stored as one joined string. Accounts keep the order
//! in which they entered, except that a removed account's place is taken by
//! the last one.

use vstd::prelude::*;
use crate::codec::{deserialize_ids, join_fields, parse_ids, serialize_ids};
use crate::error::LedgerError;
use crate::text::{
    find_text, lemma_first_index, lemma_no_index, lemma_views_push, lemma_views_remove, same_text,
    views,
};

verus! {

/// One account's entry, as plain values: the account and the stored string
/// of what it holds.
pub struct EntryView {
    pub account: Seq<char>,
    pub tokens: Seq<char>,
}

/// One account's ownership of one item.
#[derive(Debug, PartialEq, Eq)]
pub struct Holding {
    pub account: String,
    pub token_id: String,
}

/// A holding as plain values.
pub struct HoldingView {
    pub account: Seq<char>,
    pub token_id: Seq<char>,
}

impl View for Holding {
    type V = HoldingView;

    open spec fn view(&self) -> HoldingView {
        HoldingView { account: self.account@, token_id: self.token_id@ }
    }
}

/// The plain values of each holding of `list`, in order.
pub open spec fn holding_views(list: Seq<Holding>) -> Seq<HoldingView> {
    Seq::new(list.len(), |i: int| list[i]@)
}

/// The accounts of the entries, in index order.
pub open spec fn accounts_of(index: Seq<EntryView>) -> Seq<Seq<char>> {
    Seq::new(index.len(), |i: int| index[i].account)
}

/// Whether no account has two entries.
pub open spec fn distinct_accounts(index: Seq<EntryView>) -> bool {
    accounts_of(index).no_duplicates()
}

/// Where the entry of `account` stands, if it has one.
pub open spec fn position_of(index: Seq<EntryView>, account: Seq<char>) -> Option<int> {
    accounts_of(index).index_of_first(account)
}

/// The string stored for `account`: empty if it has no entry.
pub open spec fn stored_for(index: Seq<EntryView>, account: Seq<char>) -> Seq<char> {
    match position_of(index, account) {
        Some(at) => index[at].tokens,
        None => Seq::<char>::empty(),
    }
}

/// The item identifiers that `account` holds, oldest first.
pub open spec fn holdings_of(index: Seq<EntryView>, account: Seq<char>) -> Seq<Seq<char>> {
    parse_ids(stored_for(index, account))
}

/// The index after `account` takes a holding of `item`: the item is appended
/// to what the account's string stands for, and the list is stored again, in
/// the account's place or, for a new account, at the end.
pub open spec fn with_holding(index: Seq<EntryView>, account: Seq<char>, item: Seq<char>) -> Seq<
    EntryView,
> {
    let entry = EntryView {
        account,
        tokens: join_fields(holdings_of(index, account).push(item)),
    };
    match position_of(index, account) {
        Some(at) => index.update(at, entry),
        None => index.push(entry),
    }
}

/// The index without the entry at `at`: the last entry takes its place.
pub open spec fn swap_removed(index: Seq<EntryView>, at: int) -> Seq<EntryView> {
    index.update(at, index.last()).drop_last()
}

/// The index after `account` gives up its holding of `item`, or why it
/// cannot: the first occurrence of the item leaves the account's list, and
/// the account's entry leaves the index when nothing is left.
pub open spec fn without_holding(
    index: Seq<EntryView>,
    account: Seq<char>,
    item: Seq<char>,
) -> Result<Seq<EntryView>, LedgerError> {
    match position_of(index, account) {
        None => Err(LedgerError::NoHoldings),
        Some(at) => {
            let held = parse_ids(index[at].tokens);
            if !held.contains(item) {
                Err(LedgerError::TokenNotOwned)
            } else {
                let rest = held.remove_value(item);
                if rest.len() == 0 {
                    Ok(swap_removed(index, at))
                } else {
                    Ok(index.update(at, EntryView { account, tokens: join_fields(rest) }))
                }
            }
        },
    }
}

/// The number of holdings of all accounts together.
pub open spec fn count_in(index: Seq<EntryView>) -> nat
    decreases index.len(),
{
    if index.len() == 0 {
        0
    } else {
        count_in(index.drop_last()) + parse_ids(index.last().tokens).len()
    }
}

/// The holdings of one entry, oldest first.
pub open spec fn pairs_of(entry: EntryView) -> Seq<HoldingView> {
    Seq::new(
        parse_ids(entry.tokens).len(),
        |i: int| HoldingView { account: entry.account, token_id: parse_ids(entry.tokens)[i] },
    )
}

/// The holdings of all entries, account by account in index order.
pub open spec fn listing(index: Seq<EntryView>) -> Seq<HoldingView>
    decreases index.len(),
{
    if index.len() == 0 {
        Seq::<HoldingView>::empty()
    } else {
        listing(index.drop_last()) + pairs_of(index.last())
    }
}

/// What is left of `list` after `skip` elements, cut to `limit` elements.
pub open spec fn window<T>(list: Seq<T>, skip: int, limit: int) -> Seq<T> {
    let from = if skip < list.len() {
        skip
    } else {
        list.len() as int
    };
    let to = if from + limit < list.len() {
        from + limit
    } else {
        list.len() as int
    };
    list.subrange(from, to)
}

/// The bounds of a window over `len` elements.
fn window_bounds(len: usize, skip: u128, limit: u64) -> (bounds: (usize, usize))
    ensures
        bounds.0 <= bounds.1 <= len,
        bounds.0 == if skip < len { skip as int } else { len as int },
        bounds.1 == if bounds.0 + limit < len { bounds.0 + limit } else { len as int },
{
    let from: usize = if skip < len as u128 {
        skip as usize
    } else {
        len
    };
    let to: usize = if (limit as u128) < (len - from) as u128 {
        from + limit as usize
    } else {
        len
    };
    (from, to)
}

/// One account's entry: the account and the stored string of what it holds.
#[derive(Debug, PartialEq, Eq)]
pub struct OwnerEntry {
    pub account: String,
    pub tokens: String,
}

impl View for OwnerEntry {
    type V = EntryView;

    open spec fn view(&self) -> EntryView {
        EntryView { account: self.account@, tokens: self.tokens@ }
    }
}

/// The ownership index. Its view is the sequence of its entries.
pub struct OwnershipIndex {
    /// The entries, in index order; of two of one account the first counts.
    pub entries: Vec<OwnerEntry>,
}

impl View for OwnershipIndex {
    type V = Seq<EntryView>;

    open spec fn view(&self) -> Seq<EntryView> {
        Seq::new(self.entries@.len(), |i: int| self.entries@[i]@)
    }
}

impl OwnershipIndex {
    /// Whether the index is well formed: no account has two entries.
    pub open spec fn wf(&self) -> bool {
        distinct_accounts(self@)
    }

    /// An index without entries.
    pub fn new() -> (index: OwnershipIndex)
        ensures
            index@ == Seq::<EntryView>::empty(),
            index.wf(),
    {
        OwnershipIndex { entries: Vec::new() }
    }

    /// Where the entry of `key` stands, if it has one.
    fn position(&self, key: &String) -> (at: Option<usize>)
        ensures
            match at {
                Some(i) => i < self@.len() && position_of(self@, key@) == Some(i as int),
                None => position_of(self@, key@) is None,
            },
    {
        let mut i: usize = 0;
        while i < self.entries.len()
            invariant
                i <= self.entries@.len(),
                forall|j: int| 0 <= j < i ==> accounts_of(self@)[j] != key@,
            decreases self.entries@.len() - i,
        {
            if same_text(&self.entries[i].account, key) {
                proof {
                    lemma_first_index(accounts_of(self@), key@, i as int);
                }
                return Some(i);
            }
            i += 1;
        }
        proof {
            lemma_no_index(accounts_of(self@), key@);
        }
        None
    }

    /// The number of accounts that hold anything.
    pub fn account_count(&self) -> (n: usize)
        ensures
            n == self@.len(),
    {
        self.entries.len()
    }

    /// The item identifiers that `account` holds, oldest first.
    pub fn holdings_of(&self, account: &str) -> (ids: Vec<String>)
        ensures
            views(ids@) == holdings_of(self@, account@),
    {
        let key = account.to_owned();
        match self.position(&key) {
            Some(i) => deserialize_ids(self.entries[i].tokens.as_str()),
            None => Vec::new(),
        }
    }

    /// Records that `account` holds `item_id`. Nothing is checked: an item
    /// that the account holds already is recorded once more.
    pub fn add(&mut self, account: &str, item_id: &str)
        ensures
            final(self)@ == with_holding(old(self)@, account@, item_id@),
            old(self).wf() ==> final(self).wf(),
    {
        proof {
            if self.wf() {
                lemma_with_holding_distinct(self@, account@, item_id@);
            }
        }
        let key = account.to_owned();
        let id = item_id.to_owned();
        let mut ids = self.holdings_of(account);
        proof {
            lemma_views_push(ids@, id);
        }
        ids.push(id);
        let tokens = serialize_ids(&ids);
        let ghost before = self@;
        match self.position(&key) {
            Some(i) => {
                self.entries.set(i, OwnerEntry { account: key, tokens });
                assert(self@ =~= with_holding(before, account@, item_id@));
            },
            None => {
                self.entries.push(OwnerEntry { account: key, tokens });
            },
        }
    }

    /// Takes the holding of `item_id` from `account`.
    pub fn remove(&mut self, account: &str, item_id: &str) -> (r: Result<(), LedgerError>)
        ensures
            match without_holding(old(self)@, account@, item_id@) {
                Ok(next) => r is Ok && final(self)@ == next,
                Err(e) => r == Err::<(), LedgerError>(e) && final(self)@ == old(self)@,
            },
            old(self).wf() ==> final(self).wf(),
    {
        proof {
            if self.wf() {
                lemma_without_holding_distinct(self@, account@, item_id@);
            }
        }
        let key = account.to_owned();
        let id = item_id.to_owned();
        let ghost before = self@;
        let at = match self.position(&key) {
            Some(i) => i,
            None => {
                return Err(LedgerError::NoHoldings);
            },
        };
        let mut ids = deserialize_ids(self.entries[at].tokens.as_str());
        let ghost held = views(ids@);
        let k = match find_text(&ids, &id) {
            Some(k) => k,
            None => {
                return Err(LedgerError::TokenNotOwned);
            },
        };
        proof {
            lemma_views_remove(ids@, k as int);
            held.index_of_first_ensures(id@);
        }
        ids.remove(k);
        if ids.is_empty() {
            self.entries.swap_remove(at);
            assert(self@ =~= swap_removed(before, at as int));
        } else {
            let tokens = serialize_ids(&ids);
            self.entries.set(at, OwnerEntry { account: key, tokens });
        }
        Ok(())
    }

    /// The number of holdings of all accounts together, counted anew on each
    /// call.
    pub fn total_count(&self) -> (n: u128)
        ensures
            n == count_in(self@),
    {
        let mut n: u128 = 0;
        let mut i: usize = 0;
        while i < self.entries.len()
            invariant
                i <= self.entries@.len(),
                n == count_in(self@.subrange(0, i as int)),
                n <= i * 0xffff_ffff_ffff_ffff,
            decreases self.entries@.len() - i,
        {
            let ids = deserialize_ids(self.entries[i].tokens.as_str());
            assert(self@.subrange(0, i + 1).drop_last() =~= self@.subrange(0, i as int));
            n = n + ids.len() as u128;
            i += 1;
        }
        assert(self@.subrange(0, self@.len() as int) =~= self@);
        n
    }

    /// The holdings of up to `limit` accounts after the first `skip`
    /// accounts: whole accounts are skipped and taken, so `limit` bounds the
    /// accounts that are visited, not the holdings that come back.
    pub fn paginate(&self, skip: u128, limit: u64) -> (page: Vec<Holding>)
        ensures
            holding_views(page@) == listing(window(self@, skip as int, limit as int)),
    {
        let (from, to) = window_bounds(self.entries.len(), skip, limit);
        let mut page: Vec<Holding> = Vec::new();
        let mut k: usize = from;
        while k < to
            invariant
                from <= k <= to <= self.entries@.len(),
                holding_views(page@) == listing(self@.subrange(from as int, k as int)),
            decreases to - k,
        {
            let ids = deserialize_ids(self.entries[k].tokens.as_str());
            let ghost done = listing(self@.subrange(from as int, k as int));
            let ghost pairs = pairs_of(self@[k as int]);
            let mut j: usize = 0;
            while j < ids.len()
                invariant
                    k < self.entries@.len(),
                    j <= ids@.len(),
                    views(ids@) == parse_ids(self@[k as int].tokens),
                    pairs == pairs_of(self@[k as int]),
                    holding_views(page@) == done + pairs.subrange(0, j as int),
                decreases ids@.len() - j,
            {
                let ghost shown = holding_views(page@);
                let holding = Holding {
                    account: self.entries[k].account.clone(),
                    token_id: ids[j].clone(),
                };
                page.push(holding);
                assert(holding_views(page@) =~= shown.push(pairs[j as int]));
                j += 1;
            }
            assert(self@.subrange(from as int, k + 1).drop_last() =~= self@.subrange(
                from as int,
                k as int,
            ));
            k += 1;
        }
        page
    }

    /// Up to `limit` of the item identifiers that `account` holds, after the
    /// first `skip` of them.
    pub fn paginate_for_account(&self, account: &str, skip: u128, limit: u64) -> (page: Vec<
        String,
    >)
        ensures
            views(page@) == window(holdings_of(self@, account@), skip as int, limit as int),
    {
        let ids = self.holdings_of(account);
        let (from, to) = window_bounds(ids.len(), skip, limit);
        let mut page: Vec<String> = Vec::new();
        let mut k: usize = from;
        while k < to
            invariant
                from <= k <= to <= ids@.len(),
                views(page@) == views(ids@).subrange(from as int, k as int),
            decreases to - k,
        {
            let id = ids[k].clone();
            proof {
                lemma_views_push(page@, id);
            }
            page.push(id);
            k += 1;
        }
        page
    }
}

/// Taking a holding leaves the accounts of the index distinct.
pub proof fn lemma_with_holding_distinct(
    index: Seq<EntryView>,
    account: Seq<char>,
    item: Seq<char>,
)
    requires
        distinct_accounts(index),
    ensures
        distinct_accounts(with_holding(index, account, item)),
{
    let next = with_holding(index, account, item);
    accounts_of(index).index_of_first_ensures(account);
    match position_of(index, account) {
        Some(at) => {
            assert(accounts_of(next) =~= accounts_of(index));
        },
        None => {
            assert(accounts_of(next) =~= accounts_of(index).push(account));
        },
    }
}

/// Giving up a holding leaves the accounts of the index distinct.
pub proof fn lemma_without_holding_distinct(
    index: Seq<EntryView>,
    account: Seq<char>,
    item: Seq<char>,
)
    requires
        distinct_accounts(index),
    ensures
        without_holding(index, account, item) matches Ok(next) ==> distinct_accounts(next),
{
    accounts_of(index).index_of_first_ensures(account);
    match without_holding(index, account, item) {
        Ok(next) => {
            let at = position_of(index, account).unwrap();
            let names = accounts_of(index);
            if parse_ids(index[at].tokens).remove_value(item).len() == 0 {
                assert(accounts_of(next) =~= names.update(at, names.last()).drop_last());
            } else {
                assert(accounts_of(next) =~= names);
            }
        },
        Err(_) => {},
    }
}

} // verus!
