//! What holds of the ledger over whole histories of purchases and burns,
//! stated over the functions that the operations' contracts use.

use vstd::prelude::*;
use vstd::multiset::Multiset;
use crate::account::valid_account_id;
use crate::catalog::ItemView;
use crate::codec::{
    all_clean, holding_id, is_clean_id, lemma_decode_of_encode, lemma_parse_of_join, parse_ids,
};
use crate::contract::{buy_spec, burn_spec, resolve_spec, token_of, ContractView};
use crate::error::LedgerError;
use crate::index::{
    accounts_of, distinct_accounts, holdings_of, lemma_with_holding_distinct,
    lemma_without_holding_distinct, listing, position_of, window, with_holding,
    without_holding, EntryView, HoldingView,
};
use crate::metadata::TokenView;
use crate::text::{lemma_first_index, lemma_no_index};

verus! {

/// One step in the history of an account: it takes a holding of an item, or
/// a burn of its holding of an item is asked for.
pub enum HoldingOp {
    Buy(Seq<char>),
    Burn(Seq<char>),
}

/// The item that a step speaks of.
pub open spec fn item_of(op: HoldingOp) -> Seq<char> {
    match op {
        HoldingOp::Buy(item) => item,
        HoldingOp::Burn(item) => item,
    }
}

/// Whether every step speaks of a clean item identifier.
pub open spec fn clean_ops(ops: Seq<HoldingOp>) -> bool {
    forall|i: int| 0 <= i < ops.len() ==> is_clean_id(item_of(#[trigger] ops[i]))
}

/// The index after the steps `ops` of `account`, in order. A burn that is
/// refused changes nothing.
pub open spec fn replay(index: Seq<EntryView>, account: Seq<char>, ops: Seq<HoldingOp>) -> Seq<
    EntryView,
>
    decreases ops.len(),
{
    if ops.len() == 0 {
        index
    } else {
        let before = replay(index, account, ops.drop_last());
        match ops.last() {
            HoldingOp::Buy(item) => with_holding(before, account, item),
            HoldingOp::Burn(item) => match without_holding(before, account, item) {
                Ok(next) => next,
                Err(_) => before,
            },
        }
    }
}

/// A plain list after the steps `ops`: a purchase appends its item, a burn
/// takes out the first occurrence of its item, if there is one.
pub open spec fn replay_list(start: Seq<Seq<char>>, ops: Seq<HoldingOp>) -> Seq<Seq<char>>
    decreases ops.len(),
{
    if ops.len() == 0 {
        start
    } else {
        let before = replay_list(start, ops.drop_last());
        match ops.last() {
            HoldingOp::Buy(item) => before.push(item),
            HoldingOp::Burn(item) => before.remove_value(item),
        }
    }
}

/// The items that the steps `ops` bought, in the order of purchase.
pub open spec fn bought(ops: Seq<HoldingOp>) -> Seq<Seq<char>>
    decreases ops.len(),
{
    if ops.len() == 0 {
        Seq::<Seq<char>>::empty()
    } else {
        match ops.last() {
            HoldingOp::Buy(item) => bought(ops.drop_last()).push(item),
            HoldingOp::Burn(_) => bought(ops.drop_last()),
        }
    }
}

/// The items bought less the items burned, as a multiset: a burn takes one
/// copy of its item, and nothing where there is none to take.
pub open spec fn balance(ops: Seq<HoldingOp>) -> Multiset<Seq<char>>
    decreases ops.len(),
{
    if ops.len() == 0 {
        Multiset::<Seq<char>>::empty()
    } else {
        match ops.last() {
            HoldingOp::Buy(item) => balance(ops.drop_last()).insert(item),
            HoldingOp::Burn(item) => balance(ops.drop_last()).remove(item),
        }
    }
}

/// Whether `part` can be had from `whole` by leaving elements out: what
/// stays keeps its order.
pub open spec fn is_subsequence(part: Seq<Seq<char>>, whole: Seq<Seq<char>>) -> bool
    decreases whole.len(),
{
    if part.len() == 0 {
        true
    } else if whole.len() == 0 {
        false
    } else if part.last() == whole.last() && is_subsequence(part.drop_last(), whole.drop_last()) {
        true
    } else {
        is_subsequence(part, whole.drop_last())
    }
}

/// A list of clean identifiers stays clean when one leaves.
pub proof fn lemma_clean_after_remove(ids: Seq<Seq<char>>, item: Seq<char>)
    requires
        all_clean(ids),
    ensures
        all_clean(ids.remove_value(item)),
{
    ids.index_of_first_ensures(item);
    if let Some(at) = ids.index_of_first(item) {
        let rest = ids.remove(at);
        assert forall|i: int| 0 <= i < rest.len() implies is_clean_id(#[trigger] rest[i]) by {}
    }
}

/// Law: a purchase of a clean item by an account whose holdings are clean
/// appends the item to the account's holdings.
pub proof fn lemma_holdings_after_add(index: Seq<EntryView>, account: Seq<char>, item: Seq<char>)
    requires
        all_clean(holdings_of(index, account)),
        is_clean_id(item),
    ensures
        holdings_of(with_holding(index, account, item), account) == holdings_of(
            index,
            account,
        ).push(item),
{
    let names = accounts_of(index);
    let next = with_holding(index, account, item);
    let held = holdings_of(index, account).push(item);
    names.index_of_first_ensures(account);
    match position_of(index, account) {
        Some(at) => {
            assert(accounts_of(next) =~= names);
        },
        None => {
            assert(accounts_of(next) =~= names.push(account));
            lemma_first_index(accounts_of(next), account, names.len() as int);
        },
    }
    assert forall|i: int| 0 <= i < held.len() implies is_clean_id(#[trigger] held[i]) by {}
    lemma_parse_of_join(held);
}

/// Law: in an index of distinct accounts, a burn from an account whose
/// holdings are clean is refused exactly when the account does not hold the
/// item, and else takes the first occurrence of the item from the account's
/// holdings.
pub proof fn lemma_holdings_after_remove(
    index: Seq<EntryView>,
    account: Seq<char>,
    item: Seq<char>,
)
    requires
        distinct_accounts(index),
        all_clean(holdings_of(index, account)),
    ensures
        match without_holding(index, account, item) {
            Ok(next) => holdings_of(index, account).contains(item) && holdings_of(next, account)
                == holdings_of(index, account).remove_value(item),
            Err(e) => !holdings_of(index, account).contains(item) && e == (if position_of(
                index,
                account,
            ) is None {
                LedgerError::NoHoldings
            } else {
                LedgerError::TokenNotOwned
            }),
        },
{
    let names = accounts_of(index);
    names.index_of_first_ensures(account);
    if let Some(at) = position_of(index, account) {
        let held = parse_ids(index[at].tokens);
        if held.contains(item) {
            let rest = held.remove_value(item);
            let next = without_holding(index, account, item).unwrap();
            lemma_clean_after_remove(held, item);
            if rest.len() == 0 {
                let fewer = accounts_of(next);
                assert forall|j: int| 0 <= j < fewer.len() implies fewer[j] != account by {
                    if j == at {
                        assert(names[names.len() - 1] != names[at]);
                    } else {
                        assert(names[j] != names[at]);
                    }
                }
                lemma_no_index(fewer, account);
            } else {
                assert(accounts_of(next) =~= names);
                lemma_parse_of_join(rest);
            }
        }
    }
}

/// Law: over any history of purchases and burns of clean items by one
/// account, the account's holdings in the index are the plain list that the
/// same history gives, although the index keeps them as one joined string.
pub proof fn lemma_replay_follows_list(
    index: Seq<EntryView>,
    account: Seq<char>,
    ops: Seq<HoldingOp>,
)
    requires
        distinct_accounts(index),
        all_clean(holdings_of(index, account)),
        clean_ops(ops),
    ensures
        holdings_of(replay(index, account, ops), account) == replay_list(
            holdings_of(index, account),
            ops,
        ),
        distinct_accounts(replay(index, account, ops)),
        all_clean(holdings_of(replay(index, account, ops), account)),
    decreases ops.len(),
{
    if ops.len() > 0 {
        let earlier = ops.drop_last();
        assert forall|i: int| 0 <= i < earlier.len() implies is_clean_id(
            item_of(#[trigger] earlier[i]),
        ) by {}
        lemma_replay_follows_list(index, account, earlier);
        let before = replay(index, account, earlier);
        let held = holdings_of(before, account);
        match ops.last() {
            HoldingOp::Buy(item) => {
                lemma_holdings_after_add(before, account, item);
                lemma_with_holding_distinct(before, account, item);
                assert forall|i: int| 0 <= i < held.push(item).len() implies is_clean_id(
                    #[trigger] held.push(item)[i],
                ) by {}
            },
            HoldingOp::Burn(item) => {
                lemma_holdings_after_remove(before, account, item);
                lemma_without_holding_distinct(before, account, item);
                lemma_clean_after_remove(held, item);
                held.index_of_first_ensures(item);
            },
        }
    }
}

/// A subsequence of a list is a subsequence of the list with one more
/// element at its end.
pub proof fn lemma_subsequence_of_longer(
    part: Seq<Seq<char>>,
    whole: Seq<Seq<char>>,
    more: Seq<char>,
)
    requires
        is_subsequence(part, whole),
    ensures
        is_subsequence(part, whole.push(more)),
{
    assert(whole.push(more).drop_last() =~= whole);
}

/// What is left of a subsequence when one element leaves is a subsequence
/// still.
pub proof fn lemma_subsequence_remove(part: Seq<Seq<char>>, whole: Seq<Seq<char>>, at: int)
    requires
        is_subsequence(part, whole),
        0 <= at < part.len(),
    ensures
        is_subsequence(part.remove(at), whole),
    decreases whole.len(),
{
    let rest = part.remove(at);
    let shorter = whole.drop_last();
    if part.last() == whole.last() && is_subsequence(part.drop_last(), shorter) {
        if at == part.len() - 1 {
            lemma_subsequence_of_longer(rest, shorter, whole.last());
        } else {
            lemma_subsequence_remove(part.drop_last(), shorter, at);
            assert(rest.drop_last() =~= part.drop_last().remove(at));
        }
    } else {
        lemma_subsequence_remove(part, shorter, at);
        lemma_subsequence_of_longer(rest, shorter, whole.last());
    }
}

/// Whatever stands in a subsequence stands in the whole list.
pub proof fn lemma_subsequence_contains(
    part: Seq<Seq<char>>,
    whole: Seq<Seq<char>>,
    item: Seq<char>,
)
    requires
        is_subsequence(part, whole),
        part.contains(item),
    ensures
        whole.contains(item),
    decreases whole.len(),
{
    let at = choose|i: int| 0 <= i < part.len() && part[i] == item;
    let shorter = whole.drop_last();
    if part.last() == whole.last() && is_subsequence(part.drop_last(), shorter) {
        if at < part.len() - 1 {
            assert(part.drop_last()[at] == item);
            lemma_subsequence_contains(part.drop_last(), shorter, item);
        }
    } else {
        lemma_subsequence_contains(part, shorter, item);
    }
    if shorter.contains(item) {
        let k = choose|k: int| 0 <= k < shorter.len() && shorter[k] == item;
        assert(whole[k] == item);
    }
}

/// Law: the list that a history gives from nothing holds, as a multiset,
/// the items bought less the items burned, and it holds them in the order in
/// which they were bought.
pub proof fn lemma_list_history(ops: Seq<HoldingOp>)
    ensures
        replay_list(Seq::<Seq<char>>::empty(), ops).to_multiset() == balance(ops),
        is_subsequence(replay_list(Seq::<Seq<char>>::empty(), ops), bought(ops)),
    decreases ops.len(),
{
    broadcast use vstd::multiset::group_multiset_axioms;

    let nothing = Seq::<Seq<char>>::empty();
    if ops.len() == 0 {
        assert(nothing.to_multiset() =~= Multiset::<Seq<char>>::empty()) by {
            nothing.to_multiset_ensures();
        }
    } else {
        let earlier = ops.drop_last();
        lemma_list_history(earlier);
        let before = replay_list(nothing, earlier);
        match ops.last() {
            HoldingOp::Buy(item) => {
                vstd::seq_lib::to_multiset_build(before, item);
                assert(bought(ops).drop_last() =~= bought(earlier));
                assert(before.push(item).drop_last() =~= before);
            },
            HoldingOp::Burn(item) => {
                before.index_of_first_ensures(item);
                vstd::seq_lib::to_multiset_contains(before, item);
                if let Some(at) = before.index_of_first(item) {
                    vstd::seq_lib::to_multiset_remove(before, at);
                    lemma_subsequence_remove(before, bought(earlier), at);
                }
            },
        }
    }
}

/// Law: for every history of purchases and burns of clean items by an
/// account that starts without holdings, the account's final holdings are,
/// as a multiset, the items bought less the items burned, and they stand in
/// the order in which they were bought.
pub proof fn lemma_account_history(index: Seq<EntryView>, account: Seq<char>, ops: Seq<HoldingOp>)
    requires
        distinct_accounts(index),
        holdings_of(index, account).len() == 0,
        clean_ops(ops),
    ensures
        holdings_of(replay(index, account, ops), account).to_multiset() == balance(ops),
        is_subsequence(holdings_of(replay(index, account, ops), account), bought(ops)),
{
    lemma_replay_follows_list(index, account, ops);
    lemma_list_history(ops);
}

/// An account without an entry in the index gets none from burns alone.
pub proof fn lemma_burns_make_no_entry(
    index: Seq<EntryView>,
    account: Seq<char>,
    ops: Seq<HoldingOp>,
)
    requires
        position_of(index, account) is None,
        bought(ops).len() == 0,
    ensures
        replay(index, account, ops) == index,
    decreases ops.len(),
{
    if ops.len() > 0 && ops.last() is Burn {
        lemma_burns_make_no_entry(index, account, ops.drop_last());
    }
}

/// Law: a burn from an account that never bought anything is refused
/// because the account has no holdings, and a burn of an item that the
/// account never bought is refused: because the account has no holdings, if
/// it has none left, and else because the item is not among them.
pub proof fn lemma_burn_needs_buy(
    index: Seq<EntryView>,
    account: Seq<char>,
    ops: Seq<HoldingOp>,
    item: Seq<char>,
)
    requires
        distinct_accounts(index),
        position_of(index, account) is None,
        clean_ops(ops),
        !bought(ops).contains(item),
    ensures
        bought(ops).len() == 0 ==> without_holding(replay(index, account, ops), account, item)
            == Err::<Seq<EntryView>, LedgerError>(LedgerError::NoHoldings),
        without_holding(replay(index, account, ops), account, item) == Err::<
            Seq<EntryView>,
            LedgerError,
        >(
            if position_of(replay(index, account, ops), account) is None {
                LedgerError::NoHoldings
            } else {
                LedgerError::TokenNotOwned
            },
        ),
{
    let last = replay(index, account, ops);
    lemma_account_history(index, account, ops);
    lemma_replay_follows_list(index, account, ops);
    if holdings_of(last, account).contains(item) {
        lemma_subsequence_contains(holdings_of(last, account), bought(ops), item);
    }
    lemma_holdings_after_remove(last, account, item);
    if bought(ops).len() == 0 {
        lemma_burns_make_no_entry(index, account, ops);
    }
}

/// Every holding of a listing belongs to an account of the index.
pub proof fn lemma_listing_accounts(index: Seq<EntryView>, at: int)
    requires
        0 <= at < listing(index).len(),
    ensures
        accounts_of(index).contains(listing(index)[at].account),
    decreases index.len(),
{
    if index.len() > 0 {
        let earlier = index.drop_last();
        if at < listing(earlier).len() {
            lemma_listing_accounts(earlier, at);
            let k = choose|k: int|
                0 <= k < accounts_of(earlier).len() && accounts_of(earlier)[k] == listing(
                    earlier,
                )[at].account;
            assert(accounts_of(index)[k] == listing(index)[at].account);
        } else {
            assert(accounts_of(index)[index.len() - 1] == index.last().account);
        }
    }
}

/// Law: once the last holding of an account is burned, the account has no
/// entry in the index: no listing of any accounts shows a holding of it, and
/// every listing of its own holdings is empty.
pub proof fn lemma_last_burn_clears(
    index: Seq<EntryView>,
    account: Seq<char>,
    item: Seq<char>,
    skip: nat,
    limit: nat,
)
    requires
        distinct_accounts(index),
        holdings_of(index, account) == seq![item],
    ensures
        without_holding(index, account, item) is Ok,
        ({
            let next = without_holding(index, account, item).unwrap();
            let shown = listing(window(next, skip as int, limit as int));
            &&& position_of(next, account) is None
            &&& holdings_of(next, account).len() == 0
            &&& window(holdings_of(next, account), skip as int, limit as int).len() == 0
            &&& forall|i: int| 0 <= i < shown.len() ==> (#[trigger] shown[i]).account != account
        }),
{
    let names = accounts_of(index);
    let held = holdings_of(index, account);
    names.index_of_first_ensures(account);
    assert(held[0] == item);
    held.index_of_first_ensures(item);
    let at = position_of(index, account).unwrap();
    let next = without_holding(index, account, item).unwrap();
    let fewer = accounts_of(next);
    assert forall|j: int| 0 <= j < fewer.len() implies fewer[j] != account by {
        if j == at {
            assert(names[names.len() - 1] != names[at]);
        } else {
            assert(names[j] != names[at]);
        }
    }
    lemma_no_index(fewer, account);
    let shown = window(next, skip as int, limit as int);
    assert forall|i: int| 0 <= i < listing(shown).len() implies (#[trigger] listing(
        shown,
    )[i]).account != account by {
        lemma_listing_accounts(shown, i);
        let k = choose|k: int|
            0 <= k < accounts_of(shown).len() && accounts_of(shown)[k] == listing(shown)[i].account;
        let from = if (skip as int) < next.len() {
            skip as int
        } else {
            next.len() as int
        };
        assert(accounts_of(shown)[k] == fewer[from + k]);
    }
}

/// One call in the history of an account on the ledger: it asks to buy an
/// item with a payment attached, or the privileged account asks to burn the
/// account's holding of an item.
pub enum LedgerOp {
    Buy { item: Seq<char>, attached: u128 },
    Burn { item: Seq<char> },
}

/// The ledger after the calls `ops` for `account`, in order. A call that is
/// refused changes nothing.
pub open spec fn run(state: ContractView, account: Seq<char>, ops: Seq<LedgerOp>) -> ContractView
    decreases ops.len(),
{
    if ops.len() == 0 {
        state
    } else {
        let before = run(state, account, ops.drop_last());
        match ops.last() {
            LedgerOp::Buy { item, attached } => match buy_spec(before, account, item, attached) {
                Ok(done) => done.0,
                Err(_) => before,
            },
            LedgerOp::Burn { item } => match burn_spec(before, before.owner, account, item) {
                Ok(done) => done.0,
                Err(_) => before,
            },
        }
    }
}

/// The steps that the calls `ops` come to, given the catalog: a purchase
/// counts if the catalog holds the item and the payment covers its price.
pub open spec fn carried_out(catalog: Map<Seq<char>, ItemView>, ops: Seq<LedgerOp>) -> Seq<
    HoldingOp,
>
    decreases ops.len(),
{
    if ops.len() == 0 {
        Seq::<HoldingOp>::empty()
    } else {
        let before = carried_out(catalog, ops.drop_last());
        match ops.last() {
            LedgerOp::Buy { item, attached } => if catalog.contains_key(item) && attached
                >= catalog[item].price {
                before.push(HoldingOp::Buy(item))
            } else {
                before
            },
            LedgerOp::Burn { item } => before.push(HoldingOp::Burn(item)),
        }
    }
}

/// Law: purchases and burns change nothing of the ledger but its ownership
/// index, and the index as the steps they come to change it.
pub proof fn lemma_run_is_replay(state: ContractView, account: Seq<char>, ops: Seq<LedgerOp>)
    ensures
        run(state, account, ops) == (ContractView {
            tokens_per_owner: replay(
                state.tokens_per_owner,
                account,
                carried_out(state.tokens, ops),
            ),
            ..state
        }),
    decreases ops.len(),
{
    if ops.len() > 0 {
        let earlier = ops.drop_last();
        lemma_run_is_replay(state, account, earlier);
        let steps = carried_out(state.tokens, earlier);
        match ops.last() {
            LedgerOp::Buy { item, attached } => {
                if state.tokens.contains_key(item) && attached >= state.tokens[item].price {
                    assert(steps.push(HoldingOp::Buy(item)).drop_last() =~= steps);
                }
            },
            LedgerOp::Burn { item } => {
                assert(steps.push(HoldingOp::Burn(item)).drop_last() =~= steps);
            },
        }
    }
}

/// Law: for every history of purchases and burns on a well-formed ledger by
/// an account that starts without holdings, where the items that change
/// hands have clean identifiers, the account's final holdings are, as a
/// multiset, the items bought less the items burned, and they stand in the
/// order in which they were bought.
pub proof fn lemma_ledger_history(state: ContractView, account: Seq<char>, ops: Seq<LedgerOp>)
    requires
        distinct_accounts(state.tokens_per_owner),
        holdings_of(state.tokens_per_owner, account).len() == 0,
        clean_ops(carried_out(state.tokens, ops)),
    ensures
        holdings_of(run(state, account, ops).tokens_per_owner, account).to_multiset() == balance(
            carried_out(state.tokens, ops),
        ),
        is_subsequence(
            holdings_of(run(state, account, ops).tokens_per_owner, account),
            bought(carried_out(state.tokens, ops)),
        ),
        distinct_accounts(run(state, account, ops).tokens_per_owner),
{
    lemma_run_is_replay(state, account, ops);
    lemma_account_history(state.tokens_per_owner, account, carried_out(state.tokens, ops));
    lemma_replay_follows_list(state.tokens_per_owner, account, carried_out(state.tokens, ops));
}

/// Law: the token record that a listing shows for a holding of a valid
/// account is the one that the holding's identifier resolves to.
pub proof fn lemma_resolve_of_holding(state: ContractView, account: Seq<char>, item: Seq<char>)
    requires
        valid_account_id(account),
    ensures
        resolve_spec(state, holding_id(account, item)) == Ok::<Option<TokenView>, LedgerError>(
            if state.tokens.contains_key(item) {
                Some(token_of(HoldingView { account, token_id: item }, state.tokens[item]))
            } else {
                None
            },
        ),
{
    lemma_decode_of_encode(account, item);
}

} // verus!
