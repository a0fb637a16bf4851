use soulbound_market::error::LedgerError;
use soulbound_market::index::{Holding, OwnershipIndex};

fn strings(items: &[&str]) -> Vec<String> {
    items.iter().map(|s| s.to_string()).collect()
}

fn holding(account: &str, token_id: &str) -> Holding {
    Holding { account: account.to_string(), token_id: token_id.to_string() }
}

#[test]
fn new_index_is_empty() {
    let index = OwnershipIndex::new();
    assert_eq!(index.account_count(), 0);
    assert_eq!(index.total_count(), 0);
    assert_eq!(index.holdings_of("bob"), Vec::<String>::new());
    assert_eq!(index.paginate(0, 50), Vec::<Holding>::new());
}

#[test]
fn holdings_keep_insertion_order() {
    let mut index = OwnershipIndex::new();
    index.add("bob", "c");
    index.add("bob", "a");
    index.add("bob", "b");
    assert_eq!(index.holdings_of("bob"), strings(&["c", "a", "b"]));
    assert_eq!(index.account_count(), 1);
}

#[test]
fn adding_twice_records_twice() {
    let mut index = OwnershipIndex::new();
    index.add("bob", "a");
    index.add("bob", "a");
    assert_eq!(index.holdings_of("bob"), strings(&["a", "a"]));
    assert_eq!(index.total_count(), 2);
}

#[test]
fn remove_from_unknown_account_fails() {
    let mut index = OwnershipIndex::new();
    index.add("alice", "a");
    assert_eq!(index.remove("bob", "a"), Err(LedgerError::NoHoldings));
    assert_eq!(index.holdings_of("alice"), strings(&["a"]));
}

#[test]
fn remove_of_item_not_held_fails() {
    let mut index = OwnershipIndex::new();
    index.add("bob", "a");
    assert_eq!(index.remove("bob", "b"), Err(LedgerError::TokenNotOwned));
    assert_eq!(index.holdings_of("bob"), strings(&["a"]));
}

#[test]
fn remove_takes_the_first_match_only() {
    let mut index = OwnershipIndex::new();
    index.add("bob", "a");
    index.add("bob", "b");
    index.add("bob", "a");
    assert_eq!(index.remove("bob", "a"), Ok(()));
    assert_eq!(index.holdings_of("bob"), strings(&["b", "a"]));
}

#[test]
fn removing_the_last_holding_removes_the_account() {
    let mut index = OwnershipIndex::new();
    index.add("bob", "a");
    assert_eq!(index.remove("bob", "a"), Ok(()));
    assert_eq!(index.account_count(), 0);
    assert_eq!(index.holdings_of("bob"), Vec::<String>::new());
    assert_eq!(index.paginate_for_account("bob", 0, 50), Vec::<String>::new());
    assert_eq!(index.paginate(0, 50), Vec::<Holding>::new());
    assert_eq!(index.remove("bob", "a"), Err(LedgerError::NoHoldings));
}

#[test]
fn removed_account_gives_its_place_to_the_last() {
    let mut index = OwnershipIndex::new();
    index.add("alice", "a");
    index.add("bob", "b");
    index.add("carol", "c");
    assert_eq!(index.remove("alice", "a"), Ok(()));
    assert_eq!(index.paginate(0, 50), vec![holding("carol", "c"), holding("bob", "b")]);
}

#[test]
fn history_of_one_account() {
    let mut index = OwnershipIndex::new();
    index.add("bob", "a");
    index.add("bob", "b");
    index.add("bob", "c");
    assert_eq!(index.remove("bob", "b"), Ok(()));
    index.add("bob", "d");
    assert_eq!(index.remove("bob", "x"), Err(LedgerError::TokenNotOwned));
    assert_eq!(index.remove("bob", "a"), Ok(()));
    index.add("bob", "b");
    assert_eq!(index.holdings_of("bob"), strings(&["c", "d", "b"]));
}

#[test]
fn total_counts_all_accounts() {
    let mut index = OwnershipIndex::new();
    index.add("alice", "a");
    index.add("alice", "b");
    index.add("bob", "a");
    index.add("bob", "c");
    assert_eq!(index.total_count(), 4);
    let _ = index.paginate(1, 1);
    let _ = index.paginate_for_account("bob", 1, 1);
    assert_eq!(index.total_count(), 4);
}

#[test]
fn paginate_skips_and_takes_whole_accounts() {
    let mut index = OwnershipIndex::new();
    index.add("alice", "a");
    index.add("alice", "b");
    index.add("bob", "c");
    index.add("carol", "d");
    index.add("carol", "e");
    assert_eq!(
        index.paginate(0, 1),
        vec![holding("alice", "a"), holding("alice", "b")]
    );
    assert_eq!(
        index.paginate(1, 2),
        vec![holding("bob", "c"), holding("carol", "d"), holding("carol", "e")]
    );
    assert_eq!(index.paginate(2, 50), vec![holding("carol", "d"), holding("carol", "e")]);
    assert_eq!(index.paginate(3, 50), Vec::<Holding>::new());
    assert_eq!(index.paginate(u128::MAX, u64::MAX), Vec::<Holding>::new());
    assert_eq!(index.paginate(0, 0), Vec::<Holding>::new());
    assert_eq!(index.paginate(0, u64::MAX).len(), 5);
}

#[test]
fn paginate_for_account_slices_by_holding() {
    let mut index = OwnershipIndex::new();
    for id in ["a", "b", "c", "d"] {
        index.add("bob", id);
    }
    assert_eq!(index.paginate_for_account("bob", 0, 50), strings(&["a", "b", "c", "d"]));
    assert_eq!(index.paginate_for_account("bob", 1, 2), strings(&["b", "c"]));
    assert_eq!(index.paginate_for_account("bob", 3, 5), strings(&["d"]));
    assert_eq!(index.paginate_for_account("bob", 4, 5), Vec::<String>::new());
    assert_eq!(index.paginate_for_account("bob", 9, 5), Vec::<String>::new());
    assert_eq!(index.paginate_for_account("bob", 0, 0), Vec::<String>::new());
    assert_eq!(index.paginate_for_account("alice", 0, 50), Vec::<String>::new());
}

#[test]
fn item_with_delimiter_is_stored_as_two() {
    let mut index = OwnershipIndex::new();
    index.add("bob", "a:b");
    assert_eq!(index.holdings_of("bob"), strings(&["a", "b"]));
    assert_eq!(index.remove("bob", "a:b"), Err(LedgerError::TokenNotOwned));
}
