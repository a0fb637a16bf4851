use soulbound_market::accountant::{Settlement, BYTE_UNIT_COST};
use soulbound_market::catalog::{SimpleNonFungibleToken, SongCreation};
use soulbound_market::contract::{Contract, DATA_ICON_SVG, DEFAULT_LIMIT};
use soulbound_market::error::LedgerError;
use soulbound_market::metadata::{NFTContractMetadata, Token, TokenMetadata};
use soulbound_market::receipt::{EventKind, OwnershipEvent, Receipt, Transfer};

const OWNER: &str = "market.near";

fn song(token_id: &str, price: u128) -> SongCreation {
    SongCreation {
        token_id: token_id.to_string(),
        name: format!("name of {}", token_id),
        description: format!("about {}", token_id),
        extra: None,
        price,
    }
}

fn shown(token_id: &str) -> TokenMetadata {
    TokenMetadata {
        title: Some(format!("name of {}", token_id)),
        description: Some(format!("about {}", token_id)),
        media: Some(format!("song/{}/media", token_id)),
        media_hash: None,
        copies: None,
        issued_at: None,
        expires_at: None,
        starts_at: None,
        updated_at: None,
        extra: None,
        reference: None,
        reference_hash: None,
    }
}

fn token(account: &str, token_id: &str) -> Token {
    Token {
        token_id: format!("{}:{}", account, token_id),
        owner_id: account.to_string(),
        metadata: Some(shown(token_id)),
        approved_account_ids: None,
    }
}

fn event(kind: EventKind, account: &str, token_id: &str) -> OwnershipEvent {
    OwnershipEvent {
        kind,
        owner_id: account.to_string(),
        token_id: format!("{}:{}", account, token_id),
    }
}

fn market() -> Contract {
    let mut contract = Contract::new_default_meta(OWNER);
    contract.mint_nft("alice", song("song-1", 100));
    contract.mint_nft("alice", song("song-2", 250));
    contract
}

#[test]
fn default_metadata_names_the_collection() {
    let contract = Contract::new_default_meta(OWNER);
    assert_eq!(
        contract.nft_metadata(),
        NFTContractMetadata {
            spec: "nft-1.0.0".to_string(),
            name: "Raidar".to_string(),
            symbol: "RAIDR".to_string(),
            icon: Some(DATA_ICON_SVG.to_string()),
            base_uri: Some("https://raidar.us/api/v1".to_string()),
            reference: None,
            reference_hash: None,
        }
    );
    assert!(contract.nft_metadata().is_valid());
    assert!(DATA_ICON_SVG.starts_with("data:image/png;base64,iVBORw0KGgo"));
    assert!(DATA_ICON_SVG.ends_with("AAAAAElFTkSuQmCC"));
    assert_eq!(DATA_ICON_SVG.len(), 1346);
    assert_eq!(DEFAULT_LIMIT, 50);
}

#[test]
fn new_keeps_the_metadata_given() {
    let metadata = NFTContractMetadata {
        spec: "nft-1.0.0".to_string(),
        name: "Mosaics".to_string(),
        symbol: "MOSAIC".to_string(),
        icon: None,
        base_uri: None,
        reference: Some("https://x/y.json".to_string()),
        reference_hash: Some(vec![3u8; 32]),
    };
    assert!(metadata.is_valid());
    let contract = Contract::new(metadata.clone(), OWNER);
    assert_eq!(contract.nft_metadata(), metadata);
    assert_eq!(contract.nft_total_supply(), 0);
    assert_eq!(contract.get_whitelist(), Vec::<String>::new());
}

#[test]
fn mint_makes_the_caller_creator_and_no_holding() {
    let mut contract = Contract::new_default_meta(OWNER);
    let item = contract.mint_nft("alice", song("song-1", 100));
    assert_eq!(
        item,
        SimpleNonFungibleToken {
            token_id: "song-1".to_string(),
            name: "name of song-1".to_string(),
            description: "about song-1".to_string(),
            extra: None,
            price: 100,
            creator: "alice".to_string(),
        }
    );
    assert_eq!(contract.nft_total_supply(), 0);
    assert_eq!(contract.internal_as_nft_metadata("song-1"), Some(shown("song-1")));
    assert_eq!(contract.refund_deposit(0, 0, 0).map(|s| s.refund), Ok(0));
}

#[test]
fn mint_again_overwrites_the_item() {
    let mut contract = market();
    contract.mint_nft("carol", song("song-1", 5));
    let receipt = contract.buy_nft("bob", "song-1", 5).unwrap();
    assert_eq!(
        receipt.payment,
        Some(Transfer { receiver_id: "carol".to_string(), amount: 5 })
    );
}

#[test]
fn buy_pays_refunds_and_burn_clears() {
    let mut contract = Contract::new_default_meta(OWNER);
    contract.mint_nft("alice", song("song-1", 100));
    let receipt = contract.buy_nft("bob", "song-1", 150);
    assert_eq!(
        receipt,
        Ok(Receipt {
            metadata: shown("song-1"),
            payment: Some(Transfer { receiver_id: "alice".to_string(), amount: 100 }),
            event: event(EventKind::Mint, "bob", "song-1"),
        })
    );
    assert_eq!(
        contract.refund_deposit(0, 100, 150),
        Ok(Settlement { required: 0, refund: 50, paid_out: true })
    );
    assert_eq!(
        contract.refund_deposit(2, 100, 150 + 2 * BYTE_UNIT_COST),
        Ok(Settlement { required: 2 * BYTE_UNIT_COST, refund: 50, paid_out: true })
    );
    assert_eq!(
        contract.nft_tokens_for_owner("bob", Some(0), Some(50)),
        Ok(vec![token("bob", "song-1")])
    );
    assert_eq!(
        contract.burn_nft(OWNER, "bob", "song-1"),
        Ok(event(EventKind::Burn, "bob", "song-1"))
    );
    assert_eq!(contract.nft_tokens_for_owner("bob", Some(0), Some(50)), Ok(vec![]));
    assert_eq!(contract.nft_tokens(None, None), Vec::<Token>::new());
    assert_eq!(contract.nft_supply_for_owner("bob"), 0);
}

#[test]
fn buy_of_unknown_item_fails() {
    let mut contract = market();
    assert_eq!(contract.buy_nft("bob", "unknown-item", 1_000), Err(LedgerError::ItemNotFound));
    assert_eq!(contract.nft_total_supply(), 0);
    assert_eq!(contract.nft_tokens(None, None), Vec::<Token>::new());
}

#[test]
fn buy_below_price_fails_and_changes_nothing() {
    let mut contract = market();
    contract.buy_nft("bob", "song-2", 250).unwrap();
    assert_eq!(
        contract.buy_nft("bob", "song-1", 99),
        Err(LedgerError::InsufficientDeposit(100))
    );
    assert_eq!(
        contract.buy_nft("carol", "song-1", 0),
        Err(LedgerError::InsufficientDeposit(100))
    );
    assert_eq!(contract.nft_total_supply(), 1);
    assert_eq!(contract.nft_tokens(None, None), vec![token("bob", "song-2")]);
    assert_eq!(contract.nft_supply_for_owner("carol"), 0);
}

#[test]
fn buy_at_exact_price_succeeds() {
    let mut contract = market();
    assert!(contract.buy_nft("bob", "song-1", 100).is_ok());
    assert_eq!(
        contract.refund_deposit(0, 100, 100),
        Ok(Settlement { required: 0, refund: 0, paid_out: false })
    );
    assert_eq!(
        contract.refund_deposit(1, 100, 100),
        Err(LedgerError::InsufficientDeposit(BYTE_UNIT_COST))
    );
}

#[test]
fn total_supply_of_two_accounts_with_two_items_each() {
    let mut contract = market();
    contract.buy_nft("bob", "song-1", 100).unwrap();
    contract.buy_nft("bob", "song-2", 250).unwrap();
    contract.buy_nft("carol", "song-2", 250).unwrap();
    contract.buy_nft("carol", "song-1", 100).unwrap();
    assert_eq!(contract.nft_total_supply(), 4);
    assert_eq!(contract.nft_tokens(Some(1), Some(1)).len(), 2);
    assert_eq!(contract.nft_tokens_for_owner("bob", Some(1), Some(1)).map(|t| t.len()), Ok(1));
    assert_eq!(contract.nft_total_supply(), 4);
    assert_eq!(contract.nft_supply_for_owner("bob"), 2);
    assert_eq!(contract.nft_supply_for_owner("carol"), 2);
}

#[test]
fn buy_for_user_needs_the_owner() {
    let mut contract = market();
    assert_eq!(
        contract.buy_for_user("bob", "song-1", "bob"),
        Err(LedgerError::Unauthorized)
    );
    assert_eq!(
        contract.buy_for_user("bob", "unknown-item", "bob"),
        Err(LedgerError::Unauthorized)
    );
    assert_eq!(contract.nft_total_supply(), 0);
}

#[test]
fn buy_for_user_gives_a_holding_without_payment() {
    let mut contract = market();
    assert_eq!(
        contract.buy_for_user(OWNER, "song-2", "bob"),
        Ok(Receipt {
            metadata: shown("song-2"),
            payment: None,
            event: event(EventKind::Mint, "bob", "song-2"),
        })
    );
    assert_eq!(
        contract.buy_for_user(OWNER, "unknown-item", "bob"),
        Err(LedgerError::ItemNotFound)
    );
    assert_eq!(contract.nft_tokens(None, None), vec![token("bob", "song-2")]);
}

#[test]
fn burn_needs_the_owner() {
    let mut contract = market();
    contract.buy_nft("bob", "song-1", 100).unwrap();
    assert_eq!(contract.burn_nft("bob", "bob", "song-1"), Err(LedgerError::Unauthorized));
    assert_eq!(contract.nft_supply_for_owner("bob"), 1);
}

#[test]
fn burn_without_holdings_fails() {
    let mut contract = market();
    assert_eq!(contract.burn_nft(OWNER, "bob", "song-1"), Err(LedgerError::NoHoldings));
}

#[test]
fn burn_of_item_never_bought_fails() {
    let mut contract = market();
    contract.buy_nft("bob", "song-1", 100).unwrap();
    assert_eq!(contract.burn_nft(OWNER, "bob", "song-2"), Err(LedgerError::TokenNotOwned));
    assert_eq!(contract.nft_supply_for_owner("bob"), 1);
}

#[test]
fn holdings_follow_buys_and_burns_in_order() {
    let mut contract = market();
    contract.mint_nft("alice", song("song-3", 1));
    contract.buy_nft("bob", "song-2", 250).unwrap();
    contract.buy_nft("bob", "song-1", 100).unwrap();
    contract.buy_nft("bob", "song-3", 1).unwrap();
    contract.burn_nft(OWNER, "bob", "song-1").unwrap();
    contract.buy_nft("bob", "song-1", 100).unwrap();
    assert_eq!(
        contract.nft_tokens_for_owner("bob", None, None),
        Ok(vec![token("bob", "song-2"), token("bob", "song-3"), token("bob", "song-1")])
    );
}

#[test]
fn repeated_buy_is_recorded_twice() {
    let mut contract = market();
    contract.buy_nft("bob", "song-1", 100).unwrap();
    contract.buy_nft("bob", "song-1", 100).unwrap();
    assert_eq!(contract.nft_supply_for_owner("bob"), 2);
    contract.burn_nft(OWNER, "bob", "song-1").unwrap();
    assert_eq!(contract.nft_supply_for_owner("bob"), 1);
}

#[test]
fn token_metadata_of_a_holding_id() {
    let contract = market();
    assert_eq!(contract.nft_token_metadata("bob:song-1"), Ok(shown("song-1")));
    assert_eq!(contract.nft_token_metadata("bob:nothing"), Err(LedgerError::ItemNotFound));
    assert_eq!(contract.nft_token_metadata("song-1"), Err(LedgerError::MalformedHoldingId));
    assert_eq!(contract.nft_token_metadata("Bob:song-1"), Err(LedgerError::InvalidAccount));
}

#[test]
fn token_of_a_holding_id() {
    let contract = market();
    assert_eq!(contract.nft_token("bob:song-1"), Ok(Some(token("bob", "song-1"))));
    assert_eq!(contract.nft_token("bob:nothing"), Ok(None));
    assert_eq!(contract.nft_token("song-1"), Err(LedgerError::MalformedHoldingId));
    assert_eq!(contract.nft_token("b:song-1"), Err(LedgerError::InvalidAccount));
}

#[test]
fn transfers_are_refused() {
    let mut contract = market();
    contract.buy_nft("bob", "song-1", 100).unwrap();
    assert_eq!(
        contract.nft_transfer("carol", "bob:song-1", None, None),
        Err(LedgerError::UnsupportedOperation)
    );
    assert_eq!(
        contract.nft_transfer_call("carol", "bob:song-1", Some(1), None, "msg".to_string()),
        Err(LedgerError::UnsupportedOperation)
    );
    assert_eq!(
        contract.nft_resolve_transfer("bob", "carol", "bob:song-1", None),
        Err(LedgerError::UnsupportedOperation)
    );
    assert_eq!(contract.nft_tokens(None, None), vec![token("bob", "song-1")]);
}

#[test]
fn listing_visits_whole_accounts() {
    let mut contract = market();
    contract.buy_nft("bob", "song-1", 100).unwrap();
    contract.buy_nft("bob", "song-2", 250).unwrap();
    contract.buy_nft("carol", "song-1", 100).unwrap();
    assert_eq!(
        contract.nft_tokens(Some(0), Some(1)),
        vec![token("bob", "song-1"), token("bob", "song-2")]
    );
    assert_eq!(contract.nft_tokens(Some(1), None), vec![token("carol", "song-1")]);
    assert_eq!(contract.nft_tokens(Some(2), None), Vec::<Token>::new());
    assert_eq!(contract.nft_tokens(None, Some(0)), Vec::<Token>::new());
}

#[test]
fn listing_for_owner_slices_by_holding() {
    let mut contract = market();
    contract.buy_nft("bob", "song-1", 100).unwrap();
    contract.buy_nft("bob", "song-2", 250).unwrap();
    assert_eq!(
        contract.nft_tokens_for_owner("bob", Some(1), Some(5)),
        Ok(vec![token("bob", "song-2")])
    );
    assert_eq!(
        contract.nft_tokens_for_owner("bob", None, Some(1)),
        Ok(vec![token("bob", "song-1")])
    );
    assert_eq!(contract.nft_tokens_for_owner("alice", None, None), Ok(vec![]));
}

#[test]
fn listing_with_an_item_that_splits() {
    let mut contract = market();
    contract.mint_nft("alice", song("song-1:b", 1));
    contract.buy_nft("bob", "song-1:b", 1).unwrap();
    assert_eq!(contract.nft_supply_for_owner("bob"), 2);
    assert_eq!(contract.nft_tokens(None, None), vec![token("bob", "song-1")]);
    assert_eq!(
        contract.nft_tokens_for_owner("bob", None, None),
        Err(LedgerError::ItemNotFound)
    );
    assert_eq!(
        contract.nft_tokens_for_owner("bob", None, Some(1)),
        Ok(vec![token("bob", "song-1")])
    );
}

#[test]
fn whitelist_is_the_owners() {
    let mut contract = market();
    assert_eq!(
        contract.add_whitelisted_creator("bob", "alice"),
        Err(LedgerError::Unauthorized)
    );
    assert_eq!(contract.get_whitelist(), Vec::<String>::new());
    assert_eq!(contract.add_whitelisted_creator(OWNER, "alice"), Ok(()));
    assert_eq!(contract.add_whitelisted_creator(OWNER, "bob"), Ok(()));
    assert_eq!(contract.add_whitelisted_creator(OWNER, "carol"), Ok(()));
    assert_eq!(contract.add_whitelisted_creator(OWNER, "alice"), Ok(()));
    assert_eq!(contract.get_whitelist(), vec!["alice", "bob", "carol"]);
    assert_eq!(
        contract.remove_whitelisted_creator("bob", "alice"),
        Err(LedgerError::Unauthorized)
    );
    assert_eq!(contract.remove_whitelisted_creator(OWNER, "alice"), Ok(()));
    assert_eq!(contract.get_whitelist(), vec!["carol", "bob"]);
    assert_eq!(contract.remove_whitelisted_creator(OWNER, "dave"), Ok(()));
    assert_eq!(contract.get_whitelist(), vec!["carol", "bob"]);
}

#[test]
fn base_url_and_icon_are_the_owners() {
    let mut contract = market();
    assert_eq!(
        contract.update_base_url("bob", "https://x".to_string()),
        Err(LedgerError::Unauthorized)
    );
    assert_eq!(contract.update_icon("bob", "<svg/>".to_string()), Err(LedgerError::Unauthorized));
    let updated = contract.update_base_url(OWNER, "https://x".to_string()).unwrap();
    assert_eq!(updated.base_uri, Some("https://x".to_string()));
    assert_eq!(updated.icon, Some(DATA_ICON_SVG.to_string()));
    let updated = contract.update_icon(OWNER, "<svg/>".to_string()).unwrap();
    assert_eq!(updated, contract.nft_metadata());
    assert_eq!(
        updated,
        NFTContractMetadata {
            spec: "nft-1.0.0".to_string(),
            name: "Raidar".to_string(),
            symbol: "RAIDR".to_string(),
            icon: Some("<svg/>".to_string()),
            base_uri: Some("https://x".to_string()),
            reference: None,
            reference_hash: None,
        }
    );
}

#[test]
fn update_drops_the_reference() {
    let metadata = NFTContractMetadata {
        spec: "nft-1.0.0".to_string(),
        name: "Mosaics".to_string(),
        symbol: "MOSAIC".to_string(),
        icon: None,
        base_uri: None,
        reference: Some("https://x/y.json".to_string()),
        reference_hash: Some(vec![3u8; 32]),
    };
    let mut contract = Contract::new(metadata, OWNER);
    let updated = contract.update_icon(OWNER, "i".to_string()).unwrap();
    assert_eq!(updated.reference, None);
    assert_eq!(updated.reference_hash, None);
    assert_eq!(updated.name, "Mosaics");
    assert_eq!(updated.base_uri, None);
}
