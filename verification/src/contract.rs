//! The ledger: the catalog, the ownership index, the collection's metadata,
//! the creators' whitelist and the privileged account, and the operations
//! that the host calls on them. An operation takes what the host knows of the
//! call (who calls, what payment is attached) as plain values and hands back
//! what the host is to do (payments, events); storage rent is settled by a
//! call of its own, once the host has measured what the operation stored.

use vstd::prelude::*;
use crate::accountant::{settle, settle_spec, Settlement};
use crate::catalog::{minted_item, Catalog, ItemView, SimpleNonFungibleToken, SongCreation};
use crate::codec::{decode_holding_id, decode_spec, encode_holding_id, holding_id};
use crate::error::LedgerError;
use crate::index::{
    count_in, holding_views, holdings_of, lemma_with_holding_distinct, lemma_without_holding_distinct, listing,
    window, with_holding, without_holding, distinct_accounts, EntryView, HoldingView,
    OwnershipIndex,
};
use crate::metadata::{
    item_metadata, metadata_of, metadata_spec_name, nft_metadata_spec, token_views,
    valid_metadata, ContractMetadataView, NFTContractMetadata, Token, TokenMetadata, TokenView,
};
use crate::receipt::{
    event_for, EventKind, EventView, OwnershipEvent, Receipt, ReceiptView, Transfer, TransferView,
};
use crate::text::{find_text, lemma_views_push, same_text, views};

verus! {

/// The icon of the collection that `new_default_meta` sets.
pub const DATA_ICON_SVG: &'static str = "data:image/png;base64,iVBORw0KGgoAAAANSUhEUgAAAGcAAABnCAMAAAAqn6zLAAABmFBMVEXuJDzuJDz///\
    /92t/uKD/6wsnuJDzuK0PwQFX1iZXuJDzuJT3uJj7uJz7uJz/uKUHuKkHvK0LvLEPvLUTvLkXvMUfvMkjvM0nvM0\
    rvNEvvN03wOU7wOU/wOlDwO1HwPVLwPlPwP1TwQ1jxRVrxRlvxSV3xSl7xS17xTF/xTGDxTmHxT2LxUGPyUmXyVW\
    jyV2nyW23zXnDzX3HzYXLzYnPzZHXzZXbzaHjzanv0cH/0dIP1fIr1fIv1foz1f431gI71g5H2hpP2iJX2ipf2jp\
    r2jpv2kJz2kZ33kp73laD3laH3mqX3m6b3nKf3naj4oKr4oaz4p7H5rLX5rrf5r7j5sLn5sbn5s7v5tb35tr75uM\
    D6u8P6v8b6wsn6w8n6xMr6xcv7x837yc/7y9H70NX70db809j81tr819v819z82d382t7829/83eD83uL93+P94O\
    P94eT94uX95Of95+r96Or96ev96uz+7O7+7e/+7/D+8fP+8/T+9PX+9fb+9vf+9/j/+fr/+vr//Pz//P3//f3//v\
    7///+AcWUyAAAACnRSTlPH3d3f4eHl5evvxwPreAAAAAFiS0dEh/vZC8sAAAHhSURBVGje7dpVU8NAFAXg4nBL0e\
    JOseLBCe4UK1DcHYq7O4T92zxQIClJyszuFpl7Xvfcfg/7kLszNfgo4h9ClAn2YRKDAZRpdHPigUkC0UEHHXTQQQ\
    cddNBBB53f4aQ2jK+vLXbmcHXM4vzzW0UaS+LlhJYM3chKR1lcnLz+U7fWcRxzJ6XVSb5mjNZJUJxGi3PPRC1SOq\
    WT/XlkKhu5JVppp3Rs7we5fSdEJxOUzkM5AEByywbRzwqlQ6SpplaNS5Fni9b5ZtBB588718Ol5lXejrQgmgFggK\
    +z1eb6ePJ0Tu0FH0Vuzv1kVZisyMeRluvMyiIPZ7sr48skc+fMXqI2ydhZqjCpTzJ28rUmGTvZ6PxNZ9g7TtiBd5\
    xu4g0nc5Twd2LFhRfC2zEJjjse+4HSKbSfc9pDZE5a2y6/fefdiVG7FNaO1qUwdKwARYMX/PfE2Z4d3K/R+Wlnv9\
    PJ37lyCEZYonPqPSGP0zURAEDrVHt6/iS6ipSOVQc5slk+i5SO8VDrTeoQjPIipQMdasjTTG2UW4/WidzUfpOydM\
    B6qfiBk171lYfaAcvex/StQwjVmKR3ILx5nxBC7ufEaO1JBg4AZAiVxeG6k2wcz0EHHXTQ+a9OgK8ifkH6/7d8Be\
    Lgry/RqHfGAAAAAElFTkSuQmCC";

/// The number of accounts, or of holdings, that a listing visits when the
/// caller names no limit.
pub const DEFAULT_LIMIT: u64 = 50;

/// The ledger as plain values.
pub struct ContractView {
    pub tokens: Map<Seq<char>, ItemView>,
    pub metadata: ContractMetadataView,
    pub tokens_per_owner: Seq<EntryView>,
    pub whitelisted_creators: Seq<Seq<char>>,
    pub owner: Seq<char>,
}

/// The ledger.
pub struct Contract {
    pub tokens: Catalog,
    pub metadata: NFTContractMetadata,
    pub tokens_per_owner: OwnershipIndex,
    pub whitelisted_creators: Vec<String>,
    pub owner: String,
}

impl View for Contract {
    type V = ContractView;

    open spec fn view(&self) -> ContractView {
        ContractView {
            tokens: self.tokens@,
            metadata: self.metadata@,
            tokens_per_owner: self.tokens_per_owner@,
            whitelisted_creators: views(self.whitelisted_creators@),
            owner: self.owner@,
        }
    }
}

/// The metadata of a collection made by `new_default_meta`.
pub open spec fn default_metadata() -> ContractMetadataView {
    ContractMetadataView {
        spec: metadata_spec_name(),
        name: "Raidar"@,
        symbol: "RAIDR"@,
        icon: Some(DATA_ICON_SVG@),
        base_uri: Some("https://raidar.us/api/v1"@),
        reference: None,
        reference_hash: None,
    }
}

/// A fresh ledger with the given metadata and privileged account.
pub open spec fn fresh(metadata: ContractMetadataView, owner: Seq<char>) -> ContractView {
    ContractView {
        tokens: Map::empty(),
        metadata,
        tokens_per_owner: Seq::empty(),
        whitelisted_creators: Seq::empty(),
        owner,
    }
}

/// The whitelist after `creator` is put on it: a creator stands on it once.
pub open spec fn with_creator(list: Seq<Seq<char>>, creator: Seq<char>) -> Seq<Seq<char>> {
    if list.contains(creator) {
        list
    } else {
        list.push(creator)
    }
}

/// The whitelist after `creator` is taken off it: the last creator takes the
/// place of the one that leaves.
pub open spec fn without_creator(list: Seq<Seq<char>>, creator: Seq<char>) -> Seq<Seq<char>> {
    match list.index_of_first(creator) {
        Some(at) => list.update(at, list.last()).drop_last(),
        None => list,
    }
}

/// The collection's metadata after an update: name, symbol and the part
/// that the update leaves alone are kept, the standard is named afresh, and
/// no reference remains.
pub open spec fn updated_metadata(
    old: ContractMetadataView,
    icon: Option<Seq<char>>,
    base_uri: Option<Seq<char>>,
) -> ContractMetadataView {
    ContractMetadataView {
        spec: metadata_spec_name(),
        name: old.name,
        symbol: old.symbol,
        icon,
        base_uri,
        reference: None,
        reference_hash: None,
    }
}

/// What a purchase by `receiver` of `item` does to the ledger `state` when
/// `attached` comes with the call: the item must exist and the payment must
/// cover its price; then the price goes to the item's creator and the
/// receiver holds the item.
pub open spec fn buy_spec(
    state: ContractView,
    receiver: Seq<char>,
    item: Seq<char>,
    attached: u128,
) -> Result<(ContractView, ReceiptView), LedgerError> {
    if !state.tokens.contains_key(item) {
        Err(LedgerError::ItemNotFound)
    } else if attached < state.tokens[item].price {
        Err(LedgerError::InsufficientDeposit(state.tokens[item].price))
    } else {
        Ok(
            (
                ContractView {
                    tokens_per_owner: with_holding(state.tokens_per_owner, receiver, item),
                    ..state
                },
                ReceiptView {
                    metadata: metadata_of(state.tokens[item]),
                    payment: Some(
                        TransferView {
                            receiver_id: state.tokens[item].creator,
                            amount: state.tokens[item].price,
                        },
                    ),
                    event: event_for(EventKind::Mint, receiver, item),
                },
            ),
        )
    }
}

/// What the privileged account does to the ledger `state` when it gives
/// `account` a holding of `item`: nothing is paid.
pub open spec fn grant_spec(
    state: ContractView,
    caller: Seq<char>,
    item: Seq<char>,
    account: Seq<char>,
) -> Result<(ContractView, ReceiptView), LedgerError> {
    if caller != state.owner {
        Err(LedgerError::Unauthorized)
    } else if !state.tokens.contains_key(item) {
        Err(LedgerError::ItemNotFound)
    } else {
        Ok(
            (
                ContractView {
                    tokens_per_owner: with_holding(state.tokens_per_owner, account, item),
                    ..state
                },
                ReceiptView {
                    metadata: metadata_of(state.tokens[item]),
                    payment: None,
                    event: event_for(EventKind::Mint, account, item),
                },
            ),
        )
    }
}

/// What the privileged account does to the ledger `state` when it burns the
/// holding of `item` by `account`.
pub open spec fn burn_spec(
    state: ContractView,
    caller: Seq<char>,
    account: Seq<char>,
    item: Seq<char>,
) -> Result<(ContractView, EventView), LedgerError> {
    if caller != state.owner {
        Err(LedgerError::Unauthorized)
    } else {
        match without_holding(state.tokens_per_owner, account, item) {
            Err(e) => Err(e),
            Ok(index) => Ok(
                (
                    ContractView { tokens_per_owner: index, ..state },
                    event_for(EventKind::Burn, account, item),
                ),
            ),
        }
    }
}

/// The token record of `holding`, whose item is `item`.
pub open spec fn token_of(holding: HoldingView, item: ItemView) -> TokenView {
    TokenView {
        token_id: holding_id(holding.account, holding.token_id),
        owner_id: holding.account,
        metadata: Some(metadata_of(item)),
        has_approvals: false,
    }
}

/// What a holding identifier resolves to in the ledger `state`: the token
/// record of account and item, if the catalog holds the item. Whether the
/// account holds the item is not asked.
pub open spec fn resolve_spec(state: ContractView, id: Seq<char>) -> Result<
    Option<TokenView>,
    LedgerError,
> {
    match decode_spec(id) {
        Err(e) => Err(e),
        Ok(pair) => if state.tokens.contains_key(pair.1) {
            Ok(
                Some(
                    TokenView {
                        token_id: id,
                        owner_id: pair.0,
                        metadata: Some(metadata_of(state.tokens[pair.1])),
                        has_approvals: false,
                    },
                ),
            )
        } else {
            Ok(None)
        },
    }
}

/// The token records of those of `holdings` whose item the catalog holds,
/// in order.
pub open spec fn tokens_known(
    holdings: Seq<HoldingView>,
    catalog: Map<Seq<char>, ItemView>,
) -> Seq<TokenView>
    decreases holdings.len(),
{
    if holdings.len() == 0 {
        Seq::<TokenView>::empty()
    } else {
        let before = tokens_known(holdings.drop_last(), catalog);
        let last = holdings.last();
        if catalog.contains_key(last.token_id) {
            before.push(token_of(last, catalog[last.token_id]))
        } else {
            before
        }
    }
}

/// Whether the catalog holds every item of `ids`.
pub open spec fn all_known(ids: Seq<Seq<char>>, catalog: Map<Seq<char>, ItemView>) -> bool {
    forall|i: int| 0 <= i < ids.len() ==> catalog.contains_key(#[trigger] ids[i])
}

/// The token records of the holdings of `ids` by `account`.
pub open spec fn tokens_held(
    account: Seq<char>,
    ids: Seq<Seq<char>>,
    catalog: Map<Seq<char>, ItemView>,
) -> Seq<TokenView> {
    Seq::new(
        ids.len(),
        |i: int| token_of(HoldingView { account, token_id: ids[i] }, catalog[ids[i]]),
    )
}

/// The number that a listing starts from: zero if the caller names none.
pub open spec fn start_of(from_index: Option<u128>) -> int {
    match from_index {
        Some(n) => n as int,
        None => 0,
    }
}

/// The number that a listing stops after: the default if the caller names
/// none.
pub open spec fn limit_of(limit: Option<u64>) -> int {
    match limit {
        Some(n) => n as int,
        None => DEFAULT_LIMIT as int,
    }
}

impl Contract {
    /// Whether the ledger is well formed: no account has two entries in the
    /// ownership index, and no creator stands twice on the whitelist.
    pub open spec fn wf(&self) -> bool {
        &&& distinct_accounts(self@.tokens_per_owner)
        &&& self@.whitelisted_creators.no_duplicates()
    }

    /// A fresh ledger for the collection "Raidar", with `owner_id` as the
    /// privileged account.
    pub fn new_default_meta(owner_id: &str) -> (contract: Contract)
        ensures
            contract@ == fresh(default_metadata(), owner_id@),
            contract.wf(),
    {
        Self::new(
            NFTContractMetadata {
                spec: nft_metadata_spec(),
                name: "Raidar".to_owned(),
                symbol: "RAIDR".to_owned(),
                icon: Some(DATA_ICON_SVG.to_owned()),
                base_uri: Some("https://raidar.us/api/v1".to_owned()),
                reference: None,
                reference_hash: None,
            },
            owner_id,
        )
    }

    /// A fresh ledger with the given metadata, with `owner_id` as the
    /// privileged account.
    pub fn new(metadata: NFTContractMetadata, owner_id: &str) -> (contract: Contract)
        requires
            valid_metadata(metadata@),
        ensures
            contract@ == fresh(metadata@, owner_id@),
            contract.wf(),
    {
        let contract = Contract {
            tokens: Catalog::new(),
            metadata,
            tokens_per_owner: OwnershipIndex::new(),
            whitelisted_creators: Vec::new(),
            owner: owner_id.to_owned(),
        };
        assert(views(contract.whitelisted_creators@) =~= Seq::<Seq<char>>::empty());
        contract
    }

    /// Whether `caller` is the privileged account.
    fn is_owner(&self, caller: &str) -> (yes: bool)
        ensures
            yes == (caller@ == self@.owner),
    {
        let name = caller.to_owned();
        same_text(&name, &self.owner)
    }

    /// Puts `creator` on the whitelist, for the privileged account only.
    pub fn add_whitelisted_creator(&mut self, caller: &str, creator: &str) -> (r: Result<
        (),
        LedgerError,
    >)
        ensures
            caller@ != old(self)@.owner ==> r == Err::<(), LedgerError>(LedgerError::Unauthorized)
                && final(self)@ == old(self)@,
            caller@ == old(self)@.owner ==> r is Ok && final(self)@ == (ContractView {
                whitelisted_creators: with_creator(old(self)@.whitelisted_creators, creator@),
                ..old(self)@
            }),
            old(self).wf() ==> final(self).wf(),
    {
        if !self.is_owner(caller) {
            return Err(LedgerError::Unauthorized);
        }
        let name = creator.to_owned();
        proof {
            views(self.whitelisted_creators@).index_of_first_ensures(name@);
        }
        if find_text(&self.whitelisted_creators, &name).is_none() {
            proof {
                lemma_views_push(self.whitelisted_creators@, name);
            }
            self.whitelisted_creators.push(name);
        }
        Ok(())
    }

    /// Takes `creator` off the whitelist, for the privileged account only.
    pub fn remove_whitelisted_creator(&mut self, caller: &str, creator: &str) -> (r: Result<
        (),
        LedgerError,
    >)
        ensures
            caller@ != old(self)@.owner ==> r == Err::<(), LedgerError>(LedgerError::Unauthorized)
                && final(self)@ == old(self)@,
            caller@ == old(self)@.owner ==> r is Ok && final(self)@ == (ContractView {
                whitelisted_creators: without_creator(old(self)@.whitelisted_creators, creator@),
                ..old(self)@
            }),
            old(self).wf() ==> final(self).wf(),
    {
        if !self.is_owner(caller) {
            return Err(LedgerError::Unauthorized);
        }
        let name = creator.to_owned();
        let ghost before = views(self.whitelisted_creators@);
        match find_text(&self.whitelisted_creators, &name) {
            Some(at) => {
                self.whitelisted_creators.swap_remove(at);
                assert(views(self.whitelisted_creators@) =~= before.update(
                    at as int,
                    before.last(),
                ).drop_last());
            },
            None => {
                proof {
                    before.index_of_first_ensures(name@);
                }
            },
        }
        Ok(())
    }

    /// The creators on the whitelist.
    pub fn get_whitelist(&self) -> (list: Vec<String>)
        ensures
            views(list@) == self@.whitelisted_creators,
    {
        self.whitelisted_creators.clone()
    }

    /// The metadata of the collection.
    pub fn nft_metadata(&self) -> (metadata: NFTContractMetadata)
        ensures
            metadata@ == self@.metadata,
    {
        self.metadata.clone()
    }

    /// Sets the base address of the collection, for the privileged account
    /// only, and hands back the metadata as it then stands.
    pub fn update_base_url(&mut self, caller: &str, url: String) -> (r: Result<
        NFTContractMetadata,
        LedgerError,
    >)
        ensures
            caller@ != old(self)@.owner ==> (r matches Err(e) && e == LedgerError::Unauthorized
                && final(self)@ == old(self)@),
            caller@ == old(self)@.owner ==> (r matches Ok(metadata) && metadata@
                == final(self)@.metadata && final(self)@ == (ContractView {
                metadata: updated_metadata(
                    old(self)@.metadata,
                    old(self)@.metadata.icon,
                    Some(url@),
                ),
                ..old(self)@
            })),
            old(self).wf() ==> final(self).wf(),
    {
        if !self.is_owner(caller) {
            return Err(LedgerError::Unauthorized);
        }
        self.metadata = NFTContractMetadata {
            spec: nft_metadata_spec(),
            name: self.metadata.name.clone(),
            symbol: self.metadata.symbol.clone(),
            icon: self.metadata.icon.clone(),
            base_uri: Some(url),
            reference: None,
            reference_hash: None,
        };
        Ok(self.metadata.clone())
    }

    /// Sets the icon of the collection, for the privileged account only, and
    /// hands back the metadata as it then stands.
    pub fn update_icon(&mut self, caller: &str, svg_data: String) -> (r: Result<
        NFTContractMetadata,
        LedgerError,
    >)
        ensures
            caller@ != old(self)@.owner ==> (r matches Err(e) && e == LedgerError::Unauthorized
                && final(self)@ == old(self)@),
            caller@ == old(self)@.owner ==> (r matches Ok(metadata) && metadata@
                == final(self)@.metadata && final(self)@ == (ContractView {
                metadata: updated_metadata(
                    old(self)@.metadata,
                    Some(svg_data@),
                    old(self)@.metadata.base_uri,
                ),
                ..old(self)@
            })),
            old(self).wf() ==> final(self).wf(),
    {
        if !self.is_owner(caller) {
            return Err(LedgerError::Unauthorized);
        }
        self.metadata = NFTContractMetadata {
            spec: nft_metadata_spec(),
            name: self.metadata.name.clone(),
            symbol: self.metadata.symbol.clone(),
            icon: Some(svg_data),
            base_uri: self.metadata.base_uri.clone(),
            reference: None,
            reference_hash: None,
        };
        Ok(self.metadata.clone())
    }

    /// Puts the item that `creator` submits into the catalog, in place of any
    /// item of the same identifier. No holding comes of it.
    pub fn mint_nft(&mut self, creator: &str, data: SongCreation) -> (item: SimpleNonFungibleToken)
        ensures
            item@ == minted_item(data@, creator@),
            final(self)@ == (ContractView {
                tokens: old(self)@.tokens.insert(data.token_id@, item@),
                ..old(self)@
            }),
            old(self).wf() ==> final(self).wf(),
    {
        let item = SimpleNonFungibleToken {
            token_id: data.token_id,
            name: data.name,
            description: data.description,
            extra: data.extra,
            price: data.price,
            creator: creator.to_owned(),
        };
        self.tokens.put(item.clone());
        item
    }

    /// Gives `account_id` a holding of `token_id` without payment, for the
    /// privileged account only.
    pub fn buy_for_user(&mut self, caller: &str, token_id: &str, account_id: &str) -> (r: Result<
        Receipt,
        LedgerError,
    >)
        ensures
            match grant_spec(old(self)@, caller@, token_id@, account_id@) {
                Ok(done) => r matches Ok(receipt) && receipt@ == done.1 && final(self)@ == done.0,
                Err(e) => r matches Err(got) && got == e && final(self)@ == old(self)@,
            },
            old(self).wf() ==> final(self).wf(),
    {
        if !self.is_owner(caller) {
            return Err(LedgerError::Unauthorized);
        }
        let item = match self.tokens.get(token_id) {
            Some(item) => item,
            None => {
                return Err(LedgerError::ItemNotFound);
            },
        };
        let metadata = item_metadata(&item);
        proof {
            if self.wf() {
                lemma_with_holding_distinct(self@.tokens_per_owner, account_id@, token_id@);
            }
        }
        self.tokens_per_owner.add(account_id, token_id);
        let event = OwnershipEvent {
            kind: EventKind::Mint,
            owner_id: account_id.to_owned(),
            token_id: encode_holding_id(account_id, token_id),
        };
        Ok(Receipt { metadata, payment: None, event })
    }

    /// Sells `receiver_id` a holding of `token_id` against the payment
    /// `attached_deposit`: the price is to be forwarded to the item's creator.
    pub fn buy_nft(&mut self, receiver_id: &str, token_id: &str, attached_deposit: u128) -> (r:
        Result<Receipt, LedgerError>)
        ensures
            match buy_spec(old(self)@, receiver_id@, token_id@, attached_deposit) {
                Ok(done) => r matches Ok(receipt) && receipt@ == done.1 && final(self)@ == done.0,
                Err(e) => r matches Err(got) && got == e && final(self)@ == old(self)@,
            },
            old(self).wf() ==> final(self).wf(),
    {
        let item = match self.tokens.get(token_id) {
            Some(item) => item,
            None => {
                return Err(LedgerError::ItemNotFound);
            },
        };
        if attached_deposit < item.price {
            return Err(LedgerError::InsufficientDeposit(item.price));
        }
        let metadata = item_metadata(&item);
        proof {
            if self.wf() {
                lemma_with_holding_distinct(self@.tokens_per_owner, receiver_id@, token_id@);
            }
        }
        self.tokens_per_owner.add(receiver_id, token_id);
        let event = OwnershipEvent {
            kind: EventKind::Mint,
            owner_id: receiver_id.to_owned(),
            token_id: encode_holding_id(receiver_id, token_id),
        };
        let payment = Transfer { receiver_id: item.creator, amount: item.price };
        Ok(Receipt { metadata, payment: Some(payment), event })
    }

    /// Burns the holding of `token_id` by `account_id`, for the privileged
    /// account only. Nothing is settled: the storage that a burn sets free is
    /// not paid back.
    pub fn burn_nft(&mut self, caller: &str, account_id: &str, token_id: &str) -> (r: Result<
        OwnershipEvent,
        LedgerError,
    >)
        ensures
            match burn_spec(old(self)@, caller@, account_id@, token_id@) {
                Ok(done) => r matches Ok(event) && event@ == done.1 && final(self)@ == done.0,
                Err(e) => r matches Err(got) && got == e && final(self)@ == old(self)@,
            },
            old(self).wf() ==> final(self).wf(),
    {
        if !self.is_owner(caller) {
            return Err(LedgerError::Unauthorized);
        }
        proof {
            if self.wf() {
                lemma_without_holding_distinct(self@.tokens_per_owner, account_id@, token_id@);
            }
        }
        match self.tokens_per_owner.remove(account_id, token_id) {
            Err(e) => Err(e),
            Ok(()) => Ok(
                OwnershipEvent {
                    kind: EventKind::Burn,
                    owner_id: account_id.to_owned(),
                    token_id: encode_holding_id(account_id, token_id),
                },
            ),
        }
    }

    /// The metadata of the holding that `token_id` names.
    pub fn nft_token_metadata(&self, token_id: &str) -> (r: Result<TokenMetadata, LedgerError>)
        ensures
            match resolve_spec(self@, token_id@) {
                Err(e) => r matches Err(got) && got == e,
                Ok(None) => r matches Err(got) && got == LedgerError::ItemNotFound,
                Ok(Some(token)) => r matches Ok(metadata) && Some(metadata@) == token.metadata,
            },
    {
        match decode_holding_id(token_id) {
            Err(e) => Err(e),
            Ok(pair) => match self.internal_as_nft_metadata(pair.1.as_str()) {
                Some(metadata) => Ok(metadata),
                None => Err(LedgerError::ItemNotFound),
            },
        }
    }

    /// The metadata that the item `token_id` shows, if the catalog holds it.
    pub fn internal_as_nft_metadata(&self, token_id: &str) -> (found: Option<TokenMetadata>)
        ensures
            match found {
                Some(metadata) => self@.tokens.contains_key(token_id@) && metadata@
                    == metadata_of(self@.tokens[token_id@]),
                None => !self@.tokens.contains_key(token_id@),
            },
    {
        match self.tokens.get(token_id) {
            Some(item) => Some(item_metadata(&item)),
            None => None,
        }
    }

    /// Settles the storage rent of a call that made the stored state grow by
    /// `storage_used` bytes, spent `extra_spend` of its payment elsewhere and
    /// came with `attached_deposit`.
    pub fn refund_deposit(&self, storage_used: u64, extra_spend: u128, attached_deposit: u128) -> (r:
        Result<Settlement, LedgerError>)
        ensures
            r == settle_spec(storage_used as int, extra_spend as int, attached_deposit as int),
    {
        settle(storage_used as i128, extra_spend, attached_deposit)
    }

    /// The token record of the holding that `token_id` names, if the catalog
    /// holds its item.
    pub fn nft_token(&self, token_id: &str) -> (r: Result<Option<Token>, LedgerError>)
        ensures
            match resolve_spec(self@, token_id@) {
                Err(e) => r matches Err(got) && got == e,
                Ok(None) => r matches Ok(None),
                Ok(Some(token)) => r matches Ok(Some(got)) && got@ == token,
            },
    {
        match decode_holding_id(token_id) {
            Err(e) => Err(e),
            Ok(pair) => match self.internal_as_nft_metadata(pair.1.as_str()) {
                Some(metadata) => Ok(
                    Some(
                        Token {
                            token_id: token_id.to_owned(),
                            owner_id: pair.0,
                            metadata: Some(metadata),
                            approved_account_ids: None,
                        },
                    ),
                ),
                None => Ok(None),
            },
        }
    }

    /// Refused: a holding cannot move to another account.
    pub fn nft_transfer(
        &mut self,
        receiver_id: &str,
        token_id: &str,
        approval_id: Option<u64>,
        memo: Option<String>,
    ) -> (r: Result<(), LedgerError>)
        ensures
            r == Err::<(), LedgerError>(LedgerError::UnsupportedOperation),
            *final(self) == *old(self),
    {
        Err(LedgerError::UnsupportedOperation)
    }

    /// Refused: a holding cannot move to another account.
    pub fn nft_transfer_call(
        &mut self,
        receiver_id: &str,
        token_id: &str,
        approval_id: Option<u64>,
        memo: Option<String>,
        msg: String,
    ) -> (r: Result<bool, LedgerError>)
        ensures
            r == Err::<bool, LedgerError>(LedgerError::UnsupportedOperation),
            *final(self) == *old(self),
    {
        Err(LedgerError::UnsupportedOperation)
    }

    /// Refused: there is no transfer to resolve.
    pub fn nft_resolve_transfer(
        &mut self,
        owner_id: &str,
        receiver_id: &str,
        token_id: &str,
        approved_account_ids: Option<Vec<(String, u64)>>,
    ) -> (r: Result<bool, LedgerError>)
        ensures
            r == Err::<bool, LedgerError>(LedgerError::UnsupportedOperation),
            *final(self) == *old(self),
    {
        Err(LedgerError::UnsupportedOperation)
    }

    /// The number of holdings of all accounts together.
    pub fn nft_total_supply(&self) -> (n: u128)
        ensures
            n == count_in(self@.tokens_per_owner),
    {
        self.tokens_per_owner.total_count()
    }

    /// The number of holdings of `account_id`.
    pub fn nft_supply_for_owner(&self, account_id: &str) -> (n: u128)
        ensures
            n == holdings_of(self@.tokens_per_owner, account_id@).len(),
    {
        let ids = self.tokens_per_owner.holdings_of(account_id);
        ids.len() as u128
    }

    /// The token records of the holdings of up to `limit` accounts (50 if
    /// none is given) after the first `from_index` accounts (0 if none is
    /// given), account by account in index order. A holding whose item the
    /// catalog does not hold is passed over.
    pub fn nft_tokens(&self, from_index: Option<u128>, limit: Option<u64>) -> (tokens: Vec<Token>)
        ensures
            token_views(tokens@) == tokens_known(
                listing(window(self@.tokens_per_owner, start_of(from_index), limit_of(limit))),
                self@.tokens,
            ),
    {
        let skip: u128 = match from_index {
            Some(n) => n,
            None => 0,
        };
        let count: u64 = match limit {
            Some(n) => n,
            None => DEFAULT_LIMIT,
        };
        let page = self.tokens_per_owner.paginate(skip, count);
        let mut tokens: Vec<Token> = Vec::new();
        let mut i: usize = 0;
        while i < page.len()
            invariant
                i <= page@.len(),
                token_views(tokens@) == tokens_known(
                    holding_views(page@).subrange(0, i as int),
                    self@.tokens,
                ),
            decreases page@.len() - i,
        {
            assert(holding_views(page@).subrange(0, i + 1).drop_last() =~= holding_views(
                page@,
            ).subrange(0, i as int));
            let holding = &page[i];
            match self.internal_as_nft_metadata(holding.token_id.as_str()) {
                Some(metadata) => {
                    let token = Token {
                        token_id: encode_holding_id(
                            holding.account.as_str(),
                            holding.token_id.as_str(),
                        ),
                        owner_id: holding.account.clone(),
                        metadata: Some(metadata),
                        approved_account_ids: None,
                    };
                    tokens.push(token);
                },
                None => {},
            }
            i += 1;
        }
        assert(holding_views(page@).subrange(0, page@.len() as int) =~= holding_views(page@));
        tokens
    }

    /// The token records of up to `limit` holdings of `account_id` (50 if
    /// none is given) after its first `from_index` holdings (0 if none is
    /// given), oldest first. The listing fails if the catalog lacks the item
    /// of one of them.
    pub fn nft_tokens_for_owner(
        &self,
        account_id: &str,
        from_index: Option<u128>,
        limit: Option<u64>,
    ) -> (r: Result<Vec<Token>, LedgerError>)
        ensures
            ({
                let ids = window(
                    holdings_of(self@.tokens_per_owner, account_id@),
                    start_of(from_index),
                    limit_of(limit),
                );
                if all_known(ids, self@.tokens) {
                    r matches Ok(tokens) && token_views(tokens@) == tokens_held(
                        account_id@,
                        ids,
                        self@.tokens,
                    )
                } else {
                    r matches Err(e) && e == LedgerError::ItemNotFound
                }
            }),
    {
        let skip: u128 = match from_index {
            Some(n) => n,
            None => 0,
        };
        let count: u64 = match limit {
            Some(n) => n,
            None => DEFAULT_LIMIT,
        };
        let page = self.tokens_per_owner.paginate_for_account(account_id, skip, count);
        let ghost ids = views(page@);
        let mut tokens: Vec<Token> = Vec::new();
        let mut i: usize = 0;
        while i < page.len()
            invariant
                i <= page@.len(),
                ids == views(page@),
                ids == window(
                    holdings_of(self@.tokens_per_owner, account_id@),
                    start_of(from_index),
                    limit_of(limit),
                ),
                all_known(ids.subrange(0, i as int), self@.tokens),
                token_views(tokens@) == tokens_held(account_id@, ids, self@.tokens).subrange(
                    0,
                    i as int,
                ),
            decreases page@.len() - i,
        {
            let ghost shown = token_views(tokens@);
            match self.internal_as_nft_metadata(page[i].as_str()) {
                Some(metadata) => {
                    let token = Token {
                        token_id: encode_holding_id(account_id, page[i].as_str()),
                        owner_id: account_id.to_owned(),
                        metadata: Some(metadata),
                        approved_account_ids: None,
                    };
                    let ghost made = token@;
                    tokens.push(token);
                    assert(token_views(tokens@) =~= shown.push(made));
                    assert forall|j: int| 0 <= j < i + 1 implies self@.tokens.contains_key(
                        #[trigger] ids.subrange(0, i + 1)[j],
                    ) by {}
                },
                None => {
                    assert(!self@.tokens.contains_key(ids[i as int]));
                    return Err(LedgerError::ItemNotFound);
                },
            }
            i += 1;
        }
        assert(ids.subrange(0, ids.len() as int) =~= ids);
        Ok(tokens)
    }
}

} // verus!
