//! What the ledger tells about itself and about a holding: the metadata of
//! the collection, and the token record of one holding.

use vstd::prelude::*;
use vstd::string::*;
use crate::catalog::{ItemView, SimpleNonFungibleToken};
use crate::text::{option_view, same_text};

verus! {

/// The name of the metadata standard that the collection follows.
pub open spec fn metadata_spec_name() -> Seq<char> {
    seq!['n', 'f', 't', '-', '1', '.', '0', '.', '0']
}

/// Trusted: the constant `NFT_METADATA_SPEC` of `near_contract_standards`,
/// which is the text `nft-1.0.0`.
#[verifier::external_body]
pub(crate) fn nft_metadata_spec() -> (name: String)
    ensures
        name@ == metadata_spec_name(),
{
    near_contract_standards::non_fungible_token::metadata::NFT_METADATA_SPEC.to_string()
}

/// The bytes of an optional hash.
pub open spec fn option_bytes(hash: Option<Vec<u8>>) -> Option<Seq<u8>> {
    match hash {
        Some(h) => Some(h@),
        None => None,
    }
}

/// A copy of an optional hash.
pub fn copy_hash(hash: &Option<Vec<u8>>) -> (copy: Option<Vec<u8>>)
    ensures
        option_bytes(copy) == option_bytes(*hash),
{
    match hash {
        Some(h) => Some(h.clone()),
        None => None,
    }
}

/// The metadata of the collection.
#[derive(Debug, PartialEq, Eq)]
pub struct NFTContractMetadata {
    pub spec: String,
    pub name: String,
    pub symbol: String,
    pub icon: Option<String>,
    pub base_uri: Option<String>,
    pub reference: Option<String>,
    pub reference_hash: Option<Vec<u8>>,
}

/// The metadata of the collection as plain values.
pub struct ContractMetadataView {
    pub spec: Seq<char>,
    pub name: Seq<char>,
    pub symbol: Seq<char>,
    pub icon: Option<Seq<char>>,
    pub base_uri: Option<Seq<char>>,
    pub reference: Option<Seq<char>>,
    pub reference_hash: Option<Seq<u8>>,
}

impl View for NFTContractMetadata {
    type V = ContractMetadataView;

    open spec fn view(&self) -> ContractMetadataView {
        ContractMetadataView {
            spec: self.spec@,
            name: self.name@,
            symbol: self.symbol@,
            icon: option_view(self.icon),
            base_uri: option_view(self.base_uri),
            reference: option_view(self.reference),
            reference_hash: option_bytes(self.reference_hash),
        }
    }
}

/// Whether collection metadata is acceptable: it names the standard, it has
/// a reference exactly when it has the reference's hash, and a hash is 32
/// bytes long.
pub open spec fn valid_metadata(m: ContractMetadataView) -> bool {
    &&& m.spec == metadata_spec_name()
    &&& (m.reference is Some <==> m.reference_hash is Some)
    &&& (m.reference_hash matches Some(hash) ==> hash.len() == 32)
}

impl Clone for NFTContractMetadata {
    fn clone(&self) -> (copy: Self)
        ensures
            copy@ == self@,
    {
        NFTContractMetadata {
            spec: self.spec.clone(),
            name: self.name.clone(),
            symbol: self.symbol.clone(),
            icon: self.icon.clone(),
            base_uri: self.base_uri.clone(),
            reference: self.reference.clone(),
            reference_hash: copy_hash(&self.reference_hash),
        }
    }
}

impl NFTContractMetadata {
    /// Whether this metadata is acceptable for a collection.
    pub fn is_valid(&self) -> (ok: bool)
        ensures
            ok == valid_metadata(self@),
    {
        let standard = nft_metadata_spec();
        if !same_text(&self.spec, &standard) {
            return false;
        }
        match &self.reference_hash {
            Some(hash) => self.reference.is_some() && hash.len() == 32,
            None => self.reference.is_none(),
        }
    }
}

/// The metadata of one holding.
#[derive(Debug, PartialEq, Eq)]
pub struct TokenMetadata {
    pub title: Option<String>,
    pub description: Option<String>,
    pub media: Option<String>,
    pub media_hash: Option<Vec<u8>>,
    pub copies: Option<u64>,
    pub issued_at: Option<String>,
    pub expires_at: Option<String>,
    pub starts_at: Option<String>,
    pub updated_at: Option<String>,
    pub extra: Option<String>,
    pub reference: Option<String>,
    pub reference_hash: Option<Vec<u8>>,
}

/// The metadata of one holding as plain values.
pub struct TokenMetadataView {
    pub title: Option<Seq<char>>,
    pub description: Option<Seq<char>>,
    pub media: Option<Seq<char>>,
    pub media_hash: Option<Seq<u8>>,
    pub copies: Option<u64>,
    pub issued_at: Option<Seq<char>>,
    pub expires_at: Option<Seq<char>>,
    pub starts_at: Option<Seq<char>>,
    pub updated_at: Option<Seq<char>>,
    pub extra: Option<Seq<char>>,
    pub reference: Option<Seq<char>>,
    pub reference_hash: Option<Seq<u8>>,
}

impl View for TokenMetadata {
    type V = TokenMetadataView;

    open spec fn view(&self) -> TokenMetadataView {
        TokenMetadataView {
            title: option_view(self.title),
            description: option_view(self.description),
            media: option_view(self.media),
            media_hash: option_bytes(self.media_hash),
            copies: self.copies,
            issued_at: option_view(self.issued_at),
            expires_at: option_view(self.expires_at),
            starts_at: option_view(self.starts_at),
            updated_at: option_view(self.updated_at),
            extra: option_view(self.extra),
            reference: option_view(self.reference),
            reference_hash: option_bytes(self.reference_hash),
        }
    }
}

/// Where the media of the item `token_id` is found: `song/<token_id>/media`.
pub open spec fn media_locator(token_id: Seq<char>) -> Seq<char> {
    seq!['s', 'o', 'n', 'g', '/'] + token_id + seq!['/', 'm', 'e', 'd', 'i', 'a']
}

/// The metadata that an item shows: its name as title, its description, the
/// locator of its media and its extra data. Nothing else is set.
pub open spec fn metadata_of(item: ItemView) -> TokenMetadataView {
    TokenMetadataView {
        title: Some(item.name),
        description: Some(item.description),
        media: Some(media_locator(item.token_id)),
        media_hash: None,
        copies: None,
        issued_at: None,
        expires_at: None,
        starts_at: None,
        updated_at: None,
        extra: item.extra,
        reference: None,
        reference_hash: None,
    }
}

/// The metadata that `item` shows.
pub fn item_metadata(item: &SimpleNonFungibleToken) -> (metadata: TokenMetadata)
    ensures
        metadata@ == metadata_of(item@),
{
    proof {
        reveal_strlit("song/");
        reveal_strlit("/media");
    }
    let mut media = "song/".to_owned();
    media.append(item.token_id.as_str());
    media.append("/media");
    assert(media@ =~= media_locator(item.token_id@));
    TokenMetadata {
        title: Some(item.name.clone()),
        description: Some(item.description.clone()),
        media: Some(media),
        media_hash: None,
        copies: None,
        issued_at: None,
        expires_at: None,
        starts_at: None,
        updated_at: None,
        extra: item.extra.clone(),
        reference: None,
        reference_hash: None,
    }
}

/// The token record of one holding.
#[derive(Debug, PartialEq, Eq)]
pub struct Token {
    pub token_id: String,
    pub owner_id: String,
    pub metadata: Option<TokenMetadata>,
    pub approved_account_ids: Option<Vec<(String, u64)>>,
}

/// A token record as plain values. Approvals do not exist for soulbound
/// holdings, so only their absence is recorded.
pub struct TokenView {
    pub token_id: Seq<char>,
    pub owner_id: Seq<char>,
    pub metadata: Option<TokenMetadataView>,
    pub has_approvals: bool,
}

impl View for Token {
    type V = TokenView;

    open spec fn view(&self) -> TokenView {
        TokenView {
            token_id: self.token_id@,
            owner_id: self.owner_id@,
            metadata: match self.metadata {
                Some(m) => Some(m@),
                None => None,
            },
            has_approvals: self.approved_account_ids is Some,
        }
    }
}

/// The plain values of each token of `list`, in order.
pub open spec fn token_views(list: Seq<Token>) -> Seq<TokenView> {
    Seq::new(list.len(), |i: int| list[i]@)
}

} // verus!
