//! What a state-changing operation hands back for the host to carry out: a
//! payment to forward and an event to publish.

use vstd::prelude::*;
use crate::codec::holding_id;
use crate::metadata::{TokenMetadata, TokenMetadataView};

verus! {

/// A payment that the host is to make.
#[derive(Debug, PartialEq, Eq)]
pub struct Transfer {
    pub receiver_id: String,
    pub amount: u128,
}

/// A payment as plain values.
pub struct TransferView {
    pub receiver_id: Seq<char>,
    pub amount: u128,
}

impl View for Transfer {
    type V = TransferView;

    open spec fn view(&self) -> TransferView {
        TransferView { receiver_id: self.receiver_id@, amount: self.amount }
    }
}

/// Whether a holding came into being or ceased.
#[derive(Debug, Clone, Copy, PartialEq, Eq, Structural)]
pub enum EventKind {
    Mint,
    Burn,
}

/// A notification that a holding came into being or ceased, keyed by the
/// holding's composite identifier.
#[derive(Debug, PartialEq, Eq)]
pub struct OwnershipEvent {
    pub kind: EventKind,
    pub owner_id: String,
    pub token_id: String,
}

/// A notification as plain values.
pub struct EventView {
    pub kind: EventKind,
    pub owner_id: Seq<char>,
    pub token_id: Seq<char>,
}

impl View for OwnershipEvent {
    type V = EventView;

    open spec fn view(&self) -> EventView {
        EventView { kind: self.kind, owner_id: self.owner_id@, token_id: self.token_id@ }
    }
}

/// The notification of kind `kind` for the holding of `item` by `account`.
pub open spec fn event_for(kind: EventKind, account: Seq<char>, item: Seq<char>) -> EventView {
    EventView { kind, owner_id: account, token_id: holding_id(account, item) }
}

/// What a purchase hands back: the metadata of the new holding, the payment
/// to forward to the item's creator, if any, and the event to publish.
#[derive(Debug, PartialEq, Eq)]
pub struct Receipt {
    pub metadata: TokenMetadata,
    pub payment: Option<Transfer>,
    pub event: OwnershipEvent,
}

/// A receipt as plain values.
pub struct ReceiptView {
    pub metadata: TokenMetadataView,
    pub payment: Option<TransferView>,
    pub event: EventView,
}

impl View for Receipt {
    type V = ReceiptView;

    open spec fn view(&self) -> ReceiptView {
        ReceiptView {
            metadata: self.metadata@,
            payment: match self.payment {
                Some(p) => Some(p@),
                None => None,
            },
            event: self.event@,
        }
    }
}

} // verus!
