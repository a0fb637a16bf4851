//! A ledger for non-transferable ("soulbound") collectibles: a catalog of
//! mintable items, a per-account index of holdings, the composite identifiers
//! of holdings, and the storage-rent settlement that every paid call ends with.

pub mod account;
pub mod accountant;
pub mod catalog;
pub mod codec;
pub mod contract;
pub mod error;
pub mod index;
pub mod laws;
pub mod metadata;
pub mod receipt;
pub mod text;
