//! Collections, royalties and minting for a non-fungible-token contract.
//!
//! The contract's state is one owned value, [`Contract`], that every
//! operation takes by reference. The token ledger itself (ownership,
//! transfers, approvals) lives outside this crate: minting returns the
//! tokens to hand to it, and payouts take the owner it reports.

pub mod collection;
pub mod contract;
pub mod error;
pub mod ids;
pub mod keyed;
pub mod listing;
pub mod metadata;
pub mod mint;
pub mod royalty;
pub mod sale;

pub use collection::{CollectionData, CollectionMetadata, CollectionMetadataJs, CollectionsBatch, WhitelistedToken};
pub use contract::{Contract, PreviousState};
pub use listing::LEGACY_CONTRACT_TAG;
pub use error::ContractError;
pub use metadata::{MintedToken, TokenMetadata};
pub use royalty::{Payout, MAX_LEN_PAYOUT, MAX_PAYOUT};
