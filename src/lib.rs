//! A ledger of non-fungible tokens: sequential minting under a supply cap,
//! single ownership, delegated approvals, royalty payouts and one-way redemption.

pub mod royalty;
pub mod approvals;
pub mod contract;
