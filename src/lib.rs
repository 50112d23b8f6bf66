//! Token accounting: a fungible-balance ledger and a non-fungible ownership
//! ledger with per-owner enumeration, both behind an owner / pause guard.
//! Every operation is a verified state transition that either succeeds in full
//! or is refused with no change.

pub mod address;
pub mod collections;
pub mod decimal;
pub mod fungible;
pub mod guard;
pub mod nft;
pub mod num;
pub mod table;
