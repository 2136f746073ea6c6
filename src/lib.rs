//! Core of an SPL-Token-compatible program: a checked view of the host's
//! serialized input buffer, runtime borrow tracking for aliased accounts,
//! typed token records, cross-program invocation checks and the token rules
//! built on them.

pub mod account_info;
pub mod entrypoint;
pub mod error;
pub mod instruction;
pub mod layout;
pub mod processor;
pub mod pubkey;
pub mod state;
pub mod sysvars;
pub mod token;
pub mod ui_amount;
