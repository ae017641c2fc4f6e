//! Bitcoin-side transaction engine for a rune-etching service.
//!
//! The crate keeps a ledger of spendable outputs per address, classifies
//! outputs as plain coin or rune-bearing, builds the commit/reveal
//! transaction pair that embeds an issuance message, and drives the
//! confirmation-gated retry scheduler for the reveal transaction.

use vstd::prelude::*;

pub mod addresses;
pub mod btc_convert;
pub mod config;
pub mod etch;
pub mod launch_manager;
pub mod memory;
pub mod queue;
pub mod script_build;
pub mod transaction;
pub mod token_type;
pub mod txn_handler;
pub mod updater;
pub mod user_manager;
pub mod utxo_manager;

verus! {

/// What a caller supplies to start a token launch.
pub struct StartLaunchArgs {
    pub logo: Option<Vec<u8>>,
    pub content_type: Option<Vec<u8>>,
    pub runename: String,
    pub symbol: Option<u32>,
    pub divisibility: u8,
    pub total_supply: u128,
    pub turbo: bool,
    pub website: Option<String>,
    pub x: Option<String>,
    pub telegram: Option<String>,
    pub openchat: Option<String>,
    pub hard_cap: u64,
    pub soft_cap: u64,
    pub starts_in: u8,
    pub duration: u8,
    pub price_per_token: u64,
    pub fee_per_vbytes: Option<u64>,
}

/// A caller-facing stub kept for interface stability: user bookkeeping is
/// not part of the transaction engine.
pub fn user_detail() {
}

/// A caller-facing stub kept for interface stability: launch enumeration is
/// not part of the transaction engine.
pub fn all_launches() {
}

/// A caller-facing stub kept for interface stability: launch participation is
/// not part of the transaction engine.
pub fn participate() {
}

} // verus!
