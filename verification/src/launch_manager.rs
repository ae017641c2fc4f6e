//! The record a token launch keeps between creation and completion.

use vstd::prelude::*;

use crate::token_type::TokenType;
use crate::updater::RuneId;

verus! {

/// One token launch: who created it, the etched rune once known, the token's
/// presentation, and the raise terms.
pub struct Launch {
    pub created_by: Vec<u8>,
    pub launch_id: u128,
    pub runeid: Option<RuneId>,
    pub runename: String,
    pub divisibility: u8,
    pub logo: Option<Vec<u8>>,
    pub content_type: Option<Vec<u8>>,
    pub website: Option<String>,
    pub x: Option<String>,
    pub telegram: Option<String>,
    pub openchat: Option<String>,
    pub hard_cap: u64,
    pub soft_cap: u64,
    pub starts_in: u8,
    pub duration: u8,
    pub raise_in: TokenType,
    pub price_per_token: u64,
}

} // verus!
