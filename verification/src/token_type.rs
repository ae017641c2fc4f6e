//! The closed set of token kinds a balance can be denominated in.

use vstd::prelude::*;

use crate::updater::RuneId;

verus! {

/// A balance is either plain bitcoin or a specific rune.
#[derive(Clone, Copy, Debug, Hash, PartialEq, Eq, Structural)]
pub enum TokenType {
    Bitcoin,
    Rune(RuneId),
}

} // verus!
