//! Per-user launch bookkeeping.

use vstd::prelude::*;

verus! {

/// The launches a user created and the launches a user participates in.
pub struct User {
    pub launch_created: std::collections::HashSet<u128>,
    pub launch_participated: std::collections::HashSet<u128>,
}

} // verus!
