//! Identifiers of the durable-storage regions the state objects persist in.

use vstd::prelude::*;

verus! {

/// The storage regions: one per state object.
#[derive(Clone, Copy, Debug, PartialEq, Eq, Structural)]
pub enum MemoryIds {
    Config,
    Runic,
    Bitcoin,
    Queue,
}

/// The numeric region index each state object persists under.
pub fn memory_id_index(ids: MemoryIds) -> (r: u8)
    ensures
        r == (match ids {
            MemoryIds::Config => 1u8,
            MemoryIds::Runic => 2u8,
            MemoryIds::Bitcoin => 3u8,
            MemoryIds::Queue => 4u8,
        }),
{
    match ids {
        MemoryIds::Config => 1,
        MemoryIds::Runic => 2,
        MemoryIds::Bitcoin => 3,
        MemoryIds::Queue => 4,
    }
}

} // verus!
