//! The engine's model of a bitcoin transaction.
//!
//! Every transaction the engine builds has version 2 and lock time zero, so
//! the model keeps the inputs and outputs alone; the boundary that encodes a
//! model for the network writes those two constants.

use vstd::prelude::*;

use crate::utxo_manager::Outpoint;

verus! {

/// One transaction output: a value in satoshi and the locking script.
pub struct DraftOutput {
    pub value: u64,
    pub script_pubkey: Vec<u8>,
}

/// One transaction input: the output it spends, a relative-lock sequence
/// number, the unlocking script, and the witness stack.
pub struct DraftInput {
    pub previous_output: Outpoint,
    pub sequence: u32,
    pub script_sig: Vec<u8>,
    pub witness: Vec<Vec<u8>>,
}

/// An engine-built transaction (version 2, lock time zero).
pub struct DraftTransaction {
    pub input: Vec<DraftInput>,
    pub output: Vec<DraftOutput>,
}

/// What a sequence of outputs says: value and locking script of each.
pub open spec fn outs_view(s: Seq<DraftOutput>) -> Seq<(u64, Seq<u8>)> {
    s.map_values(|o: DraftOutput| (o.value, o.script_pubkey@))
}

/// What a sequence of inputs says for signing: spent outpoint and sequence
/// number of each.
pub open spec fn ins_view(s: Seq<DraftInput>) -> Seq<(Seq<u8>, u32, u32)> {
    s.map_values(|i: DraftInput| (i.previous_output.txid@, i.previous_output.vout, i.sequence))
}

/// The full content of a transaction, scripts and witnesses included.
pub open spec fn tx_view(t: DraftTransaction) -> (
    Seq<(Seq<u8>, u32, u32, Seq<u8>, Seq<Seq<u8>>)>,
    Seq<(u64, Seq<u8>)>,
) {
    (
        t.input@.map_values(
            |i: DraftInput|
                (
                    i.previous_output.txid@,
                    i.previous_output.vout,
                    i.sequence,
                    i.script_sig@,
                    i.witness.deep_view(),
                ),
        ),
        outs_view(t.output@),
    )
}

} // verus!
