//! Re-expression of the engine's transaction model as the bitcoin crate's
//! types, for the trusted calls that need a whole transaction.

use vstd::prelude::*;

verus! {

#[verifier::external_type_specification]
#[verifier::external_body]
pub struct ExBtcTransaction(bitcoin::Transaction);

#[verifier::external_type_specification]
#[verifier::external_body]
pub struct ExBtcTxIn(bitcoin::TxIn);

#[verifier::external_type_specification]
#[verifier::external_body]
pub struct ExBtcTxOut(bitcoin::TxOut);

/// Relies on bitcoin's input type: re-expresses the engine's inputs field
/// for field; every spent transaction id is 32 bytes.
#[verifier::external_body]
pub(crate) fn to_btc_inputs(input: &Vec<crate::transaction::DraftInput>) -> (r: Vec<bitcoin::TxIn>)
    requires
        forall|k: int|
            0 <= k < input@.len() ==> (#[trigger] input@[k]).previous_output.txid@.len() == 32,
{
    let op = |i: &crate::transaction::DraftInput| bitcoin::OutPoint { txid: <bitcoin::Txid as bitcoin::hashes::Hash>::from_slice(&i.previous_output.txid).unwrap(), vout: i.previous_output.vout };
    input.iter().map(|i| bitcoin::TxIn { previous_output: op(i), script_sig: bitcoin::ScriptBuf::from_bytes(i.script_sig.clone()), sequence: bitcoin::Sequence(i.sequence), witness: bitcoin::Witness::from_slice(&i.witness) }).collect()
}

/// Relies on bitcoin's output type: re-expresses the engine's outputs field
/// for field.
#[verifier::external_body]
pub(crate) fn to_btc_outputs(output: &Vec<crate::transaction::DraftOutput>) -> (r: Vec<bitcoin::TxOut>)
{
    output.iter().map(|o| bitcoin::TxOut { value: bitcoin::Amount::from_sat(o.value), script_pubkey: bitcoin::ScriptBuf::from_bytes(o.script_pubkey.clone()) }).collect()
}

/// Relies on bitcoin's transaction type: assembles the converted inputs and
/// outputs under the engine's fixed version 2 and zero lock time.
#[verifier::external_body]
pub(crate) fn to_btc_transaction(txn: &crate::transaction::DraftTransaction) -> (r: bitcoin::Transaction)
    requires
        forall|k: int|
            0 <= k < txn.input@.len() ==> (#[trigger] txn.input@[k]).previous_output.txid@.len()
                == 32,
{
    bitcoin::Transaction { version: bitcoin::transaction::Version(2), lock_time: bitcoin::absolute::LockTime::ZERO, input: to_btc_inputs(&txn.input), output: to_btc_outputs(&txn.output) }
}

} // verus!
