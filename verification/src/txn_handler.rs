//! The submission side: the tagged variants of a transaction to submit, and
//! the verified pieces of the legacy signing path — digest, DER encoding,
//! and unlocking-script assembly. The boundary performs the network calls
//! and the signer round trips; everything it splices into a transaction is
//! computed here.

use vstd::prelude::*;

use crate::addresses::IcrcAccount;
use crate::script_build::push_encoding;
use crate::script_build::push_data;
use crate::transaction::{ins_view, outs_view, tx_view, DraftTransaction, DraftInput, DraftOutput};
use crate::updater::RuneId;
use crate::utxo_manager::{RunicUtxo, Utxo};

verus! {

/// Identifier of a transaction accepted by a network.
pub enum SubmittedTxidType {
    Bitcoin { txid: String },
}

impl PartialEq for SubmittedTxidType {
    fn eq(&self, other: &Self) -> (r: bool) {
        match (self, other) {
            (
                SubmittedTxidType::Bitcoin { txid: a },
                SubmittedTxidType::Bitcoin { txid: b },
            ) => *a == *b,
        }
    }
}

impl vstd::std_specs::cmp::PartialEqSpecImpl for SubmittedTxidType {
    open spec fn obeys_eq_spec() -> bool {
        true
    }

    open spec fn eq_spec(&self, other: &Self) -> bool {
        match (self, other) {
            (
                SubmittedTxidType::Bitcoin { txid: a },
                SubmittedTxidType::Bitcoin { txid: b },
            ) => a@ == b@,
        }
    }
}

/// A transaction ready for submission, tagged by kind; each variant carries
/// exactly what its signing and broadcast path needs.
pub enum TransactionType {
    Etching {
        commit_tx_address: String,
        commit: DraftTransaction,
        reveal: DraftTransaction,
        fee_utxos: Vec<Utxo>,
        fee_payer: String,
    },
    Bitcoin {
        utxos: Vec<Utxo>,
        txn: DraftTransaction,
        sender: String,
        sender_account: IcrcAccount,
    },
    Rune {
        runic_utxos: Vec<RunicUtxo>,
        runeid: RuneId,
        rune_amount: u128,
        rune_sender: Box<String>,
        rune_receiver: Box<String>,
        rune_sender_account: IcrcAccount,
        fee_utxos: Vec<Utxo>,
        fee: u64,
        fee_payer: Box<String>,
        fee_payer_account: IcrcAccount,
        postage: u64,
    },
}

/// Big-endian bytes with redundant leading zeros dropped; a single zero byte
/// stands for the value zero.
pub open spec fn trim_zeros(b: Seq<u8>) -> Seq<u8>
    decreases b.len(),
{
    if b.len() > 1 && b[0] == 0 {
        trim_zeros(b.subrange(1, b.len() as int))
    } else {
        b
    }
}

/// A DER integer from a big-endian scalar: minimal form (redundant leading
/// zeros dropped), with one zero byte prepended to shield a set high bit so
/// the value stays non-negative.
pub open spec fn der_int(b: Seq<u8>) -> Seq<u8> {
    let t = trim_zeros(b);
    if t.len() > 0 && t[0] >= 128 {
        seq![0u8] + t
    } else {
        t
    }
}

/// The DER encoding of a raw 64-byte (r, s) signature: a sequence of the two
/// integers.
pub open spec fn sec1_to_der_spec(sig: Seq<u8>) -> Seq<u8> {
    let r = der_int(sig.subrange(0, 32));
    let s = der_int(sig.subrange(32, 64));
    seq![0x30u8, (4 + r.len() + s.len()) as u8, 0x02u8, r.len() as u8] + r + seq![
        0x02u8,
        s.len() as u8,
    ] + s
}

fn der_int_exec(b: Vec<u8>) -> (r: Vec<u8>)
    requires
        b@.len() >= 1,
    ensures
        r@ == der_int(b@),
        1 <= r@.len() <= b@.len() + 1,
{
    let n = b.len();
    let mut start: usize = 0;
    proof {
        assert(b@.subrange(0, n as int) =~= b@);
    }
    while start < n - 1 && b[start] == 0
        invariant
            n == b@.len(),
            n >= 1,
            start <= n - 1,
            trim_zeros(b@) == trim_zeros(b@.subrange(start as int, n as int)),
        decreases n - start,
    {
        proof {
            let cur = b@.subrange(start as int, n as int);
            assert(cur.len() > 1 && cur[0] == 0);
            assert(cur.subrange(1, cur.len() as int) =~= b@.subrange(start + 1, n as int));
        }
        start += 1;
    }
    let t = vstd::slice::slice_to_vec(vstd::slice::slice_subrange(b.as_slice(), start, n));
    proof {
        let cur = b@.subrange(start as int, n as int);
        assert(!(cur.len() > 1 && cur[0] == 0));
        assert(trim_zeros(cur) == cur);
        assert(t@ == trim_zeros(b@));
    }
    if t[0] >= 128 {
        let mut out: Vec<u8> = Vec::new();
        out.push(0u8);
        crate::script_build::append_bytes(&mut out, &t);
        proof {
            assert(out@ =~= seq![0u8] + t@);
        }
        out
    } else {
        t
    }
}

/// Re-encodes a raw 64-byte signature from the signer into the strict
/// (minimal-integer) DER form the legacy unlocking script carries.
pub fn sec1_to_der(sig: &Vec<u8>) -> (r: Vec<u8>)
    requires
        sig@.len() == 64,
    ensures
        r@ == sec1_to_der_spec(sig@),
{
    let rpart = der_int_exec(vstd::slice::slice_to_vec(
        vstd::slice::slice_subrange(sig.as_slice(), 0, 32),
    ));
    let spart = der_int_exec(vstd::slice::slice_to_vec(
        vstd::slice::slice_subrange(sig.as_slice(), 32, 64),
    ));
    let mut out: Vec<u8> = Vec::new();
    out.push(0x30);
    out.push(4 + (rpart.len() as u8) + (spart.len() as u8));
    out.push(0x02);
    out.push(rpart.len() as u8);
    let ghost head1 = out@;
    crate::script_build::append_bytes(&mut out, &rpart);
    out.push(0x02);
    out.push(spart.len() as u8);
    crate::script_build::append_bytes(&mut out, &spart);
    proof {
        let rv = der_int(sig@.subrange(0, 32));
        let sv = der_int(sig@.subrange(32, 64));
        assert(rpart@ == rv);
        assert(spart@ == sv);
        assert(head1 =~= seq![0x30u8, (4 + rv.len() + sv.len()) as u8, 0x02u8, rv.len() as u8]);
        assert(out@ =~= head1 + rv + seq![0x02u8, sv.len() as u8] + sv);
        assert(out@ =~= sec1_to_der_spec(sig@));
    }
    out
}

/// The legacy p2pkh unlocking script: a push of the DER signature with the
/// sighash-all marker byte appended, then a push of the signer's public key.
pub open spec fn p2pkh_script_sig(der_sig: Seq<u8>, pubkey: Seq<u8>) -> Seq<u8> {
    push_encoding(der_sig + seq![1u8]) + push_encoding(pubkey)
}

/// Assembles the legacy unlocking script from the DER signature and the
/// signer's public key.
pub fn build_p2pkh_script_sig(der_sig: &Vec<u8>, pubkey: &Vec<u8>) -> (r: Vec<u8>)
    requires
        der_sig@.len() < 256,
        pubkey@.len() < 256,
    ensures
        r@ == p2pkh_script_sig(der_sig@, pubkey@),
{
    let mut tagged = vstd::slice::slice_to_vec(der_sig.as_slice());
    tagged.push(1u8);
    proof {
        assert(tagged@ =~= der_sig@ + seq![1u8]);
    }
    let mut out: Vec<u8> = Vec::new();
    push_data(&mut out, &tagged);
    push_data(&mut out, pubkey);
    proof {
        assert(out@ =~= p2pkh_script_sig(der_sig@, pubkey@));
    }
    out
}

/// Splices a freshly built unlocking script into one input of a transaction
/// and clears that input's witness; everything else stays as it was.
pub fn apply_script_sig(txn: &mut DraftTransaction, index: usize, script_sig: Vec<u8>)
    requires
        index < old(txn).input@.len(),
    ensures
        final(txn).output@ == old(txn).output@,
        final(txn).input@.len() == old(txn).input@.len(),
        forall|k: int|
            0 <= k < final(txn).input@.len() && k != index ==> final(txn).input@[k] == old(
                txn,
            ).input@[k],
        final(txn).input@[index as int].previous_output == old(
            txn,
        ).input@[index as int].previous_output,
        final(txn).input@[index as int].sequence == old(txn).input@[index as int].sequence,
        final(txn).input@[index as int].script_sig@ == script_sig@,
        final(txn).input@[index as int].witness@.len() == 0,
{
    let ghost before = txn.input@;
    let old_in = txn.input.remove(index);
    let new_in = DraftInput {
        previous_output: old_in.previous_output,
        sequence: old_in.sequence,
        script_sig,
        witness: Vec::new(),
    };
    txn.input.insert(index, new_in);
    proof {
        assert(txn.input@ =~= before.update(index as int, txn.input@[index as int]));
    }
}

/// The derivation path of an account at the signer: the owner principal's
/// bytes, then the subaccount bytes (empty when unset).
pub fn account_to_derivation_path(account: &IcrcAccount) -> (r: Vec<Vec<u8>>)
    ensures
        r@.len() == 2,
        r@[0]@ == account.owner@,
        r@[1]@ == (match account.subaccount {
            Some(s) => s@,
            None => Seq::<u8>::empty(),
        }),
{
    let owner = vstd::slice::slice_to_vec(account.owner.as_slice());
    let sub: Vec<u8> = match &account.subaccount {
        Some(s) => vstd::slice::slice_to_vec(s.as_slice()),
        None => Vec::new(),
    };
    let mut r: Vec<Vec<u8>> = Vec::new();
    r.push(owner);
    r.push(sub);
    r
}

/// The sighash-all legacy digest of a transaction's input: a pure function
/// of the inputs' outpoints and sequences, the outputs, the signed index and
/// the spent output's script.
pub uninterp spec fn legacy_sighash_of(
    ins: Seq<(Seq<u8>, u32, u32)>,
    outs: Seq<(u64, Seq<u8>)>,
    index: int,
    spk: Seq<u8>,
) -> Seq<u8>;

/// Relies on bitcoin's SighashCache::legacy_signature_hash with sighash-all:
/// the 32-byte digest depends only on the inputs' outpoints and sequences,
/// the outputs, the signed input's index and the spent script. Unlocking
/// scripts are replaced during hashing, so they do not matter here.
#[verifier::external_body]
pub fn legacy_sighash(txn: &DraftTransaction, index: usize, spk: &Vec<u8>) -> (r: Vec<u8>)
    requires
        index < txn.input@.len(),
        forall|k: int|
            0 <= k < txn.input@.len() ==> (#[trigger] txn.input@[k]).previous_output.txid@.len()
                == 32,
    ensures
        r@.len() == 32,
        r@ == legacy_sighash_of(ins_view(txn.input@), outs_view(txn.output@), index as int, spk@),
{
    let t = crate::btc_convert::to_btc_transaction(txn);
    let h = bitcoin::sighash::SighashCache::new(&t).legacy_signature_hash(index, bitcoin::Script::from_bytes(spk.as_slice()), 1).unwrap();
    <bitcoin::sighash::LegacySighash as bitcoin::hashes::Hash>::to_byte_array(h).to_vec()
}

/// The display form of a transaction's id: a pure function of its whole
/// content.
pub uninterp spec fn txid_display_of(
    ins: Seq<(Seq<u8>, u32, u32, Seq<u8>, Seq<Seq<u8>>)>,
    outs: Seq<(u64, Seq<u8>)>,
) -> Seq<char>;

/// Relies on bitcoin's DraftTransaction::compute_txid: the id is the digest of
/// the encoded transaction, a pure function of its content, shown as hex.
#[verifier::external_body]
pub fn compute_txid_hex(txn: &DraftTransaction) -> (r: String)
    requires
        forall|k: int|
            0 <= k < txn.input@.len() ==> (#[trigger] txn.input@[k]).previous_output.txid@.len()
                == 32,
    ensures
        r@ == txid_display_of(tx_view(*txn).0, tx_view(*txn).1),
{
    crate::btc_convert::to_btc_transaction(txn).compute_txid().to_string()
}

} // verus!
