//! The commit/reveal transaction builder for a rune etching.
//!
//! Pure computation over already-fetched ledger state: it encodes the
//! issuance protocol message, derives the single-leaf script-path spending
//! structure for the per-canister key, sizes the reveal transaction with
//! placeholder witness data to fix its fee, and funds the commit transaction
//! from the fee payer's plain outputs. Validation and resource errors are
//! detected here, before any network call, and leave the ledger untouched.

use vstd::prelude::*;

use crate::config::{BitcoinNetwork, Config};
use crate::script_build::{build_reveal_script, opt_view, reveal_script_spec};
use crate::transaction::{outs_view, tx_view, DraftTransaction, DraftInput, DraftOutput};
use crate::txn_handler::{compute_txid_hex, txid_display_of, TransactionType};
use crate::utxo_manager::{
    book_wf, copy_outpoint, outpoint_eq, plain_removed, plain_unique, s_book_index, s_has_book,
    sum_plain, Outpoint, Utxo, UtxoManager,
};

verus! {

/// The postage paid to the reveal address when nothing overrides it.
pub const DEFAULT_POSTAGE: u64 = 10_000;

/// The value of the premine output on the reveal transaction.
pub const TARGET_POSTAGE: u64 = 10_000;

/// The largest protocol message a standard null-data output carries.
pub const MAX_STANDARD_OP_RETURN_SIZE: usize = 83;

/// What the issuance parameters ask the builder to construct.
pub struct EtchingArgs {
    pub reveal_address: String,
    pub logo: Option<Vec<u8>>,
    pub content_type: Option<Vec<u8>>,
    pub rune: u128,
    pub spacers: u32,
    pub premine: u128,
    pub divisibility: u8,
    pub symbol: Option<char>,
    pub turbo: bool,
    pub fee_payer: String,
    pub fee_payer_account: crate::addresses::IcrcAccount,
    /// Accepted for interface compatibility and unused: the premine output
    /// always carries the fixed target postage.
    pub postage: Option<u64>,
    pub fee_per_vbytes: u64,
}

/// Why an etching is rejected. All of these are detected before any network
/// call and create no partial state.
#[derive(Clone, Copy, Debug, PartialEq, Eq, Structural)]
pub enum EtchError {
    /// The configured public key does not parse to a curve point.
    InvalidKey,
    /// The reveal address does not parse on the selected network.
    InvalidAddress,
    /// The encoded issuance message exceeds the standard null-data size.
    MessageTooLarge,
    /// The fee computation leaves the representable amount range.
    FeeOverflow,
    /// The commit output's value sits below the dust threshold of its script.
    DustValue,
    /// The fee payer's plain outputs cannot fund the commit transaction.
    InsufficientFunds,
}

/// The encoded issuance protocol message for an etching with the given
/// fields and no mint terms.
pub uninterp spec fn runestone_encoding(
    divisibility: u8,
    premine: u128,
    rune: u128,
    spacers: u32,
    symbol: Option<char>,
    turbo: bool,
    pointer: Option<u32>,
) -> Seq<u8>;

/// Relies on ordinals' Runestone::encipher: the protocol message is a
/// deterministic function of the etching fields, and the script it returns
/// opens with the null-data opcode and the protocol marker.
#[verifier::external_body]
fn encipher_runestone(
    divisibility: u8,
    premine: u128,
    rune: u128,
    spacers: u32,
    symbol: Option<char>,
    turbo: bool,
    pointer: Option<u32>,
) -> (r: Vec<u8>)
    ensures
        r@ == runestone_encoding(divisibility, premine, rune, spacers, symbol, turbo, pointer),
        r@.len() >= 2,
        r@[0] == 0x6au8,
{
    let etching = ordinals::Etching { divisibility: Some(divisibility), premine: Some(premine), rune: Some(ordinals::Rune(rune)), spacers: Some(spacers), symbol, terms: None, turbo };
    ordinals::Runestone { edicts: Vec::new(), etching: Some(etching), mint: None, pointer }.encipher().into_bytes()
}

/// Whether 33 bytes are a valid compressed encoding of a curve point.
pub uninterp spec fn sec1_point_valid(b: Seq<u8>) -> bool;

/// Relies on bitcoin::PublicKey::from_slice: a 33-byte compressed key parses
/// exactly when it encodes a curve point, and its x-only form is the 32
/// bytes after the parity byte.
#[verifier::external_body]
fn parse_xonly_pubkey(b: &Vec<u8>) -> (r: Option<Vec<u8>>)
    requires
        b@.len() == 33,
    ensures
        r.is_some() == sec1_point_valid(b@),
        r.is_some() ==> r.unwrap()@ == b@.subrange(1, 33),
        r.is_some() ==> r.unwrap()@.len() == 32,
{
    match bitcoin::PublicKey::from_slice(b.as_slice()) {
        Ok(pk) => Some(bitcoin::XOnlyPublicKey::from(pk).serialize().to_vec()),
        Err(_) => None,
    }
}

/// Whether 32 bytes are the x coordinate of a curve point.
pub uninterp spec fn xonly_key_valid(b: Seq<u8>) -> bool;

/// The pay-to-taproot address of the single-leaf spend of `script` under the
/// internal key, on the given network.
pub uninterp spec fn taproot_commit_address(
    network: BitcoinNetwork,
    internal_x: Seq<u8>,
    script: Seq<u8>,
) -> Seq<char>;

/// The control block proving the single leaf under the internal key.
pub uninterp spec fn taproot_control_block(internal_x: Seq<u8>, script: Seq<u8>) -> Seq<u8>;

/// The tweaked 32-byte output key of the single-leaf spend.
pub uninterp spec fn taproot_output_key(internal_x: Seq<u8>, script: Seq<u8>) -> Seq<u8>;

/// Relies on bitcoin's TaprootBuilder, control_block and Address::p2tr_tweaked:
/// with one leaf at depth zero the tree is complete, so building and
/// finalizing cannot fail, and address, control block and output key are
/// deterministic functions of network, internal key and leaf script. Parsing
/// the 32-byte internal key fails only off the curve.
#[verifier::external_body]
fn derive_taproot_commit(network: BitcoinNetwork, internal_x: &Vec<u8>, script: &Vec<u8>) -> (r:
    Option<(String, Vec<u8>, Vec<u8>)>)
    requires
        internal_x@.len() == 32,
    ensures
        r.is_some() == xonly_key_valid(internal_x@),
        r.is_some() ==> r.unwrap().0@ == taproot_commit_address(network, internal_x@, script@),
        r.is_some() ==> r.unwrap().1@ == taproot_control_block(internal_x@, script@),
        r.is_some() ==> r.unwrap().2@ == taproot_output_key(internal_x@, script@),
        r.is_some() ==> r.unwrap().2@.len() == 32,
{
    let key = match bitcoin::XOnlyPublicKey::from_slice(internal_x.as_slice()) { Ok(k) => k, Err(_) => return None };
    let secp = bitcoin::key::Secp256k1::new();
    let sb = bitcoin::ScriptBuf::from_bytes(script.clone());
    let info = bitcoin::taproot::TaprootBuilder::new().add_leaf(0, sb.clone()).unwrap().finalize(&secp, key).unwrap();
    let cb = info.control_block(&(sb, bitcoin::taproot::LeafVersion::TapScript)).unwrap();
    let addr = bitcoin::Address::p2tr_tweaked(info.output_key(), to_btc_network(network));
    Some((addr.to_string(), cb.serialize(), info.output_key().serialize().to_vec()))
}

#[verifier::external_type_specification]
#[verifier::external_body]
pub struct ExBtcNetwork(bitcoin::Network);

/// Relies on bitcoin's network type: the engine's network tag, variant for
/// variant.
#[verifier::external_body]
pub(crate) fn to_btc_network(network: BitcoinNetwork) -> (r: bitcoin::Network)
{
    match network { BitcoinNetwork::Mainnet => bitcoin::Network::Bitcoin, BitcoinNetwork::Testnet => bitcoin::Network::Testnet, BitcoinNetwork::Regtest => bitcoin::Network::Regtest }
}

/// Whether a string is a well-formed spaced rune name.
pub uninterp spec fn spaced_rune_valid(name: Seq<char>) -> bool;

/// The numeric rune value a valid spaced rune name encodes.
pub uninterp spec fn rune_value_of(name: Seq<char>) -> u128;

/// The spacer bits a valid spaced rune name encodes.
pub uninterp spec fn spacers_of(name: Seq<char>) -> u32;

/// A rune-name letter.
pub open spec fn is_rune_letter(c: char) -> bool {
    65 <= c as u32 && c as u32 <= 90
}

/// A spacer mark in a rune name: a full stop or a bullet.
pub open spec fn is_rune_spacer(c: char) -> bool {
    c as u32 == 46 || c as u32 == 0x2022
}

/// How many rune-name letters a string holds.
pub open spec fn rune_letter_count(s: Seq<char>) -> int
    decreases s.len(),
{
    if s.len() == 0 {
        0
    } else {
        rune_letter_count(s.drop_last()) + if is_rune_letter(s.last()) {
            1int
        } else {
            0int
        }
    }
}

/// No spacer mark of the name follows more than 32 letters, and the name is
/// not absurdly long: on such names the parser below cannot overflow its
/// 32-bit spacer flags.
pub open spec fn spacers_in_flag_range(name: Seq<char>) -> bool {
    &&& name.len() < 0x1_0000_0000
    &&& forall|i: int|
        0 <= i < name.len() && is_rune_spacer(#[trigger] name[i]) ==> rune_letter_count(
            name.subrange(0, i),
        ) <= 32
}

/// Relies on ordinals' SpacedRune parsing: the rune value and spacer bits
/// are deterministic functions of the name, and parsing fails exactly on
/// strings that are not well-formed spaced rune names. The parser shifts a
/// 32-bit flag by the count of letters before a spacer, so the `requires`
/// keeps that count in flag range; every other malformed name takes the
/// parser's error path.
#[verifier::external_body]
pub fn parse_spaced_rune(name: &String) -> (r: Option<(u128, u32)>)
    requires
        spacers_in_flag_range(name@),
    ensures
        r.is_some() == spaced_rune_valid(name@),
        r.is_some() ==> r.unwrap().0 == rune_value_of(name@),
        r.is_some() ==> r.unwrap().1 == spacers_of(name@),
{
    match name.parse::<ordinals::SpacedRune>() {
        Ok(sr) => Some((sr.rune.0, sr.spacers)),
        Err(_) => None,
    }
}

/// Whether an address string parses on a network.
pub uninterp spec fn address_valid(network: BitcoinNetwork, addr: Seq<char>) -> bool;

/// The locking script of a valid address on a network.
pub uninterp spec fn script_pubkey_of(network: BitcoinNetwork, addr: Seq<char>) -> Seq<u8>;

/// Relies on bitcoin::Address parsing and script_pubkey: the locking script
/// is a deterministic function of the address string and the network, and
/// parsing fails exactly on strings that are not addresses of that network.
#[verifier::external_body]
fn address_to_script_pubkey(network: BitcoinNetwork, addr: &String) -> (r: Option<Vec<u8>>)
    ensures
        r.is_some() == address_valid(network, addr@),
        r.is_some() ==> r.unwrap()@ == script_pubkey_of(network, addr@),
{
    let unchecked = match addr.parse::<bitcoin::Address<bitcoin::address::NetworkUnchecked>>() { Ok(a) => a, Err(_) => return None };
    match unchecked.require_network(to_btc_network(network)) { Ok(a) => Some(a.script_pubkey().into_bytes()), Err(_) => None }
}

/// The virtual size of the reveal transaction: one script-path input with
/// placeholder witness data of the largest schnorr-signature size, the leaf
/// script and the control block, plus the given outputs.
pub uninterp spec fn reveal_vsize_of(
    outs: Seq<(u64, Seq<u8>)>,
    script: Seq<u8>,
    control: Seq<u8>,
) -> u64;

/// Relies on bitcoin::Transaction::vsize: the virtual size of the assembled
/// placeholder reveal transaction is a deterministic function of its parts.
#[verifier::external_body]
fn measure_reveal_vsize(outputs: &Vec<DraftOutput>, script: &Vec<u8>, control: &Vec<u8>) -> (r: u64)
    ensures
        r == reveal_vsize_of(outs_view(outputs@), script@, control@),
{
    let mut witness = bitcoin::Witness::new();
    witness.push([0u8; 64]);
    witness.push(script.as_slice());
    witness.push(control.as_slice());
    let input = vec![bitcoin::TxIn { previous_output: bitcoin::OutPoint::null(), script_sig: bitcoin::ScriptBuf::new(), sequence: bitcoin::Sequence(5), witness }];
    let output = outputs.iter().map(|o| bitcoin::TxOut { value: bitcoin::Amount::from_sat(o.value), script_pubkey: bitcoin::ScriptBuf::from_bytes(o.script_pubkey.clone()) }).collect();
    bitcoin::Transaction { version: bitcoin::transaction::Version(2), lock_time: bitcoin::absolute::LockTime::ZERO, input, output }.vsize() as u64
}

/// The virtual size of a commit transaction with the given number of inputs,
/// each carrying a placeholder legacy unlocking script of the usual
/// signature-plus-key size, and the given outputs.
pub uninterp spec fn commit_vsize_of(n_inputs: u64, outs: Seq<(u64, Seq<u8>)>) -> u64;

/// Relies on bitcoin::Transaction::vsize: the virtual size of the assembled
/// placeholder commit transaction is a deterministic function of its parts.
#[verifier::external_body]
fn measure_commit_vsize(n_inputs: u64, outputs: &Vec<DraftOutput>) -> (r: u64)
    ensures
        r == commit_vsize_of(n_inputs, outs_view(outputs@)),
{
    let script_sig = bitcoin::ScriptBuf::from_bytes(vec![0u8; 107]);
    let input = (0..n_inputs).map(|_| bitcoin::TxIn { previous_output: bitcoin::OutPoint::null(), script_sig: script_sig.clone(), sequence: bitcoin::Sequence::MAX, witness: bitcoin::Witness::new() }).collect();
    let output = outputs.iter().map(|o| bitcoin::TxOut { value: bitcoin::Amount::from_sat(o.value), script_pubkey: bitcoin::ScriptBuf::from_bytes(o.script_pubkey.clone()) }).collect();
    bitcoin::Transaction { version: bitcoin::transaction::Version(2), lock_time: bitcoin::absolute::LockTime::ZERO, input, output }.vsize() as u64
}

/// The dust threshold of a locking script at the default dust relay fee.
pub uninterp spec fn dust_threshold_of(script: Seq<u8>) -> u64;

/// Relies on bitcoin::Script::minimal_non_dust: the dust threshold is a
/// deterministic function of the locking script at the default relay fee;
/// its internal arithmetic cannot overflow for scripts of sane length.
#[verifier::external_body]
fn minimal_non_dust(script: &Vec<u8>) -> (r: u64)
    requires
        script@.len() <= 10000,
    ensures
        r == dust_threshold_of(script@),
{
    bitcoin::ScriptBuf::from_bytes(script.clone()).minimal_non_dust().to_sat()
}

/// A null-data locking script, which can never be spent and is exempt from
/// the dust rule.
pub open spec fn is_op_return_spec(s: Seq<u8>) -> bool {
    s.len() > 0 && s[0] == 0x6au8
}

fn is_op_return(s: &Vec<u8>) -> (r: bool)
    ensures
        r == is_op_return_spec(s@),
{
    s.len() > 0 && s[0] == 0x6a
}

/// Largest-first order on output values.
pub open spec fn value_ge() -> spec_fn(u64, u64) -> bool {
    |a: u64, b: u64| a >= b
}

/// The values the candidates carry, in candidate order.
pub open spec fn values_of(s: Seq<Utxo>) -> Seq<u64> {
    s.map_values(|u: Utxo| u.value)
}

/// The candidate values in descending order: the canonical view the
/// selection walks.
pub open spec fn desc_values(s: Seq<Utxo>) -> Seq<u64> {
    values_of(s).sort_by(value_ge())
}

/// Sum of a sequence of values.
pub open spec fn sum64(s: Seq<u64>) -> int
    decreases s.len(),
{
    if s.len() == 0 {
        0
    } else {
        sum64(s.drop_last()) + s.last()
    }
}

/// The `k` most valuable candidates cover the target plus the commit
/// transaction's own fee at `k` inputs: the selection walks the
/// value-descending order, so no equally sized choice of candidates is
/// overlooked.
pub open spec fn topk_funds(
    cands: Seq<Utxo>,
    k: int,
    target: u64,
    outs: Seq<(u64, Seq<u8>)>,
    rate: u64,
) -> bool {
    sum64(desc_values(cands).subrange(0, k)) >= target + spec_commit_fee(k as u64, outs, rate)
}

/// Largest-first comparison of values is a total ordering.
pub proof fn lemma_value_ge_total()
    ensures
        vstd::relations::total_ordering(value_ge()),
{
    assert(vstd::relations::reflexive(value_ge())) by {
        assert(forall|x: u64| #[trigger] value_ge()(x, x));
    }
    assert(vstd::relations::antisymmetric(value_ge())) by {
        assert(forall|x: u64, y: u64|
            #[trigger] value_ge()(x, y) && #[trigger] value_ge()(y, x) ==> x == y);
    }
    assert(vstd::relations::transitive(value_ge())) by {
        assert(forall|x: u64, y: u64, z: u64|
            #[trigger] value_ge()(x, y) && #[trigger] value_ge()(y, z) ==> value_ge()(x, z));
    }
    assert(vstd::relations::strongly_connected(value_ge())) by {
        assert(forall|x: u64, y: u64| #[trigger] value_ge()(x, y) || #[trigger] value_ge()(y, x));
    }
}

/// Summing values is summing outputs.
pub proof fn lemma_sum64_values(s: Seq<Utxo>)
    ensures
        sum64(values_of(s)) == sum_plain(s),
    decreases s.len(),
{
    if s.len() > 0 {
        lemma_sum64_values(s.drop_last());
        assert(values_of(s.drop_last()) =~= values_of(s).drop_last());
        assert(values_of(s).last() == s.last().value);
    }
}

/// A sum of values is bounded by count times the largest single value.
pub proof fn lemma_sum64_bound(s: Seq<u64>)
    ensures
        0 <= sum64(s) <= s.len() * (u64::MAX as int),
    decreases s.len(),
{
    if s.len() > 0 {
        lemma_sum64_bound(s.drop_last());
    }
}

/// Reorders spend candidates by value, largest first; nothing is added or
/// lost.
fn sort_desc(v: Vec<Utxo>) -> (r: Vec<Utxo>)
    ensures
        r@.to_multiset() == v@.to_multiset(),
        values_of(r@).to_multiset() == values_of(v@).to_multiset(),
        r@.len() == v@.len(),
        forall|i: int, j: int| 0 <= i < j < r@.len() ==> (#[trigger] r@[i]).value >= (#[trigger] r@[j]).value,
{
    let ghost v0 = v@;
    let mut rest = v;
    let mut out: Vec<Utxo> = Vec::new();
    proof {
        broadcast use vstd::seq_lib::group_to_multiset_ensures;

        assert(out@.to_multiset().add(rest@.to_multiset()) =~= v0.to_multiset());
        assert(values_of(out@).to_multiset().add(values_of(rest@).to_multiset())
            =~= values_of(v0).to_multiset());
    }
    while rest.len() > 0
        invariant
            out@.to_multiset().add(rest@.to_multiset()) == v0.to_multiset(),
            values_of(out@).to_multiset().add(values_of(rest@).to_multiset()) == values_of(
                v0,
            ).to_multiset(),
            out@.len() + rest@.len() == v0.len(),
            forall|i: int, j: int|
                0 <= i < j < out@.len() ==> (#[trigger] out@[i]).value >= (
                #[trigger] out@[j]).value,
            forall|i: int, j: int|
                0 <= i < out@.len() && 0 <= j < rest@.len() ==> (#[trigger] out@[i]).value >= (
                #[trigger] rest@[j]).value,
        decreases rest@.len(),
    {
        let n = rest.len();
        let mut mi: usize = 0;
        let mut k: usize = 1;
        while k < n
            invariant
                n == rest@.len(),
                mi < n,
                k <= n,
                forall|t: int| 0 <= t < k ==> rest@[mi as int].value >= (#[trigger] rest@[t]).value,
            decreases n - k,
        {
            if rest[k].value > rest[mi].value {
                mi = k;
            }
            k += 1;
        }
        let ghost rest_before = rest@;
        let ghost out_before = out@;
        let x = rest.remove(mi);
        out.push(x);
        proof {
            broadcast use vstd::seq_lib::group_to_multiset_ensures;

            assert(rest@.to_multiset() =~= rest_before.to_multiset().remove(x));
            assert(out@.to_multiset() =~= out_before.to_multiset().insert(x));
            assert(out@.to_multiset().add(rest@.to_multiset()) =~= v0.to_multiset());
            assert(values_of(rest@) =~= values_of(rest_before).remove(mi as int));
            assert(values_of(rest_before)[mi as int] == x.value);
            assert(values_of(rest@).to_multiset() =~= values_of(rest_before).to_multiset().remove(
                x.value,
            ));
            assert(values_of(out@) =~= values_of(out_before).push(x.value));
            assert(values_of(out@).to_multiset() =~= values_of(out_before).to_multiset().insert(
                x.value,
            ));
            assert(values_of(out@).to_multiset().add(values_of(rest@).to_multiset())
                =~= values_of(v0).to_multiset());
        }
    }
    out
}

/// The reveal fee: virtual size times the rate, truncated per thousand
/// virtual bytes; none when the product leaves the representable range (the
/// reference computation would abort there).
pub open spec fn spec_reveal_fee(
    outs: Seq<(u64, Seq<u8>)>,
    script: Seq<u8>,
    control: Seq<u8>,
    rate: u64,
) -> Option<u64> {
    let v = reveal_vsize_of(outs, script, control);
    if v * rate <= u64::MAX {
        Some(((v * rate) / 1000) as u64)
    } else {
        None
    }
}

/// The commit transaction's own fee with `k` inputs: virtual size times the
/// rate, truncated per thousand virtual bytes.
pub open spec fn spec_commit_fee(k: u64, outs: Seq<(u64, Seq<u8>)>, rate: u64) -> int {
    (commit_vsize_of(k, outs) * rate) / 1000
}

/// Fee computation is deterministic: the estimated reveal fee is a function
/// of the output set, the leaf script, the control block and the rate alone,
/// so identical inputs give byte-identical fees; the same holds of the
/// commit fee for an input count.
pub proof fn lemma_fee_deterministic(
    outs1: Seq<(u64, Seq<u8>)>,
    outs2: Seq<(u64, Seq<u8>)>,
    script: Seq<u8>,
    control: Seq<u8>,
    rate: u64,
    k: u64,
)
    requires
        outs1 == outs2,
    ensures
        spec_reveal_fee(outs1, script, control, rate) == spec_reveal_fee(
            outs2,
            script,
            control,
            rate,
        ),
        spec_commit_fee(k, outs1, rate) == spec_commit_fee(k, outs2, rate),
{
}

/// Equal lengths, outpoints and values give equal plain-value sums.
pub proof fn lemma_sum_plain_pointwise(a: Seq<Utxo>, b: Seq<Utxo>)
    requires
        a.len() == b.len(),
        forall|k: int| 0 <= k < a.len() ==> (#[trigger] a[k]).value == b[k].value,
    ensures
        sum_plain(a) == sum_plain(b),
    decreases a.len(),
{
    if a.len() > 0 {
        lemma_sum_plain_pointwise(a.drop_last(), b.drop_last());
        assert(a.drop_last().len() == b.drop_last().len());
        assert(a[a.len() - 1].value == b[a.len() - 1].value);
    }
}

/// The total plain value of a set of outputs is bounded by count times the
/// largest single value.
pub proof fn lemma_sum_plain_bound(s: Seq<Utxo>)
    ensures
        sum_plain(s) <= s.len() * (u64::MAX as int),
    decreases s.len(),
{
    if s.len() > 0 {
        lemma_sum_plain_bound(s.drop_last());
    }
}

/// Assembles the unsigned reveal transaction from its outputs and the single
/// synthetic input (replaced with the real commit output once known), locked
/// by the required commit confirmations, and computes its fee from the
/// placeholder-witness virtual size.
pub fn build_reveal_transaction(
    control_block: &Vec<u8>,
    fee_per_vbytes: u64,
    output: Vec<DraftOutput>,
    input: Vec<Outpoint>,
    script: &Vec<u8>,
) -> (r: (DraftTransaction, Option<u64>))
    requires
        input@.len() == 1,
    ensures
        r.0.output@ == output@,
        r.0.input@.len() == 1,
        r.0.input@[0].previous_output == input@[0],
        r.0.input@[0].sequence == crate::queue::COMMIT_CONFIRMATIONS - 1,
        r.0.input@[0].script_sig@ == Seq::<u8>::empty(),
        r.0.input@[0].witness@.len() == 0,
        r.1 == spec_reveal_fee(outs_view(output@), script@, control_block@, fee_per_vbytes),
{
    let vsize = measure_reveal_vsize(&output, script, control_block);
    proof {
        assert((vsize as int) * (fee_per_vbytes as int) < 0x1_0000_0000_0000_0000_0000_0000_0000_0000)
            by (nonlinear_arith)
            requires
                vsize <= u64::MAX,
                fee_per_vbytes <= u64::MAX,
        {}
    }
    let product: u128 = (vsize as u128) * (fee_per_vbytes as u128);
    let fee: Option<u64> = if product <= u64::MAX as u128 {
        Some((product / 1000) as u64)
    } else {
        None
    };
    let mut inp = input;
    let op = inp.remove(0);
    let mut ins: Vec<DraftInput> = Vec::new();
    ins.push(
        DraftInput {
            previous_output: op,
            sequence: (crate::queue::COMMIT_CONFIRMATIONS - 1) as u32,
            script_sig: Vec::new(),
            witness: Vec::new(),
        },
    );
    (DraftTransaction { input: ins, output }, fee)
}

/// The output `u` describes one of the candidates: same outpoint and value.
pub open spec fn describes_candidate(u: Utxo, cs: Seq<Utxo>) -> bool {
    exists|m: int|
        0 <= m < cs.len() && outpoint_eq(u.outpoint, (#[trigger] cs[m]).outpoint) && u.value
            == cs[m].value
}

/// A value-permutation of candidates with unique outpoints keeps outpoints
/// unique, and every element describes one of the candidates.
proof fn lemma_perm_distinct_outpoints(sorted: Seq<Utxo>, cv: Seq<Utxo>, cs: Seq<Utxo>)
    requires
        sorted.to_multiset() == cv.to_multiset(),
        cv.len() == cs.len(),
        forall|m: int|
            0 <= m < cv.len() ==> outpoint_eq((#[trigger] cv[m]).outpoint, cs[m].outpoint)
                && cv[m].value == cs[m].value,
        plain_unique(cs),
    ensures
        plain_unique(sorted),
        forall|j: int|
            0 <= j < sorted.len() ==> describes_candidate(#[trigger] sorted[j], cs),
{
    broadcast use vstd::seq_lib::group_to_multiset_ensures;

    assert forall|j: int| 0 <= j < sorted.len() implies describes_candidate(
        #[trigger] sorted[j],
        cs,
    ) by {
        let x = sorted[j];
        assert(sorted.contains(x));
        assert(sorted.to_multiset().count(x) > 0);
        assert(cv.contains(x));
        let m = choose|m: int| 0 <= m < cv.len() && cv[m] == x;
        assert(outpoint_eq(sorted[j].outpoint, cs[m].outpoint) && sorted[j].value == cs[m].value);
    }
    assert forall|j1: int, j2: int| 0 <= j1 < j2 < sorted.len() implies !outpoint_eq(
        (#[trigger] sorted[j1]).outpoint,
        (#[trigger] sorted[j2]).outpoint,
    ) by {
        if outpoint_eq(sorted[j1].outpoint, sorted[j2].outpoint) {
            let x1 = sorted[j1];
            let x2 = sorted[j2];
            if x1 == x2 {
                let s2 = sorted.remove(j2);
                assert(s2.to_multiset() =~= sorted.to_multiset().remove(x2));
                assert(s2[j1] == sorted[j1]);
                assert(s2.contains(x1));
                assert(s2.to_multiset().count(x1) > 0);
                assert(sorted.to_multiset().count(x1) >= 2);
                assert(cv.to_multiset().count(x1) >= 2);
                assert(cv.contains(x1));
                let m1 = choose|m: int| 0 <= m < cv.len() && cv[m] == x1;
                let c2 = cv.remove(m1);
                assert(c2.to_multiset() =~= cv.to_multiset().remove(x1));
                assert(c2.to_multiset().count(x1) > 0);
                assert(c2.contains(x1));
                let m2p = choose|m: int| 0 <= m < c2.len() && c2[m] == x1;
                let m2: int = if m2p < m1 {
                    m2p
                } else {
                    m2p + 1
                };
                assert(cv[m2] == x1);
                assert(m2 != m1);
                assert(outpoint_eq(cs[m1].outpoint, cs[m2].outpoint));
                if m1 < m2 {
                    assert(!outpoint_eq(cs[m1].outpoint, cs[m2].outpoint));
                } else {
                    assert(!outpoint_eq(cs[m2].outpoint, cs[m1].outpoint));
                }
            } else {
                assert(sorted.contains(x1));
                assert(sorted.to_multiset().count(x1) > 0);
                assert(cv.contains(x1));
                let m1 = choose|m: int| 0 <= m < cv.len() && cv[m] == x1;
                assert(sorted.contains(x2));
                assert(sorted.to_multiset().count(x2) > 0);
                assert(cv.contains(x2));
                let m2 = choose|m: int| 0 <= m < cv.len() && cv[m] == x2;
                assert(m1 != m2);
                assert(outpoint_eq(cs[m1].outpoint, cs[m2].outpoint));
                if m1 < m2 {
                    assert(!outpoint_eq(cs[m1].outpoint, cs[m2].outpoint));
                } else {
                    assert(!outpoint_eq(cs[m2].outpoint, cs[m1].outpoint));
                }
            }
        }
    }
}

/// Builds the commit transaction: one output of exactly `target` locked by
/// `recipient`, funded by the fewest most-valuable plain outputs of the fee
/// payer that cover the target plus the commit transaction's own fee.
/// Rejects a below-dust target for a spendable script before reading the
/// ledger; reports insufficient funds exactly when no count of largest
/// candidates covers its own cost, touching nothing; on success the consumed
/// outputs leave the ledger.
pub fn build_commit_transaction_with_fee(
    manager: &mut UtxoManager,
    fee_payer: &String,
    recipient: Vec<u8>,
    fee_per_vbytes: u64,
    target: u64,
) -> (r: Result<(DraftTransaction, Vec<Utxo>), EtchError>)
    requires
        old(manager).wf(),
        recipient@.len() <= 10000,
    ensures
        final(manager).wf(),
        r.is_err() ==> *final(manager) == *old(manager),
        (r matches Err(EtchError::DustValue)) <==> (!is_op_return_spec(recipient@) && target
            < dust_threshold_of(recipient@)),
        (r matches Err(EtchError::InsufficientFunds)) <==> ((is_op_return_spec(recipient@)
            || target >= dust_threshold_of(recipient@)) && (forall|k: int|
            0 <= k <= old(manager).plain_of(fee_payer@).len() ==> !topk_funds(
                old(manager).plain_of(fee_payer@),
                k,
                target,
                seq![(target, recipient@)],
                fee_per_vbytes,
            ))),
        r.is_ok() || (r matches Err(EtchError::DustValue)) || (r matches Err(
            EtchError::InsufficientFunds,
        )),
        r matches Ok(p) ==> ({
            let cands = old(manager).plain_of(fee_payer@);
            let k = p.1@.len() as int;
            &&& outs_view(p.0.output@) == seq![(target, recipient@)]
            &&& 0 <= k <= cands.len()
            &&& topk_funds(cands, k, target, seq![(target, recipient@)], fee_per_vbytes)
            &&& sum_plain(p.1@) >= target + spec_commit_fee(
                k as u64,
                seq![(target, recipient@)],
                fee_per_vbytes,
            )
            &&& forall|j: int| 0 <= j < k ==> describes_candidate(#[trigger] p.1@[j], cands)
            &&& forall|j1: int, j2: int|
                0 <= j1 < j2 < k ==> !outpoint_eq(
                    (#[trigger] p.1@[j1]).outpoint,
                    (#[trigger] p.1@[j2]).outpoint,
                )
            &&& p.0.input@.len() == k
            &&& forall|j: int|
                0 <= j < k ==> outpoint_eq(
                    (#[trigger] p.0.input@[j]).previous_output,
                    p.1@[j].outpoint,
                ) && p.0.input@[j].script_sig@ == Seq::<u8>::empty()
            &&& final(manager).plain_of(fee_payer@) == plain_removed(cands, p.1@)
            &&& final(manager).runic_of(fee_payer@) == old(manager).runic_of(fee_payer@)
            &&& forall|a: Seq<char>|
                a != fee_payer@ ==> final(manager).plain_of(a) == old(manager).plain_of(a)
                    && final(manager).runic_of(a) == old(manager).runic_of(a)
        }),
{
    let ghost old_m = *old(manager);
    let ghost cands_spec = old(manager).plain_of(fee_payer@);
    if !is_op_return(&recipient) {
        let dust_value = minimal_non_dust(&recipient);
        if target < dust_value {
            return Err(EtchError::DustValue);
        }
    }
    let mut outv: Vec<DraftOutput> = Vec::new();
    outv.push(DraftOutput { value: target, script_pubkey: recipient });
    let ghost outs = outs_view(outv@);
    proof {
        assert(outs =~= seq![(target, recipient@)]);
    }
    let candidates = manager.get_plain_utxos(fee_payer);
    let ghost candsv = candidates@;
    let sorted = sort_desc(candidates);
    proof {
        broadcast use vstd::seq_lib::group_to_multiset_ensures;

        assert(values_of(candsv) =~= values_of(cands_spec));
        lemma_value_ge_total();
        values_of(cands_spec).lemma_sort_by_ensures(value_ge());
        assert(vstd::relations::sorted_by(values_of(sorted@), value_ge())) by {
            assert forall|i: int, j: int| 0 <= i < j < values_of(sorted@).len() implies
                #[trigger] value_ge()(values_of(sorted@)[i], values_of(sorted@)[j]) by {
                assert(sorted@[i].value >= sorted@[j].value);
            }
        }
        vstd::seq_lib::lemma_sorted_unique(values_of(sorted@), desc_values(cands_spec), value_ge());
        assert(values_of(sorted@) == desc_values(cands_spec));
    }
    let n = sorted.len();
    let mut k: usize = 0;
    let mut sum: u128 = 0;
    while k <= n
        invariant
            *manager == old_m,
            old_m.wf(),
            old_m == *old(manager),
            cands_spec == old_m.plain_of(fee_payer@),
            n == sorted@.len(),
            n == cands_spec.len(),
            sorted@.to_multiset() == candsv.to_multiset(),
            values_of(sorted@) == desc_values(cands_spec),
            forall|i: int, j: int|
                0 <= i < j < sorted@.len() ==> (#[trigger] sorted@[i]).value >= (
                #[trigger] sorted@[j]).value,
            candsv.len() == cands_spec.len(),
            forall|m: int|
                0 <= m < candsv.len() ==> outpoint_eq(
                    (#[trigger] candsv[m]).outpoint,
                    cands_spec[m].outpoint,
                ) && candsv[m].value == cands_spec[m].value,
            outs == seq![(target, recipient@)],
            outs == outs_view(outv@),
            outv@.len() == 1,
            outv@[0].value == target,
            outv@[0].script_pubkey@ == recipient@,
            is_op_return_spec(recipient@) || target >= dust_threshold_of(recipient@),
            k <= n,
            sum as int == sum64(desc_values(cands_spec).subrange(0, k as int)),
            forall|j: int|
                0 <= j < k ==> !topk_funds(cands_spec, j, target, outs, fee_per_vbytes),
        decreases n - k + 1,
    {
        let vsize = measure_commit_vsize(k as u64, &outv);
        proof {
            assert((vsize as int) * (fee_per_vbytes as int)
                < 0x1_0000_0000_0000_0000_0000_0000_0000_0000) by (nonlinear_arith)
                requires
                    vsize <= u64::MAX,
                    fee_per_vbytes <= u64::MAX,
            {}
        }
        let fee128: u128 = ((vsize as u128) * (fee_per_vbytes as u128)) / 1000;
        if sum >= (target as u128) + fee128 {
            proof {
                assert(fee128 as int == spec_commit_fee(k as u64, outs, fee_per_vbytes));
                assert(topk_funds(cands_spec, k as int, target, outs, fee_per_vbytes));
            }
            let ghost sortedv = sorted@;
            let mut selected = sorted;
            selected.truncate(k);
            proof {
                broadcast use vstd::seq_lib::group_to_multiset_ensures;

                assert(selected@ == sortedv.subrange(0, k as int));
                lemma_sum64_values(selected@);
                assert(values_of(selected@) =~= desc_values(cands_spec).subrange(0, k as int));
                assert(sum_plain(selected@) == sum64(
                    desc_values(cands_spec).subrange(0, k as int),
                ));
                assert(plain_unique(cands_spec)) by {
                    if s_has_book(old_m.books@, fee_payer@) {
                        let i = s_book_index(old_m.books@, fee_payer@);
                        assert(0 <= i < old_m.books@.len() && old_m.books@[i].addr@ == fee_payer@);
                        assert(book_wf(old_m.books@[i]));
                    }
                }
                lemma_perm_distinct_outpoints(sortedv, candsv, cands_spec);
                assert(forall|j: int| 0 <= j < k ==> selected@[j] == sortedv[j]);
            }
            manager.remove_bitcoin_utxos(fee_payer, &selected);
            let mut ins: Vec<DraftInput> = Vec::new();
            let mut j: usize = 0;
            while j < k
                invariant
                    j <= k,
                    k <= selected@.len(),
                    ins@.len() == j,
                    forall|m: int|
                        0 <= m < j ==> outpoint_eq(
                            (#[trigger] ins@[m]).previous_output,
                            selected@[m].outpoint,
                        ) && ins@[m].script_sig@ == Seq::<u8>::empty(),
                decreases k - j,
            {
                ins.push(
                    DraftInput {
                        previous_output: copy_outpoint(&selected[j].outpoint),
                        sequence: 0xffff_ffff,
                        script_sig: Vec::new(),
                        witness: Vec::new(),
                    },
                );
                j += 1;
            }
            return Ok((DraftTransaction { input: ins, output: outv }, selected));
        }
        if k == n {
            return Err(EtchError::InsufficientFunds);
        }
        let v = sorted[k].value;
        proof {
            lemma_sum64_bound(desc_values(cands_spec).subrange(0, k as int));
            assert(desc_values(cands_spec).subrange(0, k + 1).drop_last() =~= desc_values(
                cands_spec,
            ).subrange(0, k as int));
            assert(desc_values(cands_spec).subrange(0, k + 1).last() == desc_values(
                cands_spec,
            )[k as int]);
            assert(desc_values(cands_spec)[k as int] == values_of(sorted@)[k as int]);
        }
        sum = sum + (v as u128);
        k += 1;
    }
    proof {
        assert(false);
    }
    unreached()
}

/// The locking script of a pay-to-taproot output: witness version one and
/// the 32-byte tweaked output key.
pub open spec fn p2tr_script(output_key: Seq<u8>) -> Seq<u8> {
    seq![0x51u8, 0x20u8] + output_key
}

fn build_p2tr_script(output_key: &Vec<u8>) -> (r: Vec<u8>)
    ensures
        r@ == p2tr_script(output_key@),
{
    let mut out: Vec<u8> = Vec::new();
    out.push(0x51);
    out.push(0x20);
    let ghost head = out@;
    crate::script_build::append_bytes(&mut out, output_key);
    proof {
        assert(head =~= seq![0x51u8, 0x20u8]);
        assert(out@ =~= p2tr_script(output_key@));
    }
    out
}

/// The total value the reveal transaction's outputs carry: the fixed target
/// postage when there is a premine output, nothing otherwise (the protocol
/// message output is always zero-valued).
pub open spec fn reveal_postage_total(premine: u128) -> u64 {
    if premine > 0 {
        TARGET_POSTAGE
    } else {
        0
    }
}

/// The reveal transaction's outputs: the premine output first when there is
/// a premine, then the zero-value protocol-message output.
pub open spec fn reveal_outputs_spec(premine: u128, reveal_spk: Seq<u8>, msg: Seq<u8>) -> Seq<
    (u64, Seq<u8>),
> {
    if premine > 0 {
        seq![(TARGET_POSTAGE, reveal_spk), (0u64, msg)]
    } else {
        seq![(0u64, msg)]
    }
}

/// The encoded protocol message an etching asks for: no mint terms, and the
/// designated-output pointer set exactly when there is a premine.
pub open spec fn spec_etch_message(args: EtchingArgs) -> Seq<u8> {
    runestone_encoding(
        args.divisibility,
        args.premine,
        args.rune,
        args.spacers,
        args.symbol,
        args.turbo,
        if args.premine > 0 {
            Some(0u32)
        } else {
            None
        },
    )
}

/// Why an etching over the given spend candidates is rejected, if it is:
/// the checks run in this order, all before any network call.
pub open spec fn etch_rejection(config: Config, args: EtchingArgs, cands: Seq<Utxo>) -> Option<
    EtchError,
> {
    let net = config.bitcoin_network.unwrap();
    let pk = config.schnorr_public_key.unwrap().public_key;
    let xonly = pk@.subrange(1, 33);
    let script = reveal_script_spec(
        xonly,
        opt_view(args.content_type),
        opt_view(args.logo),
        args.rune,
    );
    let msg = spec_etch_message(args);
    let outs = reveal_outputs_spec(args.premine, script_pubkey_of(net, args.reveal_address@), msg);
    let fee_opt = spec_reveal_fee(
        outs,
        script,
        taproot_control_block(xonly, script),
        args.fee_per_vbytes,
    );
    let commit_spk = p2tr_script(taproot_output_key(xonly, script));
    let target = (fee_opt.unwrap() + reveal_postage_total(args.premine)) as u64;
    if !(pk@.len() == 33 && sec1_point_valid(pk@)) || !xonly_key_valid(xonly) {
        Some(EtchError::InvalidKey)
    } else if !address_valid(net, args.reveal_address@) {
        Some(EtchError::InvalidAddress)
    } else if msg.len() > MAX_STANDARD_OP_RETURN_SIZE {
        Some(EtchError::MessageTooLarge)
    } else if !(fee_opt.is_some() && fee_opt.unwrap() + reveal_postage_total(args.premine)
        <= u64::MAX) {
        Some(EtchError::FeeOverflow)
    } else if !is_op_return_spec(commit_spk) && target < dust_threshold_of(commit_spk) {
        Some(EtchError::DustValue)
    } else if forall|k: int|
        0 <= k <= cands.len() ==> !topk_funds(
            cands,
            k,
            target,
            seq![(target, commit_spk)],
            args.fee_per_vbytes,
        ) {
        Some(EtchError::InsufficientFunds)
    } else {
        None
    }
}

/// What a successful etching guarantees: the drafted pair is the etching
/// variant whose reveal transaction carries the premine output exactly when
/// the premine is positive, whose commit transaction funds the script-path
/// output of exactly the target from a covering prefix of the fee payer's
/// plain outputs, and whose selected outputs have left the ledger.
pub open spec fn etch_success_post(
    p: (TransactionType, (String, String)),
    old_m: UtxoManager,
    new_m: UtxoManager,
    net: BitcoinNetwork,
    xonly: Seq<u8>,
    script: Seq<u8>,
    outs: Seq<(u64, Seq<u8>)>,
    commit_spk: Seq<u8>,
    target: u64,
    args: EtchingArgs,
) -> bool {
    let cands = old_m.plain_of(args.fee_payer@);
    p.0 matches TransactionType::Etching {
        commit_tx_address,
        commit,
        reveal,
        fee_utxos,
        fee_payer,
    } && {
        let k = fee_utxos@.len() as int;
        &&& commit_tx_address@ == taproot_commit_address(net, xonly, script)
        &&& fee_payer@ == args.fee_payer@
        &&& outs_view(reveal.output@) == outs
        &&& reveal.output@.len() == (if args.premine > 0 {
            2int
        } else {
            1int
        })
        &&& reveal.input@.len() == 1
        &&& reveal.input@[0].sequence == crate::queue::COMMIT_CONFIRMATIONS - 1
        &&& outs_view(commit.output@) == seq![(target, commit_spk)]
        &&& 0 <= k <= cands.len()
        &&& topk_funds(cands, k, target, seq![(target, commit_spk)], args.fee_per_vbytes)
        &&& sum_plain(fee_utxos@) >= target + spec_commit_fee(
            k as u64,
            seq![(target, commit_spk)],
            args.fee_per_vbytes,
        )
        &&& commit.input@.len() == k
        &&& forall|j: int| 0 <= j < k ==> describes_candidate(#[trigger] fee_utxos@[j], cands)
        &&& forall|j1: int, j2: int|
            0 <= j1 < j2 < k ==> !outpoint_eq(
                (#[trigger] fee_utxos@[j1]).outpoint,
                (#[trigger] fee_utxos@[j2]).outpoint,
            )
        &&& new_m.plain_of(args.fee_payer@) == plain_removed(cands, fee_utxos@)
        &&& new_m.runic_of(args.fee_payer@) == old_m.runic_of(args.fee_payer@)
        &&& forall|a: Seq<char>|
            a != args.fee_payer@ ==> new_m.plain_of(a) == old_m.plain_of(a) && new_m.runic_of(a)
                == old_m.runic_of(a)
        &&& p.1.0@ == txid_display_of(tx_view(commit).0, tx_view(commit).1)
        &&& p.1.1@ == txid_display_of(tx_view(reveal).0, tx_view(reveal).1)
    }
}

/// Drafts the commit/reveal pair for an etching and consumes the selected
/// fee outputs from the ledger. Pure computation: validation errors, the
/// oversized-message rejection, the dust rejection and insufficient funds
/// are all detected here, before any network call, and leave the ledger
/// exactly as it was. On success the reveal transaction carries the premine
/// output exactly when the premine is positive, with the protocol message
/// pointing at it, and the commit transaction funds the script-path output
/// from the fee payer's plain outputs, which leave the ledger.
#[verifier::rlimit(100)]
#[verifier::spinoff_prover]
pub fn etch(manager: &mut UtxoManager, config: &Config, args: EtchingArgs) -> (r: Result<
    (TransactionType, (String, String)),
    EtchError,
>)
    requires
        old(manager).wf(),
        config.bitcoin_network.is_some(),
        config.schnorr_public_key.is_some(),
        args.content_type.is_some() ==> args.content_type.unwrap()@.len() < 0x1_0000_0000,
        args.logo.is_some() ==> args.logo.unwrap()@.len() < 0x1_0000_0000,
        forall|j: int|
            0 <= j < old(manager).plain_of(args.fee_payer@).len() ==> (#[trigger] old(
                manager,
            ).plain_of(args.fee_payer@)[j]).outpoint.txid@.len() == 32,
    ensures
        final(manager).wf(),
        r.is_err() ==> *final(manager) == *old(manager),
        ({
            let net = config.bitcoin_network.unwrap();
            let pk = config.schnorr_public_key.unwrap().public_key;
            let xonly = pk@.subrange(1, 33);
            let script = reveal_script_spec(
                xonly,
                opt_view(args.content_type),
                opt_view(args.logo),
                args.rune,
            );
            let msg = spec_etch_message(args);
            let outs = reveal_outputs_spec(
                args.premine,
                script_pubkey_of(net, args.reveal_address@),
                msg,
            );
            let fee_opt = spec_reveal_fee(
                outs,
                script,
                taproot_control_block(xonly, script),
                args.fee_per_vbytes,
            );
            let commit_spk = p2tr_script(taproot_output_key(xonly, script));
            let target = (fee_opt.unwrap() + reveal_postage_total(args.premine)) as u64;
            let rejection = etch_rejection(*config, args, old(manager).plain_of(args.fee_payer@));
            &&& (r matches Err(e) ==> rejection == Some(e))
            &&& (r.is_ok() <==> rejection.is_none())
            &&& (r matches Ok(p) ==> etch_success_post(
                p,
                *old(manager),
                *final(manager),
                net,
                xonly,
                script,
                outs,
                commit_spk,
                target,
                args,
            ))
        }),
{
    let pk = config.schnorr_public_key();
    if pk.public_key.len() != 33 {
        return Err(EtchError::InvalidKey);
    }
    let xonly = match parse_xonly_pubkey(&pk.public_key) {
        Some(x) => x,
        None => {
            return Err(EtchError::InvalidKey);
        },
    };
    let script = build_reveal_script(&xonly, &args.content_type, &args.logo, args.rune);
    let net = config.bitcoin_network();
    let (commit_tx_address, control_block, output_key) = match derive_taproot_commit(
        net,
        &xonly,
        &script,
    ) {
        Some(t) => t,
        None => {
            return Err(EtchError::InvalidKey);
        },
    };
    let reveal_spk = match address_to_script_pubkey(net, &args.reveal_address) {
        Some(s) => s,
        None => {
            return Err(EtchError::InvalidAddress);
        },
    };
    let pointer: Option<u32> = if args.premine > 0 {
        Some(0u32)
    } else {
        None
    };
    let msg = encipher_runestone(
        args.divisibility,
        args.premine,
        args.rune,
        args.spacers,
        args.symbol,
        args.turbo,
        pointer,
    );
    if msg.len() > MAX_STANDARD_OP_RETURN_SIZE {
        return Err(EtchError::MessageTooLarge);
    }
    let ghost reveal_spk_v = reveal_spk@;
    let ghost msg_v = msg@;
    let mut reveal_output: Vec<DraftOutput> = Vec::new();
    if args.premine > 0 {
        reveal_output.push(DraftOutput { value: TARGET_POSTAGE, script_pubkey: reveal_spk });
    }
    reveal_output.push(DraftOutput { value: 0, script_pubkey: msg });
    proof {
        assert(outs_view(reveal_output@) =~= reveal_outputs_spec(args.premine, reveal_spk_v, msg_v));
    }
    let ghost outs_v = outs_view(reveal_output@);
    let mut reveal_input: Vec<Outpoint> = Vec::new();
    let mut null_txid: Vec<u8> = Vec::new();
    let mut z: usize = 0;
    while z < 32
        invariant
            z <= 32,
            null_txid@.len() == z,
            forall|j: int| 0 <= j < z ==> null_txid@[j] == 0u8,
        decreases 32 - z,
    {
        null_txid.push(0u8);
        z += 1;
    }
    reveal_input.push(Outpoint { txid: null_txid, vout: 0xffff_ffff });
    let (reveal_txn, fee_opt) = build_reveal_transaction(
        &control_block,
        args.fee_per_vbytes,
        reveal_output,
        reveal_input,
        &script,
    );
    let reveal_fee = match fee_opt {
        Some(f) => f,
        None => {
            return Err(EtchError::FeeOverflow);
        },
    };
    let postage_total: u64 = if args.premine > 0 {
        TARGET_POSTAGE
    } else {
        0
    };
    if reveal_fee > u64::MAX - postage_total {
        return Err(EtchError::FeeOverflow);
    }
    let target = reveal_fee + postage_total;
    let commit_spk = build_p2tr_script(&output_key);
    let ghost commit_spk_v = commit_spk@;
    proof {
        assert(commit_spk_v == p2tr_script(taproot_output_key(xonly@, script@)));
    }
    let (commit_txn, fee_utxos) = match build_commit_transaction_with_fee(
        manager,
        &args.fee_payer,
        commit_spk,
        args.fee_per_vbytes,
        target,
    ) {
        Ok(p) => p,
        Err(e) => {
            return Err(e);
        },
    };
    proof {
        let pk_s = config.schnorr_public_key.unwrap().public_key;
        let xonly_s = pk_s@.subrange(1, 33);
        let script_s = reveal_script_spec(
            xonly_s,
            opt_view(args.content_type),
            opt_view(args.logo),
            args.rune,
        );
        assert(xonly@ == xonly_s);
        assert(script@ == script_s);
        assert(commit_spk_v == p2tr_script(taproot_output_key(xonly_s, script_s)));
        assert(msg_v == runestone_encoding(
            args.divisibility,
            args.premine,
            args.rune,
            args.spacers,
            args.symbol,
            args.turbo,
            if args.premine > 0 {
                Some(0u32)
            } else {
                None
            },
        ));
        assert(outs_v == reveal_outputs_spec(
            args.premine,
            script_pubkey_of(config.bitcoin_network.unwrap(), args.reveal_address@),
            msg_v,
        ));
        assert(Some(reveal_fee) == spec_reveal_fee(
            outs_v,
            script_s,
            taproot_control_block(xonly_s, script_s),
            args.fee_per_vbytes,
        ));
        assert(target == reveal_fee + reveal_postage_total(args.premine));
        assert(outs_view(commit_txn.output@) == seq![(target, commit_spk_v)]);
        assert(outs_view(reveal_txn.output@) == outs_v);
        assert(reveal_txn.output@.len() == (if args.premine > 0 {
            2int
        } else {
            1int
        }));
    }
    let commit_txid = compute_txid_hex(&commit_txn);
    let reveal_txid = compute_txid_hex(&reveal_txn);
    Ok(
        (
            TransactionType::Etching {
                commit_tx_address,
                commit: commit_txn,
                reveal: reveal_txn,
                fee_utxos,
                fee_payer: args.fee_payer,
            },
            (commit_txid, reveal_txid),
        ),
    )
}

} // verus!
