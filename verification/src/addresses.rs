//! Address derivation: maps an opaque principal identity to its equivalent
//! address representations. Derivation is deterministic — the same identity
//! always yields the same bundle — and never persisted.

use vstd::prelude::*;

use crate::config::BitcoinNetwork;

verus! {

/// An ICRC-1 ledger account: the owning principal's bytes and an optional
/// 32-byte subaccount.
pub struct IcrcAccount {
    pub owner: Vec<u8>,
    pub subaccount: Option<Vec<u8>>,
}

/// The bundle of equivalent addresses derived for one identity.
pub struct Addresses {
    pub icrc1: IcrcAccount,
    pub icrc1_string: String,
    pub account_identifier: Vec<u8>,
    pub account_identifier_string: String,
    pub bitcoin: String,
}

/// The SHA3-256 digest of a byte string.
pub uninterp spec fn sha3_256_of(data: Seq<u8>) -> Seq<u8>;

/// Relies on tiny_keccak's SHA3-256: the 32-byte digest is a pure function
/// of the input bytes.
#[verifier::external_body]
fn sha3_256(data: &Vec<u8>) -> (r: Vec<u8>)
    ensures
        r@ == sha3_256_of(data@),
        r@.len() == 32,
{
    let mut hash = [0u8; 32];
    let mut hasher = tiny_keccak::Sha3::v256();
    tiny_keccak::Hasher::update(&mut hasher, data.as_slice());
    tiny_keccak::Hasher::finalize(hasher, &mut hash);
    hash.to_vec()
}

/// The 32-byte ledger account identifier (4-byte checksum + 28-byte digest)
/// of an owner and subaccount.
pub uninterp spec fn account_identifier_of(owner: Seq<u8>, subaccount: Seq<u8>) -> Seq<u8>;

/// The hexadecimal display form of the ledger account identifier.
pub uninterp spec fn account_identifier_hex_of(owner: Seq<u8>, subaccount: Seq<u8>) -> Seq<char>;

/// Relies on ic_ledger_types::AccountIdentifier::new and to_hex: both the
/// 32-byte identifier and its hex form are pure functions of the owner
/// principal and the subaccount. A principal is at most 29 bytes.
#[verifier::external_body]
fn account_identifier_parts(owner: &Vec<u8>, subaccount: &Vec<u8>) -> (r: (Vec<u8>, String))
    requires
        owner@.len() <= 29,
        subaccount@.len() == 32,
    ensures
        r.0@ == account_identifier_of(owner@, subaccount@),
        r.0@.len() == 32,
        r.1@ == account_identifier_hex_of(owner@, subaccount@),
{
    let principal = candid::Principal::from_slice(owner.as_slice());
    let mut sub = [0u8; 32];
    sub.copy_from_slice(subaccount.as_slice());
    let id = ic_ledger_types::AccountIdentifier::new(&principal, &ic_ledger_types::Subaccount(sub));
    (id.as_bytes().to_vec(), id.to_hex())
}

/// The subaccount bytes an optional subaccount holds.
pub open spec fn opt_bytes_view(o: Option<Vec<u8>>) -> Option<Seq<u8>> {
    match o {
        Some(s) => Some(s@),
        None => None,
    }
}

/// The ICRC-1 textual form of an account.
pub uninterp spec fn icrc1_account_text_of(owner: Seq<u8>, subaccount: Option<Seq<u8>>) -> Seq<
    char,
>;

/// Relies on the Display form of icrc_ledger_types' Account: the ICRC-1
/// textual encoding is a pure function of the owner principal and the
/// subaccount. A principal is at most 29 bytes.
#[verifier::external_body]
fn icrc1_account_text(owner: &Vec<u8>, subaccount: &Option<Vec<u8>>) -> (r: String)
    requires
        owner@.len() <= 29,
        subaccount.is_some() ==> subaccount.unwrap()@.len() == 32,
    ensures
        r@ == icrc1_account_text_of(owner@, opt_bytes_view(*subaccount)),
{
    let owner_p = candid::Principal::from_slice(owner.as_slice());
    let sub = subaccount.as_ref().map(|s| {
        let mut a = [0u8; 32];
        a.copy_from_slice(s.as_slice());
        a
    });
    let account = icrc_ledger_types::icrc1::account::Account { owner: owner_p, subaccount: sub };
    account.to_string()
}

/// The subaccount a principal deposits under: the SHA3-256 digest of its
/// bytes, the path component the signer also derives by.
pub fn principal_subaccount(principal: &Vec<u8>) -> (r: Vec<u8>)
    ensures
        r@ == sha3_256_of(principal@),
        r@.len() == 32,
{
    sha3_256(principal)
}

/// The legacy pay-to-pubkey-hash address of a public key on a network.
pub uninterp spec fn p2pkh_address_of(network: BitcoinNetwork, pubkey: Seq<u8>) -> Seq<char>;

/// Relies on bitcoin::PublicKey::from_slice and Address::p2pkh: the address
/// is a deterministic function of the public key and the network, and the
/// 33-byte parse fails exactly off the curve.
#[verifier::external_body]
fn p2pkh_address(network: BitcoinNetwork, pubkey: &Vec<u8>) -> (r: Option<String>)
    requires
        pubkey@.len() == 33,
    ensures
        r.is_some() == crate::etch::sec1_point_valid(pubkey@),
        r.is_some() ==> r.unwrap()@ == p2pkh_address_of(network, pubkey@),
{
    let pk = match bitcoin::PublicKey::from_slice(pubkey.as_slice()) {
        Ok(k) => k,
        Err(_) => return None,
    };
    Some(bitcoin::Address::p2pkh(&pk, crate::etch::to_btc_network(network)).to_string())
}

/// Derives the address bundle of a principal: its subaccount under the
/// canister's own account is the SHA3-256 digest of the principal's bytes,
/// the native-coin form is the pay-to-pubkey-hash address of the account's
/// derived signing key, and every representation is a pure function of those
/// inputs (an off-curve key leaves the native-coin form empty).
pub fn derive_addresses(
    own_id: &Vec<u8>,
    principal: &Vec<u8>,
    network: BitcoinNetwork,
    btc_pubkey: &Vec<u8>,
) -> (r: Addresses)
    requires
        own_id@.len() <= 29,
        btc_pubkey@.len() == 33,
    ensures
        r.icrc1.owner@ == own_id@,
        r.icrc1.subaccount.is_some(),
        r.icrc1.subaccount.unwrap()@ == sha3_256_of(principal@),
        r.icrc1_string@ == icrc1_account_text_of(own_id@, Some(sha3_256_of(principal@))),
        r.account_identifier@ == account_identifier_of(own_id@, sha3_256_of(principal@)),
        r.account_identifier_string@ == account_identifier_hex_of(
            own_id@,
            sha3_256_of(principal@),
        ),
        r.bitcoin@ == (if crate::etch::sec1_point_valid(btc_pubkey@) {
            p2pkh_address_of(network, btc_pubkey@)
        } else {
            Seq::<char>::empty()
        }),
{
    let sub = sha3_256(principal);
    let (aid, aid_hex) = account_identifier_parts(own_id, &sub);
    let sub_opt: Option<Vec<u8>> = Some(sub);
    let icrc1_string = icrc1_account_text(own_id, &sub_opt);
    let bitcoin: String = match p2pkh_address(network, btc_pubkey) {
        Some(a) => a,
        None => String::new(),
    };
    Addresses {
        icrc1: IcrcAccount {
            owner: vstd::slice::slice_to_vec(own_id.as_slice()),
            subaccount: sub_opt,
        },
        icrc1_string,
        account_identifier: aid,
        account_identifier_string: aid_hex,
        bitcoin,
    }
}

} // verus!
