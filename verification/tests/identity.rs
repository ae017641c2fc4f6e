use rune_engine::addresses::{derive_addresses, principal_subaccount};
use rune_engine::config::{BitcoinNetwork, Config};
use rune_engine::memory::{memory_id_index, MemoryIds};
use rune_engine::token_type::TokenType;
use rune_engine::txn_handler::{
    account_to_derivation_path, build_p2pkh_script_sig, sec1_to_der, SubmittedTxidType,
};
use rune_engine::updater::RuneId;

// the generator point of secp256k1, compressed: a valid public key
const GEN_KEY: &str = "0279be667ef9dcbbac55a06295ce870b07029bfcdb2dce28d959f2815b16f81798";

#[test]
fn address_derivation_is_deterministic_and_matches_the_ledger_forms() {
    let own_id = vec![0u8, 0, 0, 0, 0, 0, 0, 7, 1, 1];
    let caller = vec![4u8, 4, 4, 4];
    let key = hex::decode(GEN_KEY).unwrap();
    let a1 = derive_addresses(&own_id, &caller, BitcoinNetwork::Regtest, &key);
    let a2 = derive_addresses(&own_id, &caller, BitcoinNetwork::Regtest, &key);
    assert_eq!(a1.icrc1_string, a2.icrc1_string);
    assert_eq!(a1.account_identifier_string, a2.account_identifier_string);
    assert_eq!(a1.bitcoin, a2.bitcoin);
    // the subaccount is the SHA3-256 digest of the principal's bytes
    let mut expected_sub = [0u8; 32];
    let mut hasher = tiny_keccak::Sha3::v256();
    tiny_keccak::Hasher::update(&mut hasher, &caller);
    tiny_keccak::Hasher::finalize(hasher, &mut expected_sub);
    assert_eq!(a1.icrc1.subaccount.as_ref().unwrap().as_slice(), &expected_sub);
    assert_eq!(principal_subaccount(&caller).as_slice(), &expected_sub);
    // the account identifier agrees with the ledger-types computation
    let principal = candid::Principal::from_slice(&own_id);
    let expected =
        ic_ledger_types::AccountIdentifier::new(&principal, &ic_ledger_types::Subaccount(expected_sub));
    assert_eq!(a1.account_identifier.as_slice(), expected.as_bytes());
    assert_eq!(a1.account_identifier_string, expected.to_hex());
    // and the textual account agrees with the ICRC-1 encoding
    let account = icrc_ledger_types::icrc1::account::Account {
        owner: principal,
        subaccount: Some(expected_sub),
    };
    assert_eq!(a1.icrc1_string, account.to_string());
    // the native-coin form is the legacy address of the signing key
    let pk = bitcoin::PublicKey::from_slice(&key).unwrap();
    let expected_btc =
        bitcoin::Address::p2pkh(&pk, bitcoin::Network::Regtest).to_string();
    assert_eq!(a1.bitcoin, expected_btc);
}

#[test]
fn off_curve_key_leaves_the_native_form_empty() {
    let own_id = vec![1u8, 2];
    let caller = vec![4u8];
    // x = 0 is not the abscissa of a curve point
    let mut bad = vec![0x02u8];
    bad.extend_from_slice(&[0u8; 32]);
    let a = derive_addresses(&own_id, &caller, BitcoinNetwork::Regtest, &bad);
    assert!(a.bitcoin.is_empty());
}

#[test]
fn keyname_follows_the_network() {
    let mut c = Config::empty();
    c.apply_init(BitcoinNetwork::Mainnet, &vec![1u8], None, None);
    assert_eq!(c.keyname(), "key_1");
    assert_eq!(c.get_timer_for_txn_submission(), 3_600);
    let mut c2 = Config::empty();
    c2.apply_init(BitcoinNetwork::Testnet, &vec![1u8], None, None);
    assert_eq!(c2.keyname(), "test_key_1");
    let mut c3 = Config::empty();
    c3.apply_init(BitcoinNetwork::Regtest, &vec![1u8], None, None);
    assert_eq!(c3.keyname(), "dfx_test_key");
    assert_eq!(c3.get_timer_for_txn_submission(), 60);
}

#[test]
fn init_falls_back_to_the_caller() {
    let mut c = Config::empty();
    c.apply_init(BitcoinNetwork::Regtest, &vec![5u8, 6], None, Some(vec![7u8]));
    assert_eq!(c.auth.as_ref().unwrap(), &vec![5u8, 6]);
    assert_eq!(c.commission_receiver(&vec![0u8]), vec![7u8]);
    let c2 = Config::empty();
    assert_eq!(c2.commission_receiver(&vec![3u8, 3]), vec![3u8, 3]);
}

#[test]
fn storage_regions_are_stable() {
    assert_eq!(memory_id_index(MemoryIds::Config), 1);
    assert_eq!(memory_id_index(MemoryIds::Runic), 2);
    assert_eq!(memory_id_index(MemoryIds::Bitcoin), 3);
    assert_eq!(memory_id_index(MemoryIds::Queue), 4);
}

#[test]
fn token_types_compare_by_rune() {
    let r = RuneId { block: 1, tx: 2 };
    assert_eq!(TokenType::Rune(r), TokenType::Rune(RuneId { block: 1, tx: 2 }));
    assert_ne!(TokenType::Bitcoin, TokenType::Rune(r));
}

#[test]
fn submitted_txids_compare_by_value() {
    let a = SubmittedTxidType::Bitcoin { txid: String::from("aa") };
    let b = SubmittedTxidType::Bitcoin { txid: String::from("aa") };
    let c = SubmittedTxidType::Bitcoin { txid: String::from("bb") };
    assert!(a == b);
    assert!(!(a == c));
}

#[test]
fn der_encoding_shields_high_bits() {
    // r starts with a set high bit, s does not
    let mut sig = vec![0x80u8; 32];
    sig.extend_from_slice(&[0x01u8; 32]);
    let der = sec1_to_der(&sig);
    // sequence, length, integer tag, 33-byte shielded r
    assert_eq!(der[0], 0x30);
    assert_eq!(der[1] as usize, der.len() - 2);
    assert_eq!(der[2], 0x02);
    assert_eq!(der[3], 33);
    assert_eq!(der[4], 0x00);
    assert_eq!(der[5], 0x80);
    // integer tag and plain 32-byte s
    assert_eq!(der[37], 0x02);
    assert_eq!(der[38], 32);
    assert_eq!(der[39], 0x01);
    assert_eq!(der.len(), 2 + 2 + 33 + 2 + 32);
}

#[test]
fn der_encoding_is_minimal() {
    // r is 31 zero bytes then 0x05: it trims to one byte; s trims to 0xff,
    // whose high bit demands the shielding zero
    let mut sig = vec![0u8; 31];
    sig.push(0x05);
    sig.extend_from_slice(&[0u8; 31]);
    sig.push(0xff);
    let der = sec1_to_der(&sig);
    assert_eq!(der, vec![0x30, 7, 0x02, 1, 0x05, 0x02, 2, 0x00, 0xff]);
    // the all-zero scalar keeps its single zero byte
    let zero_sig = vec![0u8; 64];
    let der0 = sec1_to_der(&zero_sig);
    assert_eq!(der0, vec![0x30, 6, 0x02, 1, 0x00, 0x02, 1, 0x00]);
}

#[test]
fn unlocking_script_pushes_signature_then_key() {
    let der = vec![0x30u8, 0x06, 0x02, 0x01, 0x01, 0x02, 0x01, 0x01];
    let key = vec![0x02u8; 33];
    let script = build_p2pkh_script_sig(&der, &key);
    // push of the signature with the sighash-all marker appended
    assert_eq!(script[0] as usize, der.len() + 1);
    assert_eq!(&script[1..der.len() + 1], der.as_slice());
    assert_eq!(script[der.len() + 1], 0x01);
    // then a push of the key
    assert_eq!(script[der.len() + 2] as usize, key.len());
    assert_eq!(&script[der.len() + 3..], key.as_slice());
}

#[test]
fn derivation_path_is_owner_then_subaccount() {
    let acc = rune_engine::addresses::IcrcAccount {
        owner: vec![1u8, 2, 3],
        subaccount: Some(vec![9u8; 32]),
    };
    let path = account_to_derivation_path(&acc);
    assert_eq!(path.len(), 2);
    assert_eq!(path[0], vec![1u8, 2, 3]);
    assert_eq!(path[1], vec![9u8; 32]);
    let acc2 = rune_engine::addresses::IcrcAccount { owner: vec![1u8], subaccount: None };
    let path2 = account_to_derivation_path(&acc2);
    assert!(path2[1].is_empty());
}
