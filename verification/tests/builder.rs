use rune_engine::addresses::IcrcAccount;
use rune_engine::config::{BitcoinNetwork, Config, EcdsaPublicKey, SchnorrPublicKey};
use rune_engine::etch::{
    build_commit_transaction_with_fee, build_reveal_transaction, etch, parse_spaced_rune,
    EtchError, EtchingArgs, TARGET_POSTAGE,
};
use rune_engine::transaction::DraftOutput;
use rune_engine::txn_handler::TransactionType;
use rune_engine::utxo_manager::{Outpoint, Utxo, UtxoManager};

// the generator point of secp256k1, compressed: a valid public key
const GEN_X: &str = "79be667ef9dcbbac55a06295ce870b07029bfcdb2dce28d959f2815b16f81798";

fn valid_pubkey() -> Vec<u8> {
    let mut k = vec![0x02u8];
    k.extend_from_slice(&hex::decode(GEN_X).unwrap());
    k
}

fn test_config() -> Config {
    let mut c = Config::empty();
    c.apply_init(BitcoinNetwork::Regtest, &vec![9u8; 4], None, None);
    c.set_public_keys(
        EcdsaPublicKey { public_key: valid_pubkey(), chain_code: vec![0u8; 32] },
        SchnorrPublicKey { public_key: valid_pubkey(), chain_code: vec![0u8; 32] },
    );
    c
}

fn regtest_address() -> String {
    let secp = bitcoin::key::Secp256k1::new();
    let pk = bitcoin::PublicKey::from_slice(&valid_pubkey()).unwrap();
    let xonly: bitcoin::XOnlyPublicKey = pk.into();
    bitcoin::Address::p2tr(&secp, xonly, None, bitcoin::Network::Regtest).to_string()
}

fn funding_utxo(tag: u8, value: u64) -> Utxo {
    let mut txid = vec![0u8; 32];
    txid[0] = tag;
    Utxo { outpoint: Outpoint { txid, vout: 1 }, value, height: 100 }
}

fn base_args(premine: u128, fee_per_vbytes: u64) -> EtchingArgs {
    EtchingArgs {
        reveal_address: regtest_address(),
        logo: Some(vec![7u8; 600]),
        content_type: Some(b"image/png".to_vec()),
        rune: 99_246_114_928_149_462,
        spacers: 0b10,
        premine,
        divisibility: 2,
        symbol: Some('R'),
        turbo: true,
        fee_payer: String::from("payer-addr"),
        fee_payer_account: IcrcAccount { owner: vec![9u8; 4], subaccount: None },
        postage: None,
        fee_per_vbytes,
    }
}

fn to_bitcoin_tx(t: &rune_engine::transaction::DraftTransaction) -> bitcoin::Transaction {
    bitcoin::Transaction {
        version: bitcoin::transaction::Version(2),
        lock_time: bitcoin::absolute::LockTime::ZERO,
        input: t
            .input
            .iter()
            .map(|i| bitcoin::TxIn {
                previous_output: bitcoin::OutPoint {
                    txid: <bitcoin::Txid as bitcoin::hashes::Hash>::from_slice(
                        &i.previous_output.txid,
                    )
                    .unwrap(),
                    vout: i.previous_output.vout,
                },
                script_sig: bitcoin::ScriptBuf::from_bytes(i.script_sig.clone()),
                sequence: bitcoin::Sequence(i.sequence),
                witness: bitcoin::Witness::from_slice(&i.witness),
            })
            .collect(),
        output: t
            .output
            .iter()
            .map(|o| bitcoin::TxOut {
                value: bitcoin::Amount::from_sat(o.value),
                script_pubkey: bitcoin::ScriptBuf::from_bytes(o.script_pubkey.clone()),
            })
            .collect(),
    }
}

fn decipher(outputs: &[rune_engine::transaction::DraftOutput]) -> ordinals::Runestone {
    let tx = bitcoin::Transaction {
        version: bitcoin::transaction::Version(2),
        lock_time: bitcoin::absolute::LockTime::ZERO,
        input: vec![],
        output: outputs
            .iter()
            .map(|o| bitcoin::TxOut {
                value: bitcoin::Amount::from_sat(o.value),
                script_pubkey: bitcoin::ScriptBuf::from_bytes(o.script_pubkey.clone()),
            })
            .collect(),
    };
    match ordinals::Runestone::decipher(&tx) {
        Some(ordinals::Artifact::Runestone(rs)) => rs,
        other => panic!("expected a decipherable runestone, got {:?}", other),
    }
}

#[test]
fn etch_with_premine_has_pointer_and_postage_output() {
    let mut m = UtxoManager::new();
    let payer = String::from("payer-addr");
    m.record_bitcoin_utxos(&payer, vec![funding_utxo(1, 100_000_000)]);
    let config = test_config();
    let (txn, (commit_txid, reveal_txid)) =
        etch(&mut m, &config, base_args(21_000_000, 2_000)).unwrap();
    match txn {
        TransactionType::Etching { commit, reveal, fee_utxos, commit_tx_address, fee_payer } => {
            // exactly one premine output carrying the target postage, then the message
            assert_eq!(reveal.output.len(), 2);
            assert_eq!(reveal.output[0].value, TARGET_POSTAGE);
            assert_eq!(reveal.output[1].value, 0);
            assert_eq!(reveal.output[1].script_pubkey[0], 0x6a);
            assert_eq!(reveal.output[1].script_pubkey[1], 0x5d);
            let rs = decipher(&reveal.output);
            assert_eq!(rs.pointer, Some(0));
            let e = rs.etching.unwrap();
            assert_eq!(e.premine, Some(21_000_000));
            assert_eq!(e.rune, Some(ordinals::Rune(99_246_114_928_149_462)));
            assert_eq!(e.divisibility, Some(2));
            assert_eq!(e.spacers, Some(0b10));
            assert_eq!(e.symbol, Some('R'));
            assert!(e.turbo);
            assert!(e.terms.is_none());
            // the reveal spends one synthetic input gated by the commit maturity
            assert_eq!(reveal.input.len(), 1);
            assert_eq!(reveal.input[0].sequence, 5);
            // the commit funds exactly the reveal fee plus the postage
            assert_eq!(commit.output.len(), 1);
            assert!(commit.output[0].value >= TARGET_POSTAGE);
            assert_eq!(fee_utxos.len(), 1);
            assert_eq!(commit.input.len(), 1);
            assert_eq!(fee_payer, payer);
            assert!(commit_tx_address.starts_with("bcrt1p"));
            // the selected funding left the ledger
            assert_eq!(m.get_bitcoin_balance(&payer), 0);
        },
        _ => panic!("expected the etching variant"),
    }
    assert_eq!(commit_txid.len(), 64);
    assert_eq!(reveal_txid.len(), 64);
    assert_ne!(commit_txid, reveal_txid);
}

#[test]
fn etch_without_premine_has_single_message_output() {
    let mut m = UtxoManager::new();
    let payer = String::from("payer-addr");
    m.record_bitcoin_utxos(&payer, vec![funding_utxo(1, 100_000_000)]);
    let config = test_config();
    let (txn, _ids) = etch(&mut m, &config, base_args(0, 2_000)).unwrap();
    match txn {
        TransactionType::Etching { reveal, commit, .. } => {
            assert_eq!(reveal.output.len(), 1);
            assert_eq!(reveal.output[0].value, 0);
            let rs = decipher(&reveal.output);
            assert_eq!(rs.pointer, None);
            assert_eq!(rs.etching.unwrap().premine, Some(0));
            // without a premine output the commit funds the reveal fee alone,
            // which at this rate sits far below the target postage
            assert!(commit.output[0].value > 0);
            assert!(commit.output[0].value < TARGET_POSTAGE);
        },
        _ => panic!("expected the etching variant"),
    }
}

#[test]
fn etch_rejects_insufficient_funds_and_leaves_ledger_alone() {
    let mut m = UtxoManager::new();
    let payer = String::from("payer-addr");
    m.record_bitcoin_utxos(&payer, vec![funding_utxo(1, 50)]);
    let config = test_config();
    let r = etch(&mut m, &config, base_args(1, 2_000));
    assert_eq!(r.err().unwrap(), EtchError::InsufficientFunds);
    assert_eq!(m.get_bitcoin_balance(&payer), 50);
}

#[test]
fn etch_rejects_invalid_reveal_address() {
    let mut m = UtxoManager::new();
    let config = test_config();
    let mut args = base_args(1, 2_000);
    args.reveal_address = String::from("not-an-address");
    assert_eq!(etch(&mut m, &config, args).err().unwrap(), EtchError::InvalidAddress);
}

#[test]
fn etch_rejects_key_off_the_curve() {
    let mut m = UtxoManager::new();
    let mut config = test_config();
    // x = 0 is not the abscissa of a curve point
    config.schnorr_public_key = Some(SchnorrPublicKey {
        public_key: vec![0x02u8; 1].into_iter().chain(vec![0u8; 32]).collect(),
        chain_code: vec![0u8; 32],
    });
    assert_eq!(
        etch(&mut m, &config, base_args(1, 2_000)).err().unwrap(),
        EtchError::InvalidKey
    );
}

#[test]
fn etch_rejects_fee_overflow() {
    let mut m = UtxoManager::new();
    let payer = String::from("payer-addr");
    m.record_bitcoin_utxos(&payer, vec![funding_utxo(1, 100_000_000)]);
    let config = test_config();
    let r = etch(&mut m, &config, base_args(1, u64::MAX));
    assert_eq!(r.err().unwrap(), EtchError::FeeOverflow);
    assert_eq!(m.get_bitcoin_balance(&payer), 100_000_000);
}

#[test]
fn commit_builder_rejects_dust_target() {
    let mut m = UtxoManager::new();
    let payer = String::from("payer-addr");
    m.record_bitcoin_utxos(&payer, vec![funding_utxo(1, 100_000_000)]);
    // a pay-to-taproot script with a below-dust target
    let mut spk = vec![0x51u8, 0x20u8];
    spk.extend_from_slice(&hex::decode(GEN_X).unwrap());
    let r = build_commit_transaction_with_fee(&mut m, &payer, spk, 2_000, 100);
    match r {
        Err(EtchError::DustValue) => {},
        other => panic!("expected the dust rejection, got {:?}", other.is_ok()),
    }
    // the rejection mutated nothing
    assert_eq!(m.get_bitcoin_balance(&payer), 100_000_000);
}

#[test]
fn commit_builder_funds_exactly_one_recipient_output() {
    let mut m = UtxoManager::new();
    let payer = String::from("payer-addr");
    m.record_bitcoin_utxos(&payer, vec![funding_utxo(1, 40_000), funding_utxo(2, 40_000)]);
    let mut spk = vec![0x51u8, 0x20u8];
    spk.extend_from_slice(&hex::decode(GEN_X).unwrap());
    let (txn, consumed) =
        build_commit_transaction_with_fee(&mut m, &payer, spk.clone(), 2_000, 30_000).unwrap();
    assert_eq!(txn.output.len(), 1);
    assert_eq!(txn.output[0].value, 30_000);
    assert_eq!(txn.output[0].script_pubkey, spk);
    assert_eq!(txn.input.len(), consumed.len());
    let funded: u64 = consumed.iter().map(|u| u.value).sum();
    assert!(funded >= 30_000);
    assert_eq!(m.get_bitcoin_balance(&payer), 80_000 - funded);
}

#[test]
fn returned_txids_match_the_drafted_transactions() {
    let mut m = UtxoManager::new();
    let payer = String::from("payer-addr");
    m.record_bitcoin_utxos(&payer, vec![funding_utxo(1, 100_000_000)]);
    let config = test_config();
    let (txn, (commit_txid, reveal_txid)) =
        etch(&mut m, &config, base_args(5, 2_000)).unwrap();
    match txn {
        TransactionType::Etching { commit, reveal, .. } => {
            let expected_commit = to_bitcoin_tx(&commit).compute_txid().to_string();
            let expected_reveal = to_bitcoin_tx(&reveal).compute_txid().to_string();
            assert_eq!(commit_txid, expected_commit);
            assert_eq!(reveal_txid, expected_reveal);
        },
        _ => panic!("expected the etching variant"),
    }
}

#[test]
fn rune_names_parse_to_values_and_spacers() {
    // the crate under test must agree with the ordinals parser itself
    let direct: ordinals::SpacedRune = "A\u{2022}B.C".parse().unwrap();
    let (value, spacers) = parse_spaced_rune(&String::from("A\u{2022}B.C")).unwrap();
    assert_eq!(value, direct.rune.0);
    assert_eq!(spacers, direct.spacers);
    // a trailing spacer is rejected without panicking
    assert!(parse_spaced_rune(&String::from("AB\u{2022}")).is_none());
    // lower-case names are not rune names
    assert!(parse_spaced_rune(&String::from("ab")).is_none());
}

#[test]
fn selection_prefers_the_most_valuable_outputs() {
    // a small output precedes a large one in the ledger; the commit must
    // still fund from the large one alone
    let mut m = UtxoManager::new();
    let payer = String::from("payer-addr");
    m.record_bitcoin_utxos(&payer, vec![funding_utxo(1, 600), funding_utxo(2, 100_000)]);
    let mut spk = vec![0x51u8, 0x20u8];
    spk.extend_from_slice(&hex::decode(GEN_X).unwrap());
    let (txn, consumed) =
        build_commit_transaction_with_fee(&mut m, &payer, spk, 2_000, 50_000).unwrap();
    assert_eq!(consumed.len(), 1);
    assert_eq!(consumed[0].value, 100_000);
    assert_eq!(txn.input.len(), 1);
    // the small output stays spendable
    assert_eq!(m.get_bitcoin_balance(&payer), 600);
}

#[test]
fn reveal_fee_is_deterministic_and_size_based() {
    let control = vec![0xc0u8; 33];
    let script = vec![0xacu8; 40];
    let outs = || vec![DraftOutput { value: 0, script_pubkey: vec![0x6au8, 0x5d, 0x01, 0x02] }];
    let ins = || {
        vec![Outpoint { txid: vec![0u8; 32], vout: u32::MAX }]
    };
    let (_t1, f1) = build_reveal_transaction(&control, 1_000, outs(), ins(), &script);
    let (_t2, f2) = build_reveal_transaction(&control, 1_000, outs(), ins(), &script);
    // identical parts give a byte-identical fee
    assert_eq!(f1, f2);
    // at one satoshi per virtual byte the fee equals the virtual size, which
    // for this shape is well above fifty bytes
    assert!(f1.unwrap() > 50);
    // and the fee scales with the rate
    let (_t3, f3) = build_reveal_transaction(&control, 2_000, outs(), ins(), &script);
    assert_eq!(f3.unwrap(), f1.unwrap() * 2);
}
