use rune_engine::updater::{
    apply_page, keep_fetching, txid_to_string, ClassifiedUtxo, OrdError, RuneBalance, RuneId,
    TargetType,
};
use rune_engine::utxo_manager::{Outpoint, Utxo, UtxoManager};

fn utxo(tag: u8, value: u64, height: u32) -> Utxo {
    let mut txid = vec![0u8; 32];
    txid[0] = tag;
    Utxo { outpoint: Outpoint { txid, vout: 0 }, value, height }
}

#[test]
fn classifier_failure_records_output_as_plain() {
    // one plain output valued 100000 with no prior classification; the
    // classifier fails, so the page commits it as plain coin
    let mut m = UtxoManager::new();
    let a = String::from("addr-1");
    apply_page(
        &mut m,
        &a,
        vec![ClassifiedUtxo {
            utxo: utxo(1, 100_000, 50),
            runes: Err(OrdError::Overflow),
        }],
    );
    assert_eq!(m.get_bitcoin_balance(&a), 100_000);
    assert_eq!(m.get_plain_utxos(&a).len(), 1);
    // the balance target of 50000 is reached: the loop stops after one page
    assert!(!keep_fetching(
        &TargetType::Bitcoin { target: 50_000 },
        m.get_bitcoin_balance(&a),
        0,
        true,
        false,
    ));
}

#[test]
fn empty_classification_is_plain_too() {
    let mut m = UtxoManager::new();
    let a = String::from("addr-1");
    apply_page(
        &mut m,
        &a,
        vec![ClassifiedUtxo { utxo: utxo(1, 700, 50), runes: Ok(vec![]) }],
    );
    assert_eq!(m.get_bitcoin_balance(&a), 700);
}

#[test]
fn reported_balances_become_rune_records() {
    let mut m = UtxoManager::new();
    let a = String::from("addr-1");
    let r1 = RuneId { block: 840_000, tx: 3 };
    let r2 = RuneId { block: 840_001, tx: 9 };
    apply_page(
        &mut m,
        &a,
        vec![
            ClassifiedUtxo {
                utxo: utxo(1, 546, 50),
                runes: Ok(vec![
                    RuneBalance { id: r1, balance: 10 },
                    RuneBalance { id: r2, balance: 20 },
                ]),
            },
            ClassifiedUtxo { utxo: utxo(2, 5_000, 50), runes: Err(OrdError::Overflow) },
        ],
    );
    // the tokenized output carries both runes and no plain value
    assert_eq!(m.get_runestone_balance(&a, &r1), 10);
    assert_eq!(m.get_runestone_balance(&a, &r2), 20);
    assert!(m.is_recorded_as_runic(&a, &utxo(1, 546, 50)));
    // the failed lookup landed in the plain class
    assert_eq!(m.get_bitcoin_balance(&a), 5_000);
}

#[test]
fn page_commit_does_not_disturb_earlier_classification() {
    let mut m = UtxoManager::new();
    let a = String::from("addr-1");
    let r1 = RuneId { block: 840_000, tx: 3 };
    apply_page(
        &mut m,
        &a,
        vec![ClassifiedUtxo {
            utxo: utxo(1, 546, 50),
            runes: Ok(vec![RuneBalance { id: r1, balance: 10 }]),
        }],
    );
    apply_page(
        &mut m,
        &a,
        vec![ClassifiedUtxo { utxo: utxo(2, 900, 51), runes: Err(OrdError::Overflow) }],
    );
    assert_eq!(m.get_runestone_balance(&a, &r1), 10);
    assert_eq!(m.get_bitcoin_balance(&a), 900);
}

#[test]
fn stop_conditions_of_the_discovery_loop() {
    let runic = TargetType::Runic { runeid: RuneId { block: 1, tx: 1 }, target: 100 };
    // short of the target with a next page: keep going
    assert!(keep_fetching(&runic, 0, 99, true, false));
    // target reached: stop
    assert!(!keep_fetching(&runic, 0, 100, true, false));
    // no next page: stop
    assert!(!keep_fetching(&runic, 0, 0, false, false));
    // a repeated cursor is read as exhaustion: stop
    assert!(!keep_fetching(&runic, 0, 0, true, true));
    let plain = TargetType::Bitcoin { target: 1_000 };
    assert!(keep_fetching(&plain, 999, 0, true, false));
    assert!(!keep_fetching(&plain, 1_000, 0, true, false));
}

#[test]
fn txid_display_reverses_and_hex_encodes() {
    let txid: Vec<u8> = (1u8..=32).collect();
    let shown = txid_to_string(&txid);
    let mut reversed = txid.clone();
    reversed.reverse();
    assert_eq!(shown, hex::encode(&reversed));
    assert_eq!(
        txid_to_string(&vec![0u8; 32]),
        "0".repeat(64)
    );
}
