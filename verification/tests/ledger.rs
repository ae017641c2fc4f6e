use rune_engine::updater::RuneId;
use rune_engine::utxo_manager::{Outpoint, RunicUtxo, Utxo, UtxoManager};

fn utxo(tag: u8, value: u64, height: u32) -> Utxo {
    let mut txid = vec![0u8; 32];
    txid[0] = tag;
    Utxo {
        outpoint: Outpoint { txid, vout: 0 },
        value,
        height,
    }
}

#[test]
fn empty_ledger_has_zero_balances() {
    let m = UtxoManager::new();
    let a = String::from("addr-1");
    assert_eq!(m.get_bitcoin_balance(&a), 0);
    assert_eq!(m.get_runestone_balance(&a, &RuneId { block: 1, tx: 1 }), 0);
    assert!(m.all_rune_with_balances(&a).is_empty());
}

#[test]
fn record_plain_sums_values() {
    let mut m = UtxoManager::new();
    let a = String::from("addr-1");
    m.record_bitcoin_utxos(&a, vec![utxo(1, 1_000, 5), utxo(2, 2_500, 6)]);
    assert_eq!(m.get_bitcoin_balance(&a), 3_500);
    let b = String::from("addr-2");
    assert_eq!(m.get_bitcoin_balance(&b), 0);
}

#[test]
fn record_plain_is_idempotent() {
    let mut m = UtxoManager::new();
    let a = String::from("addr-1");
    m.record_bitcoin_utxos(&a, vec![utxo(1, 1_000, 5), utxo(2, 2_500, 6)]);
    let once = m.get_bitcoin_balance(&a);
    m.record_bitcoin_utxos(&a, vec![utxo(1, 1_000, 5), utxo(2, 2_500, 6)]);
    assert_eq!(m.get_bitcoin_balance(&a), once);
    assert_eq!(m.get_plain_utxos(&a).len(), 2);
}

#[test]
fn duplicate_outpoints_are_unified() {
    let mut m = UtxoManager::new();
    let a = String::from("addr-1");
    m.record_bitcoin_utxos(&a, vec![utxo(1, 1_000, 5), utxo(1, 1_000, 5)]);
    assert_eq!(m.get_bitcoin_balance(&a), 1_000);
    assert_eq!(m.get_plain_utxos(&a).len(), 1);
}

#[test]
fn reclassify_moves_output_between_classes() {
    let mut m = UtxoManager::new();
    let a = String::from("addr-1");
    let rune = RuneId { block: 840_000, tx: 3 };
    m.record_bitcoin_utxos(&a, vec![utxo(1, 1_000, 5), utxo(2, 2_500, 6)]);
    assert!(!m.is_recorded_as_runic(&a, &utxo(1, 1_000, 5)));
    m.record_runic_utxos(
        &a,
        rune,
        vec![RunicUtxo { balance: 77, utxo: utxo(1, 1_000, 5) }],
    );
    // the outpoint left the plain class and its value left the plain balance
    assert!(m.is_recorded_as_runic(&a, &utxo(1, 1_000, 5)));
    assert_eq!(m.get_bitcoin_balance(&a), 2_500);
    // and the rune balance gained exactly the carried amount
    assert_eq!(m.get_runestone_balance(&a, &rune), 77);
}

#[test]
fn record_runic_is_idempotent_per_rune() {
    let mut m = UtxoManager::new();
    let a = String::from("addr-1");
    let rune = RuneId { block: 840_000, tx: 3 };
    m.record_runic_utxos(
        &a,
        rune,
        vec![RunicUtxo { balance: 77, utxo: utxo(1, 1_000, 5) }],
    );
    m.record_runic_utxos(
        &a,
        rune,
        vec![RunicUtxo { balance: 77, utxo: utxo(1, 1_000, 5) }],
    );
    assert_eq!(m.get_runestone_balance(&a, &rune), 77);
}

#[test]
fn one_output_may_carry_two_runes() {
    let mut m = UtxoManager::new();
    let a = String::from("addr-1");
    let r1 = RuneId { block: 840_000, tx: 3 };
    let r2 = RuneId { block: 840_001, tx: 9 };
    m.record_runic_utxos(&a, r1, vec![RunicUtxo { balance: 10, utxo: utxo(1, 546, 5) }]);
    m.record_runic_utxos(&a, r2, vec![RunicUtxo { balance: 20, utxo: utxo(1, 546, 5) }]);
    assert_eq!(m.get_runestone_balance(&a, &r1), 10);
    assert_eq!(m.get_runestone_balance(&a, &r2), 20);
    let all = m.all_rune_with_balances(&a);
    assert_eq!(all.len(), 2);
    assert!(all.contains(&(r1, 10)));
    assert!(all.contains(&(r2, 20)));
}

#[test]
fn remove_consumed_outputs() {
    let mut m = UtxoManager::new();
    let a = String::from("addr-1");
    m.record_bitcoin_utxos(&a, vec![utxo(1, 1_000, 5), utxo(2, 2_500, 6), utxo(3, 400, 7)]);
    m.remove_bitcoin_utxo(&a, &utxo(2, 2_500, 6));
    assert_eq!(m.get_bitcoin_balance(&a), 1_400);
    m.remove_bitcoin_utxos(&a, &vec![utxo(1, 1_000, 5), utxo(3, 400, 7)]);
    assert_eq!(m.get_bitcoin_balance(&a), 0);
    // removing an absent outpoint is a no-op
    m.remove_bitcoin_utxo(&a, &utxo(9, 1, 1));
    assert_eq!(m.get_bitcoin_balance(&a), 0);
}

#[test]
fn interleaved_spend_and_discovery_never_double_count() {
    // a spend consumes the output, a later discovery reclassifies the same
    // outpoint: it must end in exactly one class
    let mut m = UtxoManager::new();
    let a = String::from("addr-1");
    let rune = RuneId { block: 840_000, tx: 3 };
    m.record_bitcoin_utxos(&a, vec![utxo(1, 100_000, 5)]);
    m.remove_bitcoin_utxo(&a, &utxo(1, 100_000, 5));
    m.record_runic_utxos(
        &a,
        rune,
        vec![RunicUtxo { balance: 5, utxo: utxo(1, 100_000, 5) }],
    );
    assert_eq!(m.get_bitcoin_balance(&a), 0);
    assert_eq!(m.get_runestone_balance(&a, &rune), 5);
    // and recording it plain again does not resurrect it in the plain class
    m.record_bitcoin_utxos(&a, vec![utxo(1, 100_000, 5)]);
    assert_eq!(m.get_bitcoin_balance(&a), 0);
    assert!(m.is_recorded_as_runic(&a, &utxo(1, 100_000, 5)));
}

#[test]
fn balances_are_per_address() {
    let mut m = UtxoManager::new();
    let a = String::from("addr-1");
    let b = String::from("addr-2");
    m.record_bitcoin_utxos(&a, vec![utxo(1, 700, 5)]);
    m.record_bitcoin_utxos(&b, vec![utxo(2, 900, 5)]);
    assert_eq!(m.get_bitcoin_balance(&a), 700);
    assert_eq!(m.get_bitcoin_balance(&b), 900);
}
