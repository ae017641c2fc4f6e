use rune_engine::queue::{
    evaluate_tick, ScheduledState, ScheduledTransaction, TickAction, COMMIT_CONFIRMATIONS,
};
use rune_engine::transaction::DraftTransaction;
use rune_engine::utxo_manager::{Outpoint, Utxo};

fn empty_reveal() -> DraftTransaction {
    DraftTransaction { input: vec![], output: vec![] }
}

fn record(timer: u64) -> ScheduledTransaction {
    ScheduledTransaction {
        txn: empty_reveal(),
        commit_tx_address: String::from("bcrt1p-commit"),
        timer_id: timer,
    }
}

fn utxo_at_height(height: u32) -> Utxo {
    Utxo { outpoint: Outpoint { txid: vec![0u8; 32], vout: 0 }, value: 10_000, height }
}

#[test]
fn identifiers_are_fresh_and_monotonic() {
    let mut s = ScheduledState::new();
    let a = s.get_id();
    let b = s.get_id();
    assert_eq!(a, 0);
    assert_eq!(b, 1);
    assert!(!s.has_txn(a));
    s.record_txn(a, record(11));
    assert!(s.has_txn(a));
    assert!(!s.has_txn(b));
}

#[test]
fn rearm_tick_keeps_the_same_timer() {
    let mut s = ScheduledState::new();
    let id = s.get_id();
    s.record_txn(id, record(11));
    // a confirmation-insufficient tick takes the record out and re-files it
    let taken = s.remove_txn(id);
    assert!(!s.has_txn(id));
    assert_eq!(taken.timer_id, 11);
    s.record_txn(id, taken);
    assert!(s.has_txn(id));
    let again = s.remove_txn(id);
    assert_eq!(again.timer_id, 11);
}

#[test]
fn terminal_tick_destroys_the_record() {
    let mut s = ScheduledState::new();
    let id = s.get_id();
    s.record_txn(id, record(11));
    let taken = s.remove_txn(id);
    // success: the record stays destroyed, its timer handle is free again
    assert!(!s.has_txn(id));
    let id2 = s.get_id();
    assert_ne!(id, id2);
    s.record_txn(id2, record(taken.timer_id));
    assert!(s.has_txn(id2));
}

#[test]
fn tick_rearms_on_empty_poll() {
    let utxos: Vec<Utxo> = vec![];
    assert!(matches!(
        evaluate_tick(&utxos, 1_000, COMMIT_CONFIRMATIONS as u32),
        TickAction::Rearm
    ));
}

#[test]
fn tick_rearms_below_required_confirmations() {
    // tip 104, output at 100: four blocks on top, six required
    let utxos = vec![utxo_at_height(100)];
    assert!(matches!(
        evaluate_tick(&utxos, 104, COMMIT_CONFIRMATIONS as u32),
        TickAction::Rearm
    ));
}

#[test]
fn tick_submits_at_required_confirmations() {
    let utxos = vec![utxo_at_height(100)];
    assert!(matches!(
        evaluate_tick(&utxos, 106, COMMIT_CONFIRMATIONS as u32),
        TickAction::SubmitReveal
    ));
    assert!(matches!(
        evaluate_tick(&utxos, 1_000, COMMIT_CONFIRMATIONS as u32),
        TickAction::SubmitReveal
    ));
}
