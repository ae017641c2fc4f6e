//! The pending-reveal table of the submission scheduler.
//!
//! Each accepted commit transaction leaves one record here: the reveal
//! transaction to submit once the commit output is confirmed, the commit
//! address to poll, and the one live timer that drives the retries. Records
//! are keyed by a monotonically increasing identifier.

use vstd::prelude::*;

use crate::transaction::DraftTransaction;
use crate::utxo_manager::Utxo;

verus! {

/// The number of confirmations the commit transaction needs before the
/// reveal that spends it may be submitted (the rune protocol's commitment
/// maturity).
pub const COMMIT_CONFIRMATIONS: u16 = 6;

/// One pending reveal: the transaction to submit, the commit-output address
/// whose confirmations gate it, and the handle of its live timer.
pub struct ScheduledTransaction {
    pub txn: DraftTransaction,
    pub commit_tx_address: String,
    pub timer_id: u64,
}

/// The pending-reveal table with its identifier source.
pub struct ScheduledState {
    pub next_id: u128,
    pub records: Vec<(u128, ScheduledTransaction)>,
}

/// No two records share an identifier.
pub open spec fn ids_unique(rs: Seq<(u128, ScheduledTransaction)>) -> bool {
    forall|i: int, j: int| 0 <= i < j < rs.len() ==> (#[trigger] rs[i]).0 != (#[trigger] rs[j]).0
}

/// No two records share a timer handle: a handle is owned by one record.
pub open spec fn timers_unique(rs: Seq<(u128, ScheduledTransaction)>) -> bool {
    forall|i: int, j: int|
        0 <= i < j < rs.len() ==> (#[trigger] rs[i]).1.timer_id != (#[trigger] rs[j]).1.timer_id
}

/// A record with identifier `id` is pending.
pub open spec fn has_id(rs: Seq<(u128, ScheduledTransaction)>, id: u128) -> bool {
    exists|i: int| 0 <= i < rs.len() && (#[trigger] rs[i]).0 == id
}

/// The index of the record with identifier `id` (meaningful under `has_id`).
pub open spec fn rec_index(rs: Seq<(u128, ScheduledTransaction)>, id: u128) -> int {
    choose|i: int| 0 <= i < rs.len() && (#[trigger] rs[i]).0 == id
}

/// Timer handle `t` is live: some pending record owns it.
pub open spec fn timer_live(rs: Seq<(u128, ScheduledTransaction)>, t: u64) -> bool {
    exists|i: int| 0 <= i < rs.len() && (#[trigger] rs[i]).1.timer_id == t
}

/// A timer handle already owned by a record is not fresh.
pub open spec fn timer_fresh(rs: Seq<(u128, ScheduledTransaction)>, t: u64) -> bool {
    forall|i: int| 0 <= i < rs.len() ==> (#[trigger] rs[i]).1.timer_id != t
}

/// With unique identifiers, the record index of an identifier is the only
/// index carrying it.
pub proof fn lemma_rec_index_unique(rs: Seq<(u128, ScheduledTransaction)>, id: u128, j: int)
    requires
        ids_unique(rs),
        0 <= j < rs.len(),
        rs[j].0 == id,
    ensures
        has_id(rs, id),
        rec_index(rs, id) == j,
{
    assert(has_id(rs, id));
    let i = rec_index(rs, id);
    if i != j {
        if i < j {
            assert(rs[i].0 != rs[j].0);
        } else {
            assert(rs[j].0 != rs[i].0);
        }
    }
}

impl ScheduledState {
    /// Table invariant: identifiers are unique and below the next fresh one,
    /// and every live timer is owned by exactly one record.
    pub open spec fn wf(&self) -> bool {
        &&& ids_unique(self.records@)
        &&& timers_unique(self.records@)
        &&& forall|i: int|
            0 <= i < self.records@.len() ==> (#[trigger] self.records@[i]).0 < self.next_id
    }

    /// An empty table whose first identifier is zero.
    pub fn new() -> (r: ScheduledState)
        ensures
            r.wf(),
            r.records@.len() == 0,
            r.next_id == 0,
    {
        ScheduledState { next_id: 0, records: Vec::new() }
    }

    /// Hands out a fresh record identifier: no pending record carries it and
    /// no later call returns it again.
    pub fn get_id(&mut self) -> (r: u128)
        requires
            old(self).wf(),
            old(self).next_id < u128::MAX,
        ensures
            final(self).wf(),
            r == old(self).next_id,
            final(self).next_id == old(self).next_id + 1,
            final(self).records@ == old(self).records@,
            !has_id(final(self).records@, r),
    {
        let id = self.next_id;
        self.next_id = self.next_id + 1;
        proof {
            if has_id(self.records@, id) {
                let i = choose|i: int|
                    0 <= i < self.records@.len() && (#[trigger] self.records@[i]).0 == id;
                assert(self.records@[i].0 < id);
            }
        }
        id
    }

    /// Whether a record with identifier `id` is pending.
    pub fn has_txn(&self, id: u128) -> (r: bool)
        ensures
            r == has_id(self.records@, id),
    {
        let n = self.records.len();
        let mut i: usize = 0;
        while i < n
            invariant
                n == self.records@.len(),
                i <= n,
                forall|k: int| 0 <= k < i ==> (#[trigger] self.records@[k]).0 != id,
            decreases n - i,
        {
            if self.records[i].0 == id {
                return true;
            }
            i += 1;
        }
        false
    }

    /// Whether no pending record owns timer handle `t`.
    pub fn timer_is_fresh(&self, t: u64) -> (r: bool)
        ensures
            r == timer_fresh(self.records@, t),
    {
        let n = self.records.len();
        let mut i: usize = 0;
        while i < n
            invariant
                n == self.records@.len(),
                i <= n,
                forall|k: int| 0 <= k < i ==> (#[trigger] self.records@[k]).1.timer_id != t,
            decreases n - i,
        {
            if self.records[i].1.timer_id == t {
                return false;
            }
            i += 1;
        }
        true
    }

    /// Files a pending reveal under `id`. The identifier must be free (a
    /// fresh one from `get_id`, or one just taken out by `remove_txn`), below
    /// the next fresh identifier, and the record's timer must not be owned by
    /// any other record: a handle never spans two records.
    pub fn record_txn(&mut self, id: u128, txn: ScheduledTransaction)
        requires
            old(self).wf(),
            !has_id(old(self).records@, id),
            id < old(self).next_id,
            timer_fresh(old(self).records@, txn.timer_id),
        ensures
            final(self).wf(),
            final(self).records@ == old(self).records@.push((id, txn)),
            final(self).next_id == old(self).next_id,
    {
        let ghost rs = self.records@;
        let ghost entry = (id, txn);
        proof {
            assert forall|i: int, j: int| 0 <= i < j < rs.push(entry).len() implies (
            #[trigger] rs.push(entry)[i]).0 != (#[trigger] rs.push(entry)[j]).0 by {
                if j < rs.len() {
                    assert(rs.push(entry)[i] == rs[i]);
                    assert(rs.push(entry)[j] == rs[j]);
                } else {
                    assert(rs.push(entry)[j] == entry);
                    assert(rs.push(entry)[i] == rs[i]);
                    if rs[i].0 == id {
                        assert(has_id(rs, id));
                    }
                }
            }
            assert forall|i: int, j: int| 0 <= i < j < rs.push(entry).len() implies (
            #[trigger] rs.push(entry)[i]).1.timer_id != (
            #[trigger] rs.push(entry)[j]).1.timer_id by {
                if j < rs.len() {
                    assert(rs.push(entry)[i] == rs[i]);
                    assert(rs.push(entry)[j] == rs[j]);
                } else {
                    assert(rs.push(entry)[j] == entry);
                    assert(rs.push(entry)[i] == rs[i]);
                }
            }
        }
        self.records.push((id, txn));
    }

    /// Takes the pending reveal with identifier `id` out of the table and
    /// returns it; the caller either re-records it (the same timer keeps
    /// firing) or drops it and cancels its timer.
    pub fn remove_txn(&mut self, id: u128) -> (r: ScheduledTransaction)
        requires
            old(self).wf(),
            has_id(old(self).records@, id),
        ensures
            final(self).wf(),
            final(self).next_id == old(self).next_id,
            final(self).records@ == old(self).records@.remove(
                rec_index(old(self).records@, id),
            ),
            r == old(self).records@[rec_index(old(self).records@, id)].1,
            !has_id(final(self).records@, id),
            timer_fresh(final(self).records@, r.timer_id),
    {
        let ghost rs = self.records@;
        let n = self.records.len();
        let mut i: usize = 0;
        while i < n
            invariant
                n == self.records@.len(),
                rs == self.records@,
                rs == old(self).records@,
                self.next_id == old(self).next_id,
                forall|k: int| 0 <= k < rs.len() ==> (#[trigger] rs[k]).0 < self.next_id,
                has_id(rs, id),
                ids_unique(rs),
                timers_unique(rs),
                i <= n,
                forall|k: int| 0 <= k < i ==> (#[trigger] rs[k]).0 != id,
            decreases n - i,
        {
            if self.records[i].0 == id {
                proof {
                    lemma_rec_index_unique(rs, id, i as int);
                }
                let (_, txn) = self.records.remove(i);
                proof {
                    let rs2 = rs.remove(i as int);
                    assert forall|p: int, q: int| 0 <= p < q < rs2.len() implies (
                    #[trigger] rs2[p]).0 != (#[trigger] rs2[q]).0 && rs2[p].1.timer_id
                        != rs2[q].1.timer_id by {
                        let a: int = if p < i {
                            p
                        } else {
                            p + 1
                        };
                        let b: int = if q < i {
                            q
                        } else {
                            q + 1
                        };
                        assert(rs2[p] == rs[a]);
                        assert(rs2[q] == rs[b]);
                        assert(rs[a].0 != rs[b].0);
                        assert(rs[a].1.timer_id != rs[b].1.timer_id);
                    }
                    if has_id(rs2, id) {
                        let k = choose|k: int| 0 <= k < rs2.len() && (#[trigger] rs2[k]).0 == id;
                        if k < i {
                            assert(rs2[k] == rs[k]);
                        } else {
                            assert(rs2[k] == rs[k + 1]);
                        }
                    }
                    assert forall|k: int| 0 <= k < rs2.len() implies (
                    #[trigger] rs2[k]).1.timer_id != rs[i as int].1.timer_id by {
                        if k < i {
                            assert(rs2[k] == rs[k]);
                            assert(rs[k].1.timer_id != rs[i as int].1.timer_id);
                        } else {
                            assert(rs2[k] == rs[k + 1]);
                            assert(rs[i as int].1.timer_id != rs[k + 1].1.timer_id);
                        }
                    }
                }
                return txn;
            }
            i += 1;
        }
        proof {
            assert(!has_id(rs, id));
        }
        unreached()
    }
}

/// The scheduler's tick decision.
pub enum TickAction {
    /// Confirmations are missing or the poll was empty: keep the record and
    /// let the same timer fire again.
    Rearm,
    /// The commit output is confirmed deeply enough: submit the reveal.
    SubmitReveal,
}

/// Decides one retry tick from the poll of the commit address: the reveal is
/// submitted exactly when the poll returned an output and the chain tip is at
/// least `required` blocks past that output's height; anything else re-arms.
pub fn evaluate_tick(utxos: &Vec<Utxo>, tip_height: u32, required: u32) -> (r: TickAction)
    ensures
        r == TickAction::SubmitReveal <==> (utxos@.len() > 0 && utxos@[0].height + required
            <= tip_height),
        r == TickAction::Rearm <==> !(utxos@.len() > 0 && utxos@[0].height + required
            <= tip_height),
{
    if utxos.len() == 0 {
        return TickAction::Rearm;
    }
    let h = utxos[0].height;
    if tip_height >= h && tip_height - h >= required {
        TickAction::SubmitReveal
    } else {
        TickAction::Rearm
    }
}

/// Scheduler liveness across a confirmation-insufficient tick: taking the
/// record out and re-recording it with the same timer leaves identifiers and
/// timers unique, and exactly the same timers live — the record never holds
/// more or fewer than its one timer.
pub proof fn lemma_tick_rearm_preserves_timers(rs: Seq<(u128, ScheduledTransaction)>, i: int)
    requires
        ids_unique(rs),
        timers_unique(rs),
        0 <= i < rs.len(),
    ensures
        ids_unique(rs.remove(i).push(rs[i])),
        timers_unique(rs.remove(i).push(rs[i])),
        forall|t: u64| timer_live(rs.remove(i).push(rs[i]), t) <==> timer_live(rs, t),
{
    let rs2 = rs.remove(i).push(rs[i]);
    assert(rs2.len() == rs.len());
    assert forall|k: int| 0 <= k < rs.remove(i).len() implies exists|m: int|
        0 <= m < rs.len() && m != i && rs[m] == #[trigger] rs.remove(i)[k] by {
        if k < i {
            assert(rs.remove(i)[k] == rs[k]);
        } else {
            assert(rs.remove(i)[k] == rs[k + 1]);
        }
    }
    assert forall|p: int, q: int| 0 <= p < q < rs2.len() implies (#[trigger] rs2[p]).0 != (
    #[trigger] rs2[q]).0 && rs2[p].1.timer_id != rs2[q].1.timer_id by {
        if q < rs2.len() - 1 {
            let a = if p < i {
                p
            } else {
                p + 1
            };
            let b = if q < i {
                q
            } else {
                q + 1
            };
            assert(rs2[p] == rs[a]);
            assert(rs2[q] == rs[b]);
        } else {
            assert(rs2[q] == rs[i]);
            let a = if p < i {
                p
            } else {
                p + 1
            };
            assert(rs2[p] == rs[a]);
            assert(a != i);
        }
    }
    assert forall|t: u64| timer_live(rs2, t) <==> timer_live(rs, t) by {
        if timer_live(rs2, t) {
            let k = choose|k: int| 0 <= k < rs2.len() && (#[trigger] rs2[k]).1.timer_id == t;
            if k < rs2.len() - 1 {
                let a = if k < i {
                    k
                } else {
                    k + 1
                };
                assert(rs2[k] == rs[a]);
                assert(timer_live(rs, t));
            } else {
                assert(rs2[k] == rs[i]);
                assert(timer_live(rs, t));
            }
        }
        if timer_live(rs, t) {
            let k = choose|k: int| 0 <= k < rs.len() && (#[trigger] rs[k]).1.timer_id == t;
            if k == i {
                assert(rs2[rs2.len() - 1] == rs[i]);
                assert(timer_live(rs2, t));
            } else {
                let b = if k < i {
                    k
                } else {
                    k - 1
                };
                assert(rs2[b] == rs[k]);
                assert(timer_live(rs2, t));
            }
        }
    }
}

/// Scheduler liveness at the terminal step: destroying the record leaves the
/// remaining identifiers and timers unique, frees exactly the destroyed
/// record's timer, and keeps every other timer live — never a destroyed
/// record with a dangling timer, never a live record without one.
pub proof fn lemma_tick_done_frees_timer(rs: Seq<(u128, ScheduledTransaction)>, i: int)
    requires
        ids_unique(rs),
        timers_unique(rs),
        0 <= i < rs.len(),
    ensures
        ids_unique(rs.remove(i)),
        timers_unique(rs.remove(i)),
        !timer_live(rs.remove(i), rs[i].1.timer_id),
        forall|t: u64|
            t != rs[i].1.timer_id ==> (timer_live(rs.remove(i), t) <==> timer_live(rs, t)),
{
    let rs2 = rs.remove(i);
    assert forall|p: int, q: int| 0 <= p < q < rs2.len() implies (#[trigger] rs2[p]).0 != (
    #[trigger] rs2[q]).0 && rs2[p].1.timer_id != rs2[q].1.timer_id by {
        let a = if p < i {
            p
        } else {
            p + 1
        };
        let b = if q < i {
            q
        } else {
            q + 1
        };
        assert(rs2[p] == rs[a]);
        assert(rs2[q] == rs[b]);
    }
    assert forall|k: int| 0 <= k < rs2.len() implies (#[trigger] rs2[k]).1.timer_id != rs[i].1.timer_id
        by {
        let a = if k < i {
            k
        } else {
            k + 1
        };
        assert(rs2[k] == rs[a]);
        assert(a != i);
    }
    assert forall|t: u64| t != rs[i].1.timer_id implies (timer_live(rs2, t) <==> timer_live(
        rs,
        t,
    )) by {
        if timer_live(rs2, t) {
            let k = choose|k: int| 0 <= k < rs2.len() && (#[trigger] rs2[k]).1.timer_id == t;
            let a = if k < i {
                k
            } else {
                k + 1
            };
            assert(rs2[k] == rs[a]);
            assert(timer_live(rs, t));
        }
        if timer_live(rs, t) {
            let k = choose|k: int| 0 <= k < rs.len() && (#[trigger] rs[k]).1.timer_id == t;
            assert(k != i);
            let b = if k < i {
                k
            } else {
                k - 1
            };
            assert(rs2[b] == rs[k]);
            assert(timer_live(rs2, t));
        }
    }
}

} // verus!
