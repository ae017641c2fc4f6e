//! The UTXO ledger: per-address stores of classified spendable outputs.
//!
//! Every output an address owns is recorded in exactly one class: plain coin
//! or rune-bearing (once per rune). The well-formedness predicate [`UtxoManager::wf`]
//! captures that exclusivity together with uniqueness of outpoints, and every
//! mutating operation preserves it.

use vstd::prelude::*;

use crate::updater::RuneId;

verus! {

/// Reference to one transaction output on the chain.
pub struct Outpoint {
    pub txid: Vec<u8>,
    pub vout: u32,
}

/// A spendable plain-coin output: its outpoint, value in satoshi, and the
/// height of the block that confirmed it.
pub struct Utxo {
    pub outpoint: Outpoint,
    pub value: u64,
    pub height: u32,
}

/// A spendable output that carries a balance of one rune in addition to its
/// plain coin value. Its identity is the outpoint alone.
pub struct RunicUtxo {
    pub balance: u128,
    pub utxo: Utxo,
}

/// One rune-bearing record of the ledger: the rune and the output carrying it.
/// An output carrying several runes appears once per rune.
pub struct RunicHolding {
    pub rune: RuneId,
    pub utxo: RunicUtxo,
}

/// All outputs the ledger knows for one address.
pub struct Book {
    pub addr: String,
    pub plain: Vec<Utxo>,
    pub runic: Vec<RunicHolding>,
}

/// The ledger: one book per address. The single source of truth for balances
/// and spend candidates.
pub struct UtxoManager {
    pub books: Vec<Book>,
}

/// Two outpoints refer to the same chain output.
pub open spec fn outpoint_eq(a: Outpoint, b: Outpoint) -> bool {
    a.txid@ == b.txid@ && a.vout == b.vout
}

/// Some plain record of `s` sits on the outpoint of `u`.
pub open spec fn plain_has(s: Seq<Utxo>, u: Utxo) -> bool {
    exists|i: int| 0 <= i < s.len() && outpoint_eq(#[trigger] s[i].outpoint, u.outpoint)
}

/// Some rune record of `s` (under any rune) sits on the outpoint of `u`.
pub open spec fn runic_has_outpoint(s: Seq<RunicHolding>, u: Utxo) -> bool {
    exists|i: int| 0 <= i < s.len() && outpoint_eq(#[trigger] s[i].utxo.utxo.outpoint, u.outpoint)
}

/// A record for rune `rid` of `s` sits on the outpoint of `u`.
pub open spec fn runic_has(s: Seq<RunicHolding>, rid: RuneId, u: Utxo) -> bool {
    exists|i: int|
        0 <= i < s.len() && (#[trigger] s[i]).rune == rid && outpoint_eq(
            s[i].utxo.utxo.outpoint,
            u.outpoint,
        )
}

/// Some element of `rm` sits on the outpoint of `u`.
pub open spec fn outpoint_among(rm: Seq<Utxo>, u: Utxo) -> bool {
    exists|k: int| 0 <= k < rm.len() && outpoint_eq(#[trigger] rm[k].outpoint, u.outpoint)
}

/// No two plain records share an outpoint.
pub open spec fn plain_unique(s: Seq<Utxo>) -> bool {
    forall|i: int, j: int|
        0 <= i < j < s.len() ==> !outpoint_eq(#[trigger] s[i].outpoint, #[trigger] s[j].outpoint)
}

/// No two rune records share both rune and outpoint.
pub open spec fn runic_unique(s: Seq<RunicHolding>) -> bool {
    forall|i: int, j: int|
        0 <= i < j < s.len() ==> !((#[trigger] s[i]).rune == (#[trigger] s[j]).rune && outpoint_eq(
            s[i].utxo.utxo.outpoint,
            s[j].utxo.utxo.outpoint,
        ))
}

/// Classification is exclusive: an outpoint recorded as plain is never also
/// recorded as rune-bearing for the same address.
pub open spec fn classes_exclusive(plain: Seq<Utxo>, runic: Seq<RunicHolding>) -> bool {
    forall|i: int, j: int|
        0 <= i < plain.len() && 0 <= j < runic.len() ==> !outpoint_eq(
            #[trigger] plain[i].outpoint,
            #[trigger] runic[j].utxo.utxo.outpoint,
        )
}

/// A well-formed per-address book.
pub open spec fn book_wf(b: Book) -> bool {
    &&& plain_unique(b.plain@)
    &&& runic_unique(b.runic@)
    &&& classes_exclusive(b.plain@, b.runic@)
}

/// Each address owns at most one book.
pub open spec fn addrs_unique(books: Seq<Book>) -> bool {
    forall|i: int, j: int|
        0 <= i < j < books.len() ==> (#[trigger] books[i].addr@) != (#[trigger] books[j].addr@)
}

/// The ledger holds a book for `a`.
pub open spec fn s_has_book(books: Seq<Book>, a: Seq<char>) -> bool {
    exists|i: int| 0 <= i < books.len() && (#[trigger] books[i].addr@) == a
}

/// The index of the book of `a` (meaningful only when `s_has_book`).
pub open spec fn s_book_index(books: Seq<Book>, a: Seq<char>) -> int {
    choose|i: int| 0 <= i < books.len() && (#[trigger] books[i].addr@) == a
}

/// The plain records of `a`; an address without a book behaves as empty.
pub open spec fn s_plain(books: Seq<Book>, a: Seq<char>) -> Seq<Utxo> {
    if s_has_book(books, a) {
        books[s_book_index(books, a)].plain@
    } else {
        Seq::empty()
    }
}

/// The rune records of `a`; an address without a book behaves as empty.
pub open spec fn s_runic(books: Seq<Book>, a: Seq<char>) -> Seq<RunicHolding> {
    if s_has_book(books, a) {
        books[s_book_index(books, a)].runic@
    } else {
        Seq::empty()
    }
}

/// `us` inserted into the plain records `p`, in order, skipping any output
/// whose outpoint is already plain or already rune-bearing (in `r`).
pub open spec fn plain_inserted(p: Seq<Utxo>, r: Seq<RunicHolding>, us: Seq<Utxo>) -> Seq<Utxo>
    decreases us.len(),
{
    if us.len() == 0 {
        p
    } else {
        let prev = plain_inserted(p, r, us.drop_last());
        if plain_has(prev, us.last()) || runic_has_outpoint(r, us.last()) {
            prev
        } else {
            prev.push(us.last())
        }
    }
}

/// The plain records `p` with every record sitting on an outpoint of `rm`
/// removed, order of the rest kept.
pub open spec fn plain_removed(p: Seq<Utxo>, rm: Seq<Utxo>) -> Seq<Utxo>
    decreases p.len(),
{
    if p.len() == 0 {
        p
    } else {
        let rest = plain_removed(p.drop_last(), rm);
        if outpoint_among(rm, p.last()) {
            rest
        } else {
            rest.push(p.last())
        }
    }
}

/// `us` inserted into the rune records `r` under rune `rid`, in order,
/// skipping any output already recorded for that rune.
pub open spec fn runic_inserted(r: Seq<RunicHolding>, rid: RuneId, us: Seq<RunicUtxo>) -> Seq<
    RunicHolding,
>
    decreases us.len(),
{
    if us.len() == 0 {
        r
    } else {
        let prev = runic_inserted(r, rid, us.drop_last());
        if runic_has(prev, rid, us.last().utxo) {
            prev
        } else {
            prev.push(RunicHolding { rune: rid, utxo: us.last() })
        }
    }
}

/// Sum of the plain coin values of `s`.
pub open spec fn sum_plain(s: Seq<Utxo>) -> int
    decreases s.len(),
{
    if s.len() == 0 {
        0
    } else {
        sum_plain(s.drop_last()) + s.last().value
    }
}

/// Sum of the balances that the records of `s` carry in rune `rid`.
pub open spec fn sum_runic(s: Seq<RunicHolding>, rid: RuneId) -> int
    decreases s.len(),
{
    if s.len() == 0 {
        0
    } else {
        sum_runic(s.drop_last(), rid) + if s.last().rune == rid {
            s.last().utxo.balance as int
        } else {
            0
        }
    }
}

/// `x` clamped to the range of u64.
pub open spec fn clamp_u64(x: int) -> int {
    if x > u64::MAX {
        u64::MAX as int
    } else {
        x
    }
}

/// `x` clamped to the range of u128.
pub open spec fn clamp_u128(x: int) -> int {
    if x > u128::MAX {
        u128::MAX as int
    } else {
        x
    }
}

/// A record with the outpoint of `x` sits in `s.push(x)` exactly when it
/// sits in `s` or is `x` itself.
pub proof fn lemma_plain_has_push(s: Seq<Utxo>, x: Utxo, u: Utxo)
    ensures
        plain_has(s.push(x), u) <==> (plain_has(s, u) || outpoint_eq(x.outpoint, u.outpoint)),
{
    if plain_has(s.push(x), u) {
        let i = choose|i: int|
            0 <= i < s.push(x).len() && outpoint_eq(#[trigger] s.push(x)[i].outpoint, u.outpoint);
        if i < s.len() {
            assert(s.push(x)[i] == s[i]);
            assert(plain_has(s, u));
        } else {
            assert(s.push(x)[i] == x);
        }
    }
    if plain_has(s, u) {
        let i = choose|i: int| 0 <= i < s.len() && outpoint_eq(#[trigger] s[i].outpoint, u.outpoint);
        assert(s.push(x)[i] == s[i]);
        assert(plain_has(s.push(x), u));
    }
    if outpoint_eq(x.outpoint, u.outpoint) {
        assert(s.push(x)[s.len() as int] == x);
        assert(plain_has(s.push(x), u));
    }
}

/// What remains after a removal: exactly the records whose outpoint is not
/// among the removed ones; uniqueness is preserved.
pub proof fn lemma_plain_removed_membership(p: Seq<Utxo>, rm: Seq<Utxo>)
    ensures
        forall|u: Utxo|
            plain_has(plain_removed(p, rm), u) <==> (plain_has(p, u) && !outpoint_among(rm, u)),
        plain_unique(p) ==> plain_unique(plain_removed(p, rm)),
    decreases p.len(),
{
    if p.len() == 0 {
        assert forall|u: Utxo| !plain_has(plain_removed(p, rm), u) && !plain_has(p, u) by {}
    } else {
        let q = p.drop_last();
        let x = p.last();
        lemma_plain_removed_membership(q, rm);
        let rest = plain_removed(q, rm);
        assert forall|u: Utxo| plain_has(p, u) <==> (plain_has(q, u) || outpoint_eq(
            x.outpoint,
            u.outpoint,
        )) by {
            assert(q.push(x) =~= p);
            lemma_plain_has_push(q, x, u);
        }
        if outpoint_among(rm, x) {
            assert(plain_removed(p, rm) == rest);
            assert forall|u: Utxo| plain_has(rest, u) <==> (plain_has(p, u) && !outpoint_among(
                rm,
                u,
            )) by {
                if outpoint_eq(x.outpoint, u.outpoint) {
                    assert(outpoint_among(rm, u));
                }
            }
        } else {
            assert(plain_removed(p, rm) == rest.push(x));
            assert forall|u: Utxo| plain_has(rest.push(x), u) <==> (plain_has(p, u)
                && !outpoint_among(rm, u)) by {
                lemma_plain_has_push(rest, x, u);
                if outpoint_eq(x.outpoint, u.outpoint) {
                    assert(!outpoint_among(rm, u));
                }
            }
            if plain_unique(p) {
                assert(plain_unique(q)) by {
                    assert(forall|i: int| 0 <= i < q.len() ==> q[i] == p[i]);
                }
                assert(!plain_has(rest, x)) by {
                    if plain_has(rest, x) {
                        assert(plain_has(q, x));
                        let i = choose|i: int|
                            0 <= i < q.len() && outpoint_eq(#[trigger] q[i].outpoint, x.outpoint);
                        assert(p[i] == q[i]);
                        assert(!outpoint_eq(p[i].outpoint, p[p.len() - 1].outpoint));
                    }
                }
                assert forall|i: int, j: int|
                    0 <= i < j < rest.push(x).len() implies !outpoint_eq(
                    #[trigger] rest.push(x)[i].outpoint,
                    #[trigger] rest.push(x)[j].outpoint,
                ) by {
                    if j < rest.len() {
                    } else {
                        assert(rest.push(x)[j] == x);
                        assert(rest.push(x)[i] == rest[i]);
                        if outpoint_eq(rest[i].outpoint, x.outpoint) {
                            assert(plain_has(rest, x));
                        }
                    }
                }
            }
        }
    }
}

/// Removing nothing that is present leaves the records unchanged.
pub proof fn lemma_plain_removed_id(p: Seq<Utxo>, rm: Seq<Utxo>)
    requires
        forall|i: int| 0 <= i < p.len() ==> !outpoint_among(rm, #[trigger] p[i]),
    ensures
        plain_removed(p, rm) == p,
    decreases p.len(),
{
    if p.len() > 0 {
        let q = p.drop_last();
        assert(forall|i: int| 0 <= i < q.len() ==> q[i] == p[i]);
        lemma_plain_removed_id(q, rm);
        assert(plain_removed(p, rm) == q.push(p.last()));
        assert(q.push(p.last()) =~= p);
    }
}

/// Removing records that all sit on the outpoint of the record at index `i`
/// (and on no other) lowers the total plain value by exactly that record's
/// value.
pub proof fn lemma_sum_plain_removed(p: Seq<Utxo>, rm: Seq<Utxo>, i: int)
    requires
        plain_unique(p),
        0 <= i < p.len(),
        outpoint_among(rm, p[i]),
        forall|j: int| 0 <= j < p.len() && j != i ==> !outpoint_among(rm, #[trigger] p[j]),
    ensures
        sum_plain(plain_removed(p, rm)) == sum_plain(p) - p[i].value,
    decreases p.len(),
{
    let q = p.drop_last();
    let x = p.last();
    assert(forall|k: int| 0 <= k < q.len() ==> q[k] == p[k]);
    if i == p.len() - 1 {
        assert(plain_removed(p, rm) == plain_removed(q, rm));
        lemma_plain_removed_id(q, rm);
    } else {
        assert(!outpoint_among(rm, x));
        assert(plain_removed(p, rm) == plain_removed(q, rm).push(x));
        assert(plain_unique(q));
        lemma_sum_plain_removed(q, rm, i);
        assert(sum_plain(plain_removed(q, rm).push(x)) == sum_plain(plain_removed(q, rm))
            + x.value) by {
            let r = plain_removed(q, rm).push(x);
            assert(r.drop_last() =~= plain_removed(q, rm));
        }
    }
}

/// Total plain value is never negative.
pub proof fn lemma_sum_plain_nonneg(s: Seq<Utxo>)
    ensures
        sum_plain(s) >= 0,
    decreases s.len(),
{
    if s.len() > 0 {
        lemma_sum_plain_nonneg(s.drop_last());
    }
}

/// Total rune balance is never negative.
pub proof fn lemma_sum_runic_nonneg(s: Seq<RunicHolding>, rid: RuneId)
    ensures
        sum_runic(s, rid) >= 0,
    decreases s.len(),
{
    if s.len() > 0 {
        lemma_sum_runic_nonneg(s.drop_last(), rid);
    }
}

/// Removal keeps the classes exclusive.
pub proof fn lemma_removed_exclusive(p: Seq<Utxo>, r: Seq<RunicHolding>, rm: Seq<Utxo>)
    requires
        classes_exclusive(p, r),
    ensures
        classes_exclusive(plain_removed(p, rm), r),
{
    lemma_plain_removed_membership(p, rm);
    let kept = plain_removed(p, rm);
    assert forall|i: int, j: int| 0 <= i < kept.len() && 0 <= j < r.len() implies !outpoint_eq(
        #[trigger] kept[i].outpoint,
        #[trigger] r[j].utxo.utxo.outpoint,
    ) by {
        assert(plain_has(kept, kept[i]));
        assert(plain_has(p, kept[i]));
        let k = choose|k: int|
            0 <= k < p.len() && outpoint_eq(#[trigger] p[k].outpoint, kept[i].outpoint);
        assert(!outpoint_eq(p[k].outpoint, r[j].utxo.utxo.outpoint));
    }
}

/// A record with the outpoint of `u` sits in `s.push(x)` exactly when it
/// sits in `s` or `x` carries that outpoint.
pub proof fn lemma_runic_has_outpoint_push(s: Seq<RunicHolding>, x: RunicHolding, u: Utxo)
    ensures
        runic_has_outpoint(s.push(x), u) <==> (runic_has_outpoint(s, u) || outpoint_eq(
            x.utxo.utxo.outpoint,
            u.outpoint,
        )),
{
    if runic_has_outpoint(s.push(x), u) {
        let i = choose|i: int|
            0 <= i < s.push(x).len() && outpoint_eq(
                #[trigger] s.push(x)[i].utxo.utxo.outpoint,
                u.outpoint,
            );
        if i < s.len() {
            assert(s.push(x)[i] == s[i]);
            assert(runic_has_outpoint(s, u));
        } else {
            assert(s.push(x)[i] == x);
        }
    }
    if runic_has_outpoint(s, u) {
        let i = choose|i: int|
            0 <= i < s.len() && outpoint_eq(#[trigger] s[i].utxo.utxo.outpoint, u.outpoint);
        assert(s.push(x)[i] == s[i]);
        assert(runic_has_outpoint(s.push(x), u));
    }
    if outpoint_eq(x.utxo.utxo.outpoint, u.outpoint) {
        assert(s.push(x)[s.len() as int] == x);
        assert(runic_has_outpoint(s.push(x), u));
    }
}

/// Outpoints present after a rune insertion: the old ones plus those of the
/// inserted outputs; uniqueness per (rune, outpoint) is preserved.
pub proof fn lemma_runic_inserted_membership(r: Seq<RunicHolding>, rid: RuneId, us: Seq<RunicUtxo>)
    ensures
        forall|u: Utxo|
            runic_has_outpoint(runic_inserted(r, rid, us), u) <==> (runic_has_outpoint(r, u)
                || outpoint_among(us.map_values(|x: RunicUtxo| x.utxo), u)),
        runic_unique(r) ==> runic_unique(runic_inserted(r, rid, us)),
    decreases us.len(),
{
    let usm = us.map_values(|x: RunicUtxo| x.utxo);
    if us.len() == 0 {
        assert(forall|u: Utxo| !outpoint_among(usm, u));
    } else {
        let qs = us.drop_last();
        let x = us.last();
        lemma_runic_inserted_membership(r, rid, qs);
        let prev = runic_inserted(r, rid, qs);
        let qsm = qs.map_values(|y: RunicUtxo| y.utxo);
        assert(qsm =~= usm.drop_last());
        assert(usm[us.len() - 1] == x.utxo);
        assert forall|u: Utxo| outpoint_among(usm, u) <==> (outpoint_among(qsm, u) || outpoint_eq(
            x.utxo.outpoint,
            u.outpoint,
        )) by {
            if outpoint_among(usm, u) {
                let k = choose|k: int|
                    0 <= k < usm.len() && outpoint_eq(#[trigger] usm[k].outpoint, u.outpoint);
                if k < qsm.len() {
                    assert(qsm[k] == usm[k]);
                    assert(outpoint_among(qsm, u));
                }
            }
            if outpoint_among(qsm, u) {
                let k = choose|k: int|
                    0 <= k < qsm.len() && outpoint_eq(#[trigger] qsm[k].outpoint, u.outpoint);
                assert(usm[k] == qsm[k]);
                assert(outpoint_among(usm, u));
            }
            if outpoint_eq(x.utxo.outpoint, u.outpoint) {
                assert(outpoint_eq(usm[us.len() - 1].outpoint, u.outpoint));
                assert(outpoint_among(usm, u));
            }
        }
        if runic_has(prev, rid, x.utxo) {
            assert(runic_inserted(r, rid, us) == prev);
            assert(runic_has_outpoint(prev, x.utxo)) by {
                let i = choose|i: int|
                    0 <= i < prev.len() && (#[trigger] prev[i]).rune == rid && outpoint_eq(
                        prev[i].utxo.utxo.outpoint,
                        x.utxo.outpoint,
                    );
                assert(outpoint_eq(prev[i].utxo.utxo.outpoint, x.utxo.outpoint));
            }
            assert forall|u: Utxo| runic_has_outpoint(prev, u) <==> (runic_has_outpoint(r, u)
                || outpoint_among(usm, u)) by {
                if outpoint_eq(x.utxo.outpoint, u.outpoint) && !runic_has_outpoint(r, u) {
                    assert(runic_has_outpoint(prev, x.utxo));
                    let i = choose|i: int|
                        0 <= i < prev.len() && outpoint_eq(
                            #[trigger] prev[i].utxo.utxo.outpoint,
                            x.utxo.outpoint,
                        );
                    assert(outpoint_eq(prev[i].utxo.utxo.outpoint, u.outpoint));
                    assert(runic_has_outpoint(prev, u));
                }
            }
        } else {
            let h = RunicHolding { rune: rid, utxo: x };
            assert(runic_inserted(r, rid, us) == prev.push(h));
            assert forall|u: Utxo| runic_has_outpoint(prev.push(h), u) <==> (runic_has_outpoint(
                r,
                u,
            ) || outpoint_among(usm, u)) by {
                lemma_runic_has_outpoint_push(prev, h, u);
            }
            if runic_unique(r) {
                assert forall|i: int, j: int| 0 <= i < j < prev.push(h).len() implies !((
                #[trigger] prev.push(h)[i]).rune == (#[trigger] prev.push(h)[j]).rune
                    && outpoint_eq(
                    prev.push(h)[i].utxo.utxo.outpoint,
                    prev.push(h)[j].utxo.utxo.outpoint,
                )) by {
                    if j < prev.len() {
                        assert(prev.push(h)[i] == prev[i]);
                        assert(prev.push(h)[j] == prev[j]);
                    } else {
                        assert(prev.push(h)[j] == h);
                        assert(prev.push(h)[i] == prev[i]);
                        if prev[i].rune == rid && outpoint_eq(
                            prev[i].utxo.utxo.outpoint,
                            x.utxo.outpoint,
                        ) {
                            assert(runic_has(prev, rid, x.utxo));
                        }
                    }
                }
            }
        }
    }
}

/// Records for one rune after an insertion under a (possibly different)
/// rune: the old ones, plus the inserted outputs when the runes agree.
pub proof fn lemma_runic_inserted_rune_membership(
    r: Seq<RunicHolding>,
    rid: RuneId,
    us: Seq<RunicUtxo>,
    rid2: RuneId,
    u: Utxo,
)
    ensures
        runic_has(runic_inserted(r, rid, us), rid2, u) <==> (runic_has(r, rid2, u) || (rid2 == rid
            && outpoint_among(us.map_values(|x: RunicUtxo| x.utxo), u))),
    decreases us.len(),
{
    let usm = us.map_values(|x: RunicUtxo| x.utxo);
    if us.len() == 0 {
        assert(!outpoint_among(usm, u));
    } else {
        let qs = us.drop_last();
        let x = us.last();
        lemma_runic_inserted_rune_membership(r, rid, qs, rid2, u);
        let prev = runic_inserted(r, rid, qs);
        let qsm = qs.map_values(|y: RunicUtxo| y.utxo);
        assert(qsm =~= usm.drop_last());
        assert(usm[us.len() - 1] == x.utxo);
        assert forall|w: Utxo| outpoint_among(usm, w) <==> (outpoint_among(qsm, w) || outpoint_eq(
            x.utxo.outpoint,
            w.outpoint,
        )) by {
            if outpoint_among(usm, w) {
                let k = choose|k: int|
                    0 <= k < usm.len() && outpoint_eq(#[trigger] usm[k].outpoint, w.outpoint);
                if k < qsm.len() {
                    assert(qsm[k] == usm[k]);
                    assert(outpoint_among(qsm, w));
                }
            }
            if outpoint_among(qsm, w) {
                let k = choose|k: int|
                    0 <= k < qsm.len() && outpoint_eq(#[trigger] qsm[k].outpoint, w.outpoint);
                assert(usm[k] == qsm[k]);
                assert(outpoint_among(usm, w));
            }
            if outpoint_eq(x.utxo.outpoint, w.outpoint) {
                assert(outpoint_eq(usm[us.len() - 1].outpoint, w.outpoint));
                assert(outpoint_among(usm, w));
            }
        }
        if runic_has(prev, rid, x.utxo) {
            assert(runic_inserted(r, rid, us) == prev);
            if rid2 == rid && outpoint_eq(x.utxo.outpoint, u.outpoint) && !runic_has(r, rid2, u) {
                let i = choose|i: int|
                    0 <= i < prev.len() && (#[trigger] prev[i]).rune == rid && outpoint_eq(
                        prev[i].utxo.utxo.outpoint,
                        x.utxo.outpoint,
                    );
                assert(outpoint_eq(prev[i].utxo.utxo.outpoint, u.outpoint));
                assert(runic_has(prev, rid2, u));
            }
        } else {
            let h = RunicHolding { rune: rid, utxo: x };
            assert(runic_inserted(r, rid, us) == prev.push(h));
            assert forall|w: Utxo| runic_has(prev.push(h), rid2, w) <==> (runic_has(prev, rid2, w)
                || (rid2 == rid && outpoint_eq(x.utxo.outpoint, w.outpoint))) by {
                if runic_has(prev.push(h), rid2, w) {
                    let i = choose|i: int|
                        0 <= i < prev.push(h).len() && (#[trigger] prev.push(h)[i]).rune == rid2
                            && outpoint_eq(prev.push(h)[i].utxo.utxo.outpoint, w.outpoint);
                    if i < prev.len() {
                        assert(prev.push(h)[i] == prev[i]);
                        assert(runic_has(prev, rid2, w));
                    } else {
                        assert(prev.push(h)[i] == h);
                    }
                }
                if runic_has(prev, rid2, w) {
                    let i = choose|i: int|
                        0 <= i < prev.len() && (#[trigger] prev[i]).rune == rid2 && outpoint_eq(
                            prev[i].utxo.utxo.outpoint,
                            w.outpoint,
                        );
                    assert(prev.push(h)[i] == prev[i]);
                    assert(runic_has(prev.push(h), rid2, w));
                }
                if rid2 == rid && outpoint_eq(x.utxo.outpoint, w.outpoint) {
                    assert(prev.push(h)[prev.len() as int] == h);
                    assert(runic_has(prev.push(h), rid2, w));
                }
            }
        }
    }
}

/// Two records describe the same output: same outpoint, value and height.
pub open spec fn utxo_equiv(a: Utxo, b: Utxo) -> bool {
    outpoint_eq(a.outpoint, b.outpoint) && a.value == b.value && a.height == b.height
}

/// Some plain record of `s` is exactly the value `u`.
pub open spec fn plain_has_record(s: Seq<Utxo>, u: Utxo) -> bool {
    exists|i: int| 0 <= i < s.len() && (#[trigger] s[i]) == u
}

/// Some plain record of `s` describes exactly the output `u`.
pub open spec fn plain_has_exact(s: Seq<Utxo>, u: Utxo) -> bool {
    exists|i: int| 0 <= i < s.len() && utxo_equiv(#[trigger] s[i], u)
}

/// Some record of `s` carries exactly balance `bal` of rune `rid` on the
/// output `u`.
pub open spec fn runic_has_exact(s: Seq<RunicHolding>, rid: RuneId, u: Utxo, bal: u128) -> bool {
    exists|i: int|
        0 <= i < s.len() && (#[trigger] s[i]).rune == rid && s[i].utxo.balance == bal
            && utxo_equiv(s[i].utxo.utxo, u)
}

/// Rune insertion only appends: the old records stay in place, and every new
/// record is one of the inserted outputs under the given rune.
pub proof fn lemma_runic_inserted_appends(r: Seq<RunicHolding>, rid: RuneId, us: Seq<RunicUtxo>)
    ensures
        runic_inserted(r, rid, us).len() >= r.len(),
        forall|k: int| 0 <= k < r.len() ==> runic_inserted(r, rid, us)[k] == r[k],
        forall|k: int|
            #![trigger runic_inserted(r, rid, us)[k]]
            r.len() <= k < runic_inserted(r, rid, us).len() ==> exists|m: int|
                0 <= m < us.len() && runic_inserted(r, rid, us)[k] == (RunicHolding {
                    rune: rid,
                    utxo: us[m],
                }),
    decreases us.len(),
{
    if us.len() > 0 {
        let qs = us.drop_last();
        lemma_runic_inserted_appends(r, rid, qs);
        let prev = runic_inserted(r, rid, qs);
        if !runic_has(prev, rid, us.last().utxo) {
            let h = RunicHolding { rune: rid, utxo: us.last() };
            assert(runic_inserted(r, rid, us) == prev.push(h));
            assert forall|k: int|
                #![trigger prev.push(h)[k]]
                r.len() <= k < prev.push(h).len() implies exists|m: int|
                0 <= m < us.len() && prev.push(h)[k] == (RunicHolding {
                    rune: rid,
                    utxo: us[m],
                }) by {
                if k < prev.len() {
                    assert(prev.push(h)[k] == prev[k]);
                    let m = choose|m: int|
                        0 <= m < qs.len() && prev[k] == (RunicHolding { rune: rid, utxo: qs[m] });
                    assert(qs[m] == us[m]);
                    assert(prev.push(h)[k] == (RunicHolding { rune: rid, utxo: us[m] }));
                } else {
                    assert(prev.push(h)[k] == h);
                    assert(us.last() == us[us.len() - 1]);
                    assert(prev.push(h)[k] == (RunicHolding {
                        rune: rid,
                        utxo: us[us.len() - 1],
                    }));
                }
            }
        } else {
            assert forall|k: int|
                #![trigger prev[k]]
                r.len() <= k < prev.len() implies exists|m: int|
                0 <= m < us.len() && prev[k] == (RunicHolding { rune: rid, utxo: us[m] }) by {
                let m = choose|m: int|
                    0 <= m < qs.len() && prev[k] == (RunicHolding { rune: rid, utxo: qs[m] });
                assert(qs[m] == us[m]);
            }
        }
    }
}

/// Removal keeps only (some of) the original records, each unchanged.
pub proof fn lemma_plain_removed_elements(p: Seq<Utxo>, rm: Seq<Utxo>)
    ensures
        forall|k: int|
            #![trigger plain_removed(p, rm)[k]]
            0 <= k < plain_removed(p, rm).len() ==> exists|m: int|
                0 <= m < p.len() && plain_removed(p, rm)[k] == p[m],
    decreases p.len(),
{
    if p.len() > 0 {
        let q = p.drop_last();
        lemma_plain_removed_elements(q, rm);
        let rest = plain_removed(q, rm);
        assert(forall|m: int| 0 <= m < q.len() ==> q[m] == p[m]);
        if !outpoint_among(rm, p.last()) {
            assert(plain_removed(p, rm) == rest.push(p.last()));
            assert forall|k: int|
                #![trigger rest.push(p.last())[k]]
                0 <= k < rest.push(p.last()).len() implies exists|m: int|
                0 <= m < p.len() && rest.push(p.last())[k] == p[m] by {
                if k < rest.len() {
                    assert(rest.push(p.last())[k] == rest[k]);
                    let m = choose|m: int| 0 <= m < q.len() && rest[k] == q[m];
                    assert(rest.push(p.last())[k] == p[m]);
                } else {
                    assert(rest.push(p.last())[k] == p[p.len() - 1]);
                }
            }
        } else {
            assert forall|k: int|
                #![trigger rest[k]]
                0 <= k < rest.len() implies exists|m: int|
                0 <= m < p.len() && rest[k] == p[m] by {
                let m = choose|m: int| 0 <= m < q.len() && rest[k] == q[m];
                assert(rest[k] == p[m]);
            }
        }
    }
}

/// A record whose outpoint is not removed survives a removal, unchanged.
pub proof fn lemma_plain_removed_keeps(p: Seq<Utxo>, rm: Seq<Utxo>, i: int)
    requires
        0 <= i < p.len(),
        !outpoint_among(rm, p[i]),
    ensures
        plain_has_record(plain_removed(p, rm), p[i]),
    decreases p.len(),
{
    let q = p.drop_last();
    let x = p.last();
    let rest = plain_removed(q, rm);
    assert(forall|m: int| 0 <= m < q.len() ==> q[m] == p[m]);
    if i == p.len() - 1 {
        assert(plain_removed(p, rm) == rest.push(x));
        assert(rest.push(x)[rest.len() as int] == p[i]);
    } else {
        lemma_plain_removed_keeps(q, rm, i);
        let k = choose|k: int| 0 <= k < rest.len() && (#[trigger] rest[k]) == q[i];
        if outpoint_among(rm, x) {
            assert(plain_removed(p, rm) == rest);
        } else {
            assert(plain_removed(p, rm) == rest.push(x));
            assert(rest.push(x)[k] == rest[k]);
        }
        assert(plain_removed(p, rm)[k] == p[i]);
    }
}

/// Plain insertion only appends: the old records stay in place, and every
/// new record is one of the inserted outputs.
pub proof fn lemma_plain_inserted_appends(p: Seq<Utxo>, r: Seq<RunicHolding>, us: Seq<Utxo>)
    ensures
        plain_inserted(p, r, us).len() >= p.len(),
        forall|k: int| 0 <= k < p.len() ==> plain_inserted(p, r, us)[k] == p[k],
        forall|k: int|
            #![trigger plain_inserted(p, r, us)[k]]
            p.len() <= k < plain_inserted(p, r, us).len() ==> exists|m: int|
                0 <= m < us.len() && plain_inserted(p, r, us)[k] == us[m],
    decreases us.len(),
{
    if us.len() > 0 {
        let qs = us.drop_last();
        lemma_plain_inserted_appends(p, r, qs);
        let prev = plain_inserted(p, r, qs);
        assert(forall|m: int| 0 <= m < qs.len() ==> qs[m] == us[m]);
        if !(plain_has(prev, us.last()) || runic_has_outpoint(r, us.last())) {
            let x = us.last();
            assert(plain_inserted(p, r, us) == prev.push(x));
            assert forall|k: int|
                #![trigger prev.push(x)[k]]
                p.len() <= k < prev.push(x).len() implies exists|m: int|
                0 <= m < us.len() && prev.push(x)[k] == us[m] by {
                if k < prev.len() {
                    assert(prev.push(x)[k] == prev[k]);
                    let m = choose|m: int| 0 <= m < qs.len() && prev[k] == qs[m];
                    assert(prev.push(x)[k] == us[m]);
                } else {
                    assert(prev.push(x)[k] == us[us.len() - 1]);
                }
            }
        } else {
            assert forall|k: int|
                #![trigger prev[k]]
                p.len() <= k < prev.len() implies exists|m: int|
                0 <= m < us.len() && prev[k] == us[m] by {
                let m = choose|m: int| 0 <= m < qs.len() && prev[k] == qs[m];
                assert(prev[k] == us[m]);
            }
        }
    }
}

/// An inserted output that is not already recorded, is not rune-bearing, and
/// shares its outpoint with no other inserted output lands as its own record,
/// value and height included.
pub proof fn lemma_plain_inserted_exact(p: Seq<Utxo>, r: Seq<RunicHolding>, us: Seq<Utxo>, m: int)
    requires
        0 <= m < us.len(),
        !plain_has(p, us[m]),
        !runic_has_outpoint(r, us[m]),
        forall|m2: int|
            0 <= m2 < us.len() && m2 != m ==> !outpoint_eq(
                (#[trigger] us[m2]).outpoint,
                us[m].outpoint,
            ),
    ensures
        exists|k: int|
            0 <= k < plain_inserted(p, r, us).len() && plain_inserted(p, r, us)[k] == us[m],
    decreases us.len(),
{
    let qs = us.drop_last();
    let x = us.last();
    let prev = plain_inserted(p, r, qs);
    assert(forall|m2: int| 0 <= m2 < qs.len() ==> qs[m2] == us[m2]);
    if m == us.len() - 1 {
        assert(!plain_has(prev, x)) by {
            lemma_plain_inserted_membership(p, r, qs);
            if outpoint_among(qs, x) {
                let m2 = choose|m2: int|
                    0 <= m2 < qs.len() && outpoint_eq(#[trigger] qs[m2].outpoint, x.outpoint);
                assert(outpoint_eq(us[m2].outpoint, us[m].outpoint));
            }
        }
        assert(plain_inserted(p, r, us) == prev.push(x));
        assert(prev.push(x)[prev.len() as int] == us[m]);
    } else {
        lemma_plain_inserted_exact(p, r, qs, m);
        let k = choose|k: int| 0 <= k < prev.len() && prev[k] == qs[m];
        if plain_has(prev, x) || runic_has_outpoint(r, x) {
            assert(plain_inserted(p, r, us) == prev);
        } else {
            assert(plain_inserted(p, r, us) == prev.push(x));
            assert(prev.push(x)[k] == prev[k]);
        }
        assert(plain_inserted(p, r, us)[k] == us[m]);
    }
}

/// Migrating outputs from plain to rune-bearing keeps the book well formed.
pub proof fn lemma_migrate_wf(p: Seq<Utxo>, r: Seq<RunicHolding>, rid: RuneId, us: Seq<RunicUtxo>)
    requires
        plain_unique(p),
        runic_unique(r),
        classes_exclusive(p, r),
    ensures
        plain_unique(plain_removed(p, us.map_values(|x: RunicUtxo| x.utxo))),
        runic_unique(runic_inserted(r, rid, us)),
        classes_exclusive(
            plain_removed(p, us.map_values(|x: RunicUtxo| x.utxo)),
            runic_inserted(r, rid, us),
        ),
{
    let usm = us.map_values(|x: RunicUtxo| x.utxo);
    let kept = plain_removed(p, usm);
    let newr = runic_inserted(r, rid, us);
    lemma_plain_removed_membership(p, usm);
    lemma_runic_inserted_membership(r, rid, us);
    assert forall|i: int, j: int| 0 <= i < kept.len() && 0 <= j < newr.len() implies !outpoint_eq(
        #[trigger] kept[i].outpoint,
        #[trigger] newr[j].utxo.utxo.outpoint,
    ) by {
        assert(plain_has(kept, kept[i])) by {
            assert(outpoint_eq(kept[i].outpoint, kept[i].outpoint));
        }
        assert(plain_has(p, kept[i]));
        assert(!outpoint_among(usm, kept[i]));
        let u = newr[j].utxo.utxo;
        assert(runic_has_outpoint(newr, u)) by {
            assert(outpoint_eq(newr[j].utxo.utxo.outpoint, u.outpoint));
        }
        if outpoint_eq(kept[i].outpoint, u.outpoint) {
            if runic_has_outpoint(r, u) {
                let k = choose|k: int|
                    0 <= k < r.len() && outpoint_eq(#[trigger] r[k].utxo.utxo.outpoint, u.outpoint);
                let m = choose|m: int|
                    0 <= m < p.len() && outpoint_eq(#[trigger] p[m].outpoint, kept[i].outpoint);
                assert(!outpoint_eq(p[m].outpoint, r[k].utxo.utxo.outpoint));
            } else {
                assert(outpoint_among(usm, u));
                let k = choose|k: int|
                    0 <= k < usm.len() && outpoint_eq(#[trigger] usm[k].outpoint, u.outpoint);
                assert(outpoint_eq(usm[k].outpoint, kept[i].outpoint));
                assert(outpoint_among(usm, kept[i]));
            }
        }
    }
}

proof fn lemma_among_drop_last(us: Seq<Utxo>, u: Utxo)
    requires
        us.len() > 0,
    ensures
        outpoint_among(us, u) <==> (outpoint_among(us.drop_last(), u) || outpoint_eq(
            us.last().outpoint,
            u.outpoint,
        )),
{
    let qs = us.drop_last();
    if outpoint_among(us, u) {
        let k = choose|k: int|
            0 <= k < us.len() && outpoint_eq(#[trigger] us[k].outpoint, u.outpoint);
        if k < qs.len() {
            assert(qs[k] == us[k]);
            assert(outpoint_among(qs, u));
        }
    }
    if outpoint_among(qs, u) {
        let k = choose|k: int|
            0 <= k < qs.len() && outpoint_eq(#[trigger] qs[k].outpoint, u.outpoint);
        assert(us[k] == qs[k]);
        assert(outpoint_among(us, u));
    }
    if outpoint_eq(us.last().outpoint, u.outpoint) {
        assert(outpoint_eq(us[us.len() - 1].outpoint, u.outpoint));
        assert(outpoint_among(us, u));
    }
}

/// Outpoints present after a plain insertion: the old ones plus those of the
/// inserted outputs that are not rune-bearing.
pub proof fn lemma_plain_inserted_membership(p: Seq<Utxo>, r: Seq<RunicHolding>, us: Seq<Utxo>)
    ensures
        forall|u: Utxo|
            plain_has(plain_inserted(p, r, us), u) <==> (plain_has(p, u) || (outpoint_among(us, u)
                && !runic_has_outpoint(r, u))),
    decreases us.len(),
{
    if us.len() > 0 {
        let qs = us.drop_last();
        let x = us.last();
        lemma_plain_inserted_membership(p, r, qs);
        let prev = plain_inserted(p, r, qs);
        assert forall|u: Utxo| #![auto] outpoint_among(us, u) <==> (outpoint_among(qs, u)
            || outpoint_eq(x.outpoint, u.outpoint)) by {
            lemma_among_drop_last(us, u);
        }
        if plain_has(prev, x) || runic_has_outpoint(r, x) {
            assert(plain_inserted(p, r, us) == prev);
            assert forall|u: Utxo| plain_has(prev, u) <==> (plain_has(p, u) || (outpoint_among(
                us,
                u,
            ) && !runic_has_outpoint(r, u))) by {
                if outpoint_eq(x.outpoint, u.outpoint) {
                    if runic_has_outpoint(r, x) {
                        let k = choose|k: int|
                            0 <= k < r.len() && outpoint_eq(
                                #[trigger] r[k].utxo.utxo.outpoint,
                                x.outpoint,
                            );
                        assert(outpoint_eq(r[k].utxo.utxo.outpoint, u.outpoint));
                        assert(runic_has_outpoint(r, u));
                    } else {
                        assert(plain_has(prev, x));
                        let k = choose|k: int|
                            0 <= k < prev.len() && outpoint_eq(
                                #[trigger] prev[k].outpoint,
                                x.outpoint,
                            );
                        assert(outpoint_eq(prev[k].outpoint, u.outpoint));
                        assert(plain_has(prev, u));
                    }
                }
            }
        } else {
            assert(plain_inserted(p, r, us) == prev.push(x));
            assert forall|u: Utxo| plain_has(prev.push(x), u) <==> (plain_has(p, u) || (
            outpoint_among(us, u) && !runic_has_outpoint(r, u))) by {
                lemma_plain_has_push(prev, x, u);
                if outpoint_eq(x.outpoint, u.outpoint) {
                    if runic_has_outpoint(r, u) {
                        let k = choose|k: int|
                            0 <= k < r.len() && outpoint_eq(
                                #[trigger] r[k].utxo.utxo.outpoint,
                                u.outpoint,
                            );
                        assert(outpoint_eq(r[k].utxo.utxo.outpoint, x.outpoint));
                        assert(runic_has_outpoint(r, x));
                    }
                }
            }
        }
    }
}

/// Inserting outputs that are all already recorded changes nothing.
pub proof fn lemma_plain_inserted_noop(p: Seq<Utxo>, r: Seq<RunicHolding>, us: Seq<Utxo>)
    requires
        forall|k: int|
            0 <= k < us.len() ==> plain_has(p, #[trigger] us[k]) || runic_has_outpoint(r, us[k]),
    ensures
        plain_inserted(p, r, us) == p,
    decreases us.len(),
{
    if us.len() > 0 {
        let qs = us.drop_last();
        assert(forall|k: int| 0 <= k < qs.len() ==> qs[k] == us[k]);
        lemma_plain_inserted_noop(p, r, qs);
        assert(us.last() == us[us.len() - 1]);
    }
}

/// Recording the same plain outputs twice yields the same records as
/// recording them once.
pub proof fn lemma_record_plain_idempotent(p: Seq<Utxo>, r: Seq<RunicHolding>, us: Seq<Utxo>)
    ensures
        plain_inserted(plain_inserted(p, r, us), r, us) == plain_inserted(p, r, us),
{
    let p1 = plain_inserted(p, r, us);
    lemma_plain_inserted_membership(p, r, us);
    assert forall|k: int| 0 <= k < us.len() implies plain_has(p1, #[trigger] us[k])
        || runic_has_outpoint(r, us[k]) by {
        assert(outpoint_eq(us[k].outpoint, us[k].outpoint));
        assert(outpoint_among(us, us[k]));
    }
    lemma_plain_inserted_noop(p1, r, us);
}

/// Reclassifying a plain output as rune-bearing moves it: the outpoint
/// leaves the plain records and appears (only) under the given rune; the
/// plain total falls by the record's value and the rune total rises by the
/// carried balance. Other runes are untouched.
pub proof fn lemma_reclassify_moves(
    p: Seq<Utxo>,
    r: Seq<RunicHolding>,
    rid: RuneId,
    ru: RunicUtxo,
    i: int,
)
    requires
        plain_unique(p),
        runic_unique(r),
        classes_exclusive(p, r),
        0 <= i < p.len(),
        outpoint_eq(p[i].outpoint, ru.utxo.outpoint),
    ensures
        !plain_has(plain_removed(p, seq![ru].map_values(|x: RunicUtxo| x.utxo)), ru.utxo),
        runic_has(runic_inserted(r, rid, seq![ru]), rid, ru.utxo),
        sum_plain(plain_removed(p, seq![ru].map_values(|x: RunicUtxo| x.utxo))) == sum_plain(p)
            - p[i].value,
        sum_runic(runic_inserted(r, rid, seq![ru]), rid) == sum_runic(r, rid) + ru.balance,
        forall|rid2: RuneId|
            rid2 != rid ==> sum_runic(runic_inserted(r, rid, seq![ru]), rid2) == sum_runic(r, rid2),
{
    let rm = seq![ru].map_values(|x: RunicUtxo| x.utxo);
    assert(rm =~= seq![ru.utxo]);
    lemma_plain_removed_membership(p, rm);
    assert(outpoint_eq(rm[0].outpoint, ru.utxo.outpoint));
    assert(outpoint_among(rm, ru.utxo));
    assert(outpoint_among(rm, p[i])) by {
        assert(outpoint_eq(rm[0].outpoint, p[i].outpoint));
    }
    assert forall|j: int| 0 <= j < p.len() && j != i implies !outpoint_among(
        rm,
        #[trigger] p[j],
    ) by {
        if outpoint_among(rm, p[j]) {
            let k = choose|k: int|
                0 <= k < rm.len() && outpoint_eq(#[trigger] rm[k].outpoint, p[j].outpoint);
            assert(k == 0);
            assert(outpoint_eq(p[i].outpoint, p[j].outpoint));
            if i < j {
                assert(!outpoint_eq(p[i].outpoint, p[j].outpoint));
            } else {
                assert(!outpoint_eq(p[j].outpoint, p[i].outpoint));
            }
        }
    }
    lemma_sum_plain_removed(p, rm, i);
    assert(!runic_has(r, rid, ru.utxo)) by {
        if runic_has(r, rid, ru.utxo) {
            let k = choose|k: int|
                0 <= k < r.len() && (#[trigger] r[k]).rune == rid && outpoint_eq(
                    r[k].utxo.utxo.outpoint,
                    ru.utxo.outpoint,
                );
            assert(!outpoint_eq(p[i].outpoint, r[k].utxo.utxo.outpoint));
        }
    }
    let h = RunicHolding { rune: rid, utxo: ru };
    assert(seq![ru].drop_last() =~= Seq::<RunicUtxo>::empty());
    assert(runic_inserted(r, rid, Seq::<RunicUtxo>::empty()) == r);
    assert(seq![ru].last() == ru);
    assert(runic_inserted(r, rid, seq![ru]) == r.push(h));
    assert(runic_has(r.push(h), rid, ru.utxo)) by {
        assert(r.push(h)[r.len() as int] == h);
        assert(outpoint_eq(h.utxo.utxo.outpoint, ru.utxo.outpoint));
    }
    assert(r.push(h).drop_last() =~= r);
    assert(sum_runic(r.push(h), rid) == sum_runic(r, rid) + ru.balance);
    assert forall|rid2: RuneId| rid2 != rid implies sum_runic(r.push(h), rid2) == sum_runic(
        r,
        rid2,
    ) by {
        assert(r.push(h).last() == h);
    }
}

pub(crate) fn copy_outpoint(o: &Outpoint) -> (r: Outpoint)
    ensures
        r.txid@ == o.txid@,
        r.vout == o.vout,
{
    Outpoint { txid: vstd::slice::slice_to_vec(o.txid.as_slice()), vout: o.vout }
}

pub(crate) fn copy_utxo(u: &Utxo) -> (r: Utxo)
    ensures
        outpoint_eq(r.outpoint, u.outpoint),
        r.value == u.value,
        r.height == u.height,
{
    Utxo { outpoint: copy_outpoint(&u.outpoint), value: u.value, height: u.height }
}

fn outpoint_matches(a: &Outpoint, b: &Outpoint) -> (r: bool)
    ensures
        r == outpoint_eq(*a, *b),
{
    if a.vout != b.vout {
        return false;
    }
    if a.txid.len() != b.txid.len() {
        return false;
    }
    let n = a.txid.len();
    let mut i: usize = 0;
    while i < n
        invariant
            n == a.txid@.len() == b.txid@.len(),
            i <= n,
            forall|k: int| 0 <= k < i ==> a.txid@[k] == b.txid@[k],
        decreases n - i,
    {
        if a.txid[i] != b.txid[i] {
            return false;
        }
        i += 1;
    }
    proof {
        assert(a.txid@ =~= b.txid@);
    }
    true
}

/// With unique addresses, the book index of an address is the only index
/// whose book carries that address.
pub proof fn lemma_book_index_unique(books: Seq<Book>, a: Seq<char>, j: int)
    requires
        addrs_unique(books),
        0 <= j < books.len(),
        books[j].addr@ == a,
    ensures
        s_has_book(books, a),
        s_book_index(books, a) == j,
{
    assert(s_has_book(books, a));
    let i = s_book_index(books, a);
    assert(0 <= i < books.len() && books[i].addr@ == a);
    if i != j {
        if i < j {
            assert(books[i].addr@ != books[j].addr@);
        } else {
            assert(books[j].addr@ != books[i].addr@);
        }
    }
}

/// Replacing the book at index `i` by one with the same address changes the
/// records of that address alone.
pub proof fn lemma_book_replaced(books: Seq<Book>, books2: Seq<Book>, i: int)
    requires
        addrs_unique(books),
        0 <= i < books.len(),
        books2 == books.update(i, books2[i]),
        books2[i].addr@ == books[i].addr@,
    ensures
        addrs_unique(books2),
        s_plain(books2, books[i].addr@) == books2[i].plain@,
        s_runic(books2, books[i].addr@) == books2[i].runic@,
        forall|a: Seq<char>|
            a != books[i].addr@ ==> s_plain(books2, a) == s_plain(books, a) && s_runic(books2, a)
                == s_runic(books, a),
{
    assert forall|p: int, q: int| 0 <= p < q < books2.len() implies (
    #[trigger] books2[p].addr@) != (#[trigger] books2[q].addr@) by {
        assert(books[p].addr@ != books[q].addr@);
        assert(books2[p].addr@ == books[p].addr@);
        assert(books2[q].addr@ == books[q].addr@);
    }
    lemma_book_index_unique(books2, books[i].addr@, i);
    assert forall|a: Seq<char>| a != books[i].addr@ implies s_plain(books2, a) == s_plain(books, a)
        && s_runic(books2, a) == s_runic(books, a) by {
        if s_has_book(books, a) {
            let j = s_book_index(books, a);
            assert(books2[j].addr@ == books[j].addr@);
            lemma_book_index_unique(books2, a, j);
        } else {
            if s_has_book(books2, a) {
                let j = s_book_index(books2, a);
                assert(books2[j].addr@ == a);
                assert(books[j].addr@ == a);
                assert(s_has_book(books, a));
            }
        }
    }
}

/// Appending a book for a fresh address leaves every other address's records
/// unchanged.
pub proof fn lemma_book_appended(books: Seq<Book>, b: Book)
    requires
        addrs_unique(books),
        !s_has_book(books, b.addr@),
    ensures
        addrs_unique(books.push(b)),
        s_plain(books.push(b), b.addr@) == b.plain@,
        s_runic(books.push(b), b.addr@) == b.runic@,
        forall|a: Seq<char>|
            a != b.addr@ ==> s_plain(books.push(b), a) == s_plain(books, a) && s_runic(
                books.push(b),
                a,
            ) == s_runic(books, a),
{
    let books2 = books.push(b);
    assert forall|p: int, q: int| 0 <= p < q < books2.len() implies (
    #[trigger] books2[p].addr@) != (#[trigger] books2[q].addr@) by {
        if q < books.len() {
            assert(books[p].addr@ != books[q].addr@);
        } else {
            assert(books2[q] == b);
            assert(books2[p] == books[p]);
            if books[p].addr@ == b.addr@ {
                assert(s_has_book(books, b.addr@));
            }
        }
    }
    lemma_book_index_unique(books2, b.addr@, books.len() as int);
    assert forall|a: Seq<char>| a != b.addr@ implies s_plain(books2, a) == s_plain(books, a)
        && s_runic(books2, a) == s_runic(books, a) by {
        if s_has_book(books, a) {
            let j = s_book_index(books, a);
            assert(books2[j].addr@ == a);
            lemma_book_index_unique(books2, a, j);
        } else {
            if s_has_book(books2, a) {
                let j = s_book_index(books2, a);
                assert(0 <= j < books2.len() && books2[j].addr@ == a);
                assert(j < books.len() ==> s_has_book(books, a));
                assert(j == books.len() ==> a == b.addr@);
            }
        }
    }
}

impl UtxoManager {
    /// The ledger invariant: unique addresses, unique outpoints per class,
    /// and exclusive classification within each address.
    pub open spec fn wf(&self) -> bool {
        &&& addrs_unique(self.books@)
        &&& forall|i: int| 0 <= i < self.books@.len() ==> book_wf(#[trigger] self.books@[i])
    }

    /// The plain records of `a`.
    pub open spec fn plain_of(&self, a: Seq<char>) -> Seq<Utxo> {
        s_plain(self.books@, a)
    }

    /// The rune records of `a`.
    pub open spec fn runic_of(&self, a: Seq<char>) -> Seq<RunicHolding> {
        s_runic(self.books@, a)
    }

    /// An empty ledger.
    pub fn new() -> (r: UtxoManager)
        ensures
            r.wf(),
            forall|a: Seq<char>| r.plain_of(a) == Seq::<Utxo>::empty(),
            forall|a: Seq<char>| r.runic_of(a) == Seq::<RunicHolding>::empty(),
    {
        UtxoManager { books: Vec::new() }
    }

    fn find_book(&self, addr: &String) -> (r: Option<usize>)
        ensures
            match r {
                Some(i) => i < self.books@.len() && self.books@[i as int].addr@ == addr@,
                None => !s_has_book(self.books@, addr@),
            },
    {
        let n = self.books.len();
        let mut i: usize = 0;
        while i < n
            invariant
                n == self.books@.len(),
                i <= n,
                forall|k: int| 0 <= k < i ==> (#[trigger] self.books@[k].addr@) != addr@,
            decreases n - i,
        {
            if self.books[i].addr == *addr {
                return Some(i);
            }
            i += 1;
        }
        None
    }

    fn ensure_book(&mut self, addr: &String) -> (idx: usize)
        requires
            old(self).wf(),
        ensures
            final(self).wf(),
            idx < final(self).books@.len(),
            final(self).books@[idx as int].addr@ == addr@,
            s_book_index(final(self).books@, addr@) == idx,
            final(self).plain_of(addr@) == old(self).plain_of(addr@),
            final(self).runic_of(addr@) == old(self).runic_of(addr@),
            forall|a: Seq<char>|
                a != addr@ ==> final(self).plain_of(a) == old(self).plain_of(a)
                    && final(self).runic_of(a) == old(self).runic_of(a),
    {
        match self.find_book(addr) {
            Some(i) => {
                proof {
                    lemma_book_index_unique(self.books@, addr@, i as int);
                }
                i
            },
            None => {
                let b = Book { addr: addr.clone(), plain: Vec::new(), runic: Vec::new() };
                proof {
                    lemma_book_appended(self.books@, b);
                }
                self.books.push(b);
                proof {
                    lemma_book_index_unique(self.books@, addr@, self.books@.len() - 1);
                }
                self.books.len() - 1
            },
        }
    }

    fn plain_contains(s: &Vec<Utxo>, u: &Utxo) -> (r: bool)
        ensures
            r == plain_has(s@, *u),
    {
        let n = s.len();
        let mut i: usize = 0;
        while i < n
            invariant
                n == s@.len(),
                i <= n,
                forall|k: int| 0 <= k < i ==> !outpoint_eq(#[trigger] s@[k].outpoint, u.outpoint),
            decreases n - i,
        {
            if outpoint_matches(&s[i].outpoint, &u.outpoint) {
                return true;
            }
            i += 1;
        }
        false
    }

    fn runic_contains_outpoint(s: &Vec<RunicHolding>, u: &Utxo) -> (r: bool)
        ensures
            r == runic_has_outpoint(s@, *u),
    {
        let n = s.len();
        let mut i: usize = 0;
        while i < n
            invariant
                n == s@.len(),
                i <= n,
                forall|k: int|
                    0 <= k < i ==> !outpoint_eq(
                        #[trigger] s@[k].utxo.utxo.outpoint,
                        u.outpoint,
                    ),
            decreases n - i,
        {
            if outpoint_matches(&s[i].utxo.utxo.outpoint, &u.outpoint) {
                return true;
            }
            i += 1;
        }
        false
    }

    fn runic_contains(s: &Vec<RunicHolding>, rid: RuneId, u: &Utxo) -> (r: bool)
        ensures
            r == runic_has(s@, rid, *u),
    {
        let n = s.len();
        let mut i: usize = 0;
        while i < n
            invariant
                n == s@.len(),
                i <= n,
                forall|k: int|
                    0 <= k < i ==> !((#[trigger] s@[k]).rune == rid && outpoint_eq(
                        s@[k].utxo.utxo.outpoint,
                        u.outpoint,
                    )),
            decreases n - i,
        {
            if s[i].rune == rid && outpoint_matches(&s[i].utxo.utxo.outpoint, &u.outpoint) {
                return true;
            }
            i += 1;
        }
        false
    }

    fn utxo_among(rm: &Vec<Utxo>, u: &Utxo) -> (r: bool)
        ensures
            r == outpoint_among(rm@, *u),
    {
        let n = rm.len();
        let mut k: usize = 0;
        while k < n
            invariant
                n == rm@.len(),
                k <= n,
                forall|j: int| 0 <= j < k ==> !outpoint_eq(#[trigger] rm@[j].outpoint, u.outpoint),
            decreases n - k,
        {
            if outpoint_matches(&rm[k].outpoint, &u.outpoint) {
                return true;
            }
            k += 1;
        }
        false
    }

    fn utxo_among_runic(rm: &Vec<RunicUtxo>, u: &Utxo) -> (r: bool)
        ensures
            r == outpoint_among(rm@.map_values(|x: RunicUtxo| x.utxo), *u),
    {
        let ghost rmv = rm@.map_values(|x: RunicUtxo| x.utxo);
        let n = rm.len();
        let mut k: usize = 0;
        while k < n
            invariant
                n == rm@.len(),
                rmv == rm@.map_values(|x: RunicUtxo| x.utxo),
                k <= n,
                forall|j: int| 0 <= j < k ==> !outpoint_eq(#[trigger] rmv[j].outpoint, u.outpoint),
            decreases n - k,
        {
            proof {
                assert(rmv[k as int] == rm@[k as int].utxo);
            }
            if outpoint_matches(&rm[k].utxo.outpoint, &u.outpoint) {
                proof {
                    assert(outpoint_eq(rmv[k as int].outpoint, u.outpoint));
                }
                return true;
            }
            k += 1;
        }
        false
    }

    fn filter_plain_one(plain: Vec<Utxo>, t: &Utxo) -> (r: Vec<Utxo>)
        ensures
            r@ == plain_removed(plain@, seq![*t]),
    {
        let ghost p0 = plain@;
        let ghost rmv = seq![*t];
        let mut kept: Vec<Utxo> = Vec::new();
        let mut rest = plain;
        let ghost mut done: int = 0;
        while rest.len() > 0
            invariant
                0 <= done <= p0.len(),
                rest@ == p0.subrange(done, p0.len() as int),
                kept@ == plain_removed(p0.subrange(0, done), rmv),
                rmv == seq![*t],
            decreases rest@.len(),
        {
            let u = rest.remove(0);
            proof {
                assert(u == p0[done]);
                assert(rest@ =~= p0.subrange(done + 1, p0.len() as int));
                assert(p0.subrange(0, done + 1).drop_last() =~= p0.subrange(0, done));
                assert(p0.subrange(0, done + 1).last() == p0[done]);
            }
            let hit = outpoint_matches(&t.outpoint, &u.outpoint);
            proof {
                if hit {
                    assert(outpoint_eq(rmv[0].outpoint, u.outpoint));
                    assert(outpoint_among(rmv, u));
                } else {
                    if outpoint_among(rmv, u) {
                        let k = choose|k: int|
                            0 <= k < rmv.len() && outpoint_eq(
                                #[trigger] rmv[k].outpoint,
                                u.outpoint,
                            );
                        assert(k == 0);
                    }
                }
            }
            if !hit {
                kept.push(u);
            }
            proof {
                done = done + 1;
            }
        }
        proof {
            assert(p0.subrange(0, done) =~= p0);
        }
        kept
    }

    fn filter_plain_runic(plain: Vec<Utxo>, rm: &Vec<RunicUtxo>) -> (r: Vec<Utxo>)
        ensures
            r@ == plain_removed(plain@, rm@.map_values(|x: RunicUtxo| x.utxo)),
    {
        let ghost p0 = plain@;
        let ghost rmv = rm@.map_values(|x: RunicUtxo| x.utxo);
        let mut kept: Vec<Utxo> = Vec::new();
        let mut rest = plain;
        let ghost mut done: int = 0;
        while rest.len() > 0
            invariant
                0 <= done <= p0.len(),
                rest@ == p0.subrange(done, p0.len() as int),
                kept@ == plain_removed(p0.subrange(0, done), rmv),
                rmv == rm@.map_values(|x: RunicUtxo| x.utxo),
            decreases rest@.len(),
        {
            let u = rest.remove(0);
            proof {
                assert(u == p0[done]);
                assert(rest@ =~= p0.subrange(done + 1, p0.len() as int));
                assert(p0.subrange(0, done + 1).drop_last() =~= p0.subrange(0, done));
                assert(p0.subrange(0, done + 1).last() == p0[done]);
            }
            if !Self::utxo_among_runic(rm, &u) {
                kept.push(u);
            }
            proof {
                done = done + 1;
            }
        }
        proof {
            assert(p0.subrange(0, done) =~= p0);
        }
        kept
    }

    fn insert_runic(runic: Vec<RunicHolding>, rid: RuneId, us: Vec<RunicUtxo>) -> (r: Vec<
        RunicHolding,
    >)
        ensures
            r@ == runic_inserted(runic@, rid, us@),
    {
        let ghost usv = us@;
        let ghost r0 = runic@;
        let mut acc = runic;
        let mut rest = us;
        let ghost mut done: int = 0;
        while rest.len() > 0
            invariant
                0 <= done <= usv.len(),
                rest@ == usv.subrange(done, usv.len() as int),
                acc@ == runic_inserted(r0, rid, usv.subrange(0, done)),
            decreases rest@.len(),
        {
            let u = rest.remove(0);
            proof {
                assert(u == usv[done]);
                assert(rest@ =~= usv.subrange(done + 1, usv.len() as int));
                assert(usv.subrange(0, done + 1).drop_last() =~= usv.subrange(0, done));
                assert(usv.subrange(0, done + 1).last() == usv[done]);
            }
            if !Self::runic_contains(&acc, rid, &u.utxo) {
                acc.push(RunicHolding { rune: rid, utxo: u });
            }
            proof {
                done = done + 1;
            }
        }
        proof {
            assert(usv.subrange(0, done) =~= usv);
        }
        acc
    }

    /// Forgets the plain record of `addr` sitting on the outpoint of `utxo`:
    /// used when that output is consumed by a submitted transaction.
    pub fn remove_bitcoin_utxo(&mut self, addr: &String, utxo: &Utxo)
        requires
            old(self).wf(),
        ensures
            final(self).wf(),
            final(self).plain_of(addr@) == plain_removed(old(self).plain_of(addr@), seq![*utxo]),
            final(self).runic_of(addr@) == old(self).runic_of(addr@),
            forall|a: Seq<char>|
                a != addr@ ==> final(self).plain_of(a) == old(self).plain_of(a)
                    && final(self).runic_of(a) == old(self).runic_of(a),
    {
        match self.find_book(addr) {
            None => {
                proof {
                    assert(self.plain_of(addr@) == Seq::<Utxo>::empty());
                }
            },
            Some(i) => {
                proof {
                    lemma_book_index_unique(self.books@, addr@, i as int);
                }
                let ghost mid = *self;
                let book = self.books.remove(i);
                let ghost p0 = book.plain@;
                let ghost r0 = book.runic@;
                proof {
                    assert(book_wf(mid.books@[i as int]));
                }
                let Book { addr: baddr, plain, runic } = book;
                let kept = Self::filter_plain_one(plain, utxo);
                proof {
                    lemma_plain_removed_membership(p0, seq![*utxo]);
                    lemma_removed_exclusive(p0, r0, seq![*utxo]);
                }
                let book2 = Book { addr: baddr, plain: kept, runic };
                proof {
                    assert(mid.books@.remove(i as int).insert(i as int, book2)
                        =~= mid.books@.update(i as int, book2));
                }
                self.books.insert(i, book2);
                proof {
                    lemma_book_replaced(mid.books@, self.books@, i as int);
                    assert forall|j: int| 0 <= j < self.books@.len() implies book_wf(
                        #[trigger] self.books@[j],
                    ) by {
                        if j != i {
                            assert(self.books@[j] == mid.books@[j]);
                        }
                    }
                }
            },
        }
    }

    /// Forgets every plain record of `addr` whose outpoint is among `rm`:
    /// used when a set of outputs is consumed by a submitted transaction.
    pub fn remove_bitcoin_utxos(&mut self, addr: &String, rm: &Vec<Utxo>)
        requires
            old(self).wf(),
        ensures
            final(self).wf(),
            final(self).plain_of(addr@) == plain_removed(old(self).plain_of(addr@), rm@),
            final(self).runic_of(addr@) == old(self).runic_of(addr@),
            forall|a: Seq<char>|
                a != addr@ ==> final(self).plain_of(a) == old(self).plain_of(a)
                    && final(self).runic_of(a) == old(self).runic_of(a),
    {
        match self.find_book(addr) {
            None => {
                proof {
                    assert(self.plain_of(addr@) == Seq::<Utxo>::empty());
                }
            },
            Some(i) => {
                proof {
                    lemma_book_index_unique(self.books@, addr@, i as int);
                }
                let ghost mid = *self;
                let book = self.books.remove(i);
                let ghost p0 = book.plain@;
                let ghost r0 = book.runic@;
                proof {
                    assert(book_wf(mid.books@[i as int]));
                }
                let Book { addr: baddr, plain, runic } = book;
                let ghost rmv = rm@;
                let mut kept: Vec<Utxo> = Vec::new();
                let mut rest = plain;
                let ghost mut done: int = 0;
                while rest.len() > 0
                    invariant
                        0 <= done <= p0.len(),
                        rest@ == p0.subrange(done, p0.len() as int),
                        kept@ == plain_removed(p0.subrange(0, done), rmv),
                        rmv == rm@,
                    decreases rest@.len(),
                {
                    let u = rest.remove(0);
                    proof {
                        assert(u == p0[done]);
                        assert(rest@ =~= p0.subrange(done + 1, p0.len() as int));
                        assert(p0.subrange(0, done + 1).drop_last() =~= p0.subrange(0, done));
                        assert(p0.subrange(0, done + 1).last() == p0[done]);
                    }
                    if !Self::utxo_among(rm, &u) {
                        kept.push(u);
                    }
                    proof {
                        done = done + 1;
                    }
                }
                proof {
                    assert(p0.subrange(0, done) =~= p0);
                    lemma_plain_removed_membership(p0, rmv);
                    lemma_removed_exclusive(p0, r0, rmv);
                }
                let book2 = Book { addr: baddr, plain: kept, runic };
                proof {
                    assert(mid.books@.remove(i as int).insert(i as int, book2)
                        =~= mid.books@.update(i as int, book2));
                }
                self.books.insert(i, book2);
                proof {
                    lemma_book_replaced(mid.books@, self.books@, i as int);
                    assert forall|j: int| 0 <= j < self.books@.len() implies book_wf(
                        #[trigger] self.books@[j],
                    ) by {
                        if j != i {
                            assert(self.books@[j] == mid.books@[j]);
                        }
                    }
                }
            },
        }
    }

    /// Migrates `utxos` into the rune-bearing records of `addr` under rune
    /// `runeid`: their outpoints leave the plain records and each output is
    /// inserted for that rune unless already present. One logical step, so a
    /// retried migration is harmless.
    pub fn record_runic_utxos(&mut self, addr: &String, runeid: RuneId, utxos: Vec<RunicUtxo>)
        requires
            old(self).wf(),
        ensures
            final(self).wf(),
            final(self).plain_of(addr@) == plain_removed(
                old(self).plain_of(addr@),
                utxos@.map_values(|x: RunicUtxo| x.utxo),
            ),
            final(self).runic_of(addr@) == runic_inserted(
                old(self).runic_of(addr@),
                runeid,
                utxos@,
            ),
            forall|a: Seq<char>|
                a != addr@ ==> final(self).plain_of(a) == old(self).plain_of(a)
                    && final(self).runic_of(a) == old(self).runic_of(a),
    {
        let ghost usv = utxos@;
        let idx = self.ensure_book(addr);
        let ghost mid = *self;
        let book = self.books.remove(idx);
        let ghost p0 = book.plain@;
        let ghost r0 = book.runic@;
        proof {
            assert(book_wf(mid.books@[idx as int]));
        }
        let Book { addr: baddr, plain, runic } = book;
        let kept = Self::filter_plain_runic(plain, &utxos);
        let newr = Self::insert_runic(runic, runeid, utxos);
        proof {
            lemma_migrate_wf(p0, r0, runeid, usv);
        }
        let book2 = Book { addr: baddr, plain: kept, runic: newr };
        proof {
            assert(mid.books@.remove(idx as int).insert(idx as int, book2) =~= mid.books@.update(
                idx as int,
                book2,
            ));
        }
        self.books.insert(idx, book2);
        proof {
            lemma_book_replaced(mid.books@, self.books@, idx as int);
            assert forall|j: int| 0 <= j < self.books@.len() implies book_wf(
                #[trigger] self.books@[j],
            ) by {
                if j != idx {
                    assert(self.books@[j] == mid.books@[j]);
                }
            }
        }
    }

    /// Whether the outpoint of `utxo` is recorded as rune-bearing for `addr`
    /// (under any rune).
    pub fn is_recorded_as_runic(&self, addr: &String, utxo: &Utxo) -> (r: bool)
        requires
            self.wf(),
        ensures
            r == runic_has_outpoint(self.runic_of(addr@), *utxo),
    {
        match self.find_book(addr) {
            None => false,
            Some(i) => {
                proof {
                    lemma_book_index_unique(self.books@, addr@, i as int);
                }
                Self::runic_contains_outpoint(&self.books[i].runic, utxo)
            },
        }
    }

    /// The total plain coin value recorded for `addr`, saturating at the
    /// largest representable amount.
    pub fn get_bitcoin_balance(&self, addr: &String) -> (r: u64)
        requires
            self.wf(),
        ensures
            r as int == clamp_u64(sum_plain(self.plain_of(addr@))),
    {
        match self.find_book(addr) {
            None => 0,
            Some(i) => {
                proof {
                    lemma_book_index_unique(self.books@, addr@, i as int);
                }
                let p = &self.books[i].plain;
                let n = p.len();
                let mut acc: u64 = 0;
                let mut k: usize = 0;
                while k < n
                    invariant
                        n == p@.len(),
                        k <= n,
                        acc as int == clamp_u64(sum_plain(p@.subrange(0, k as int))),
                    decreases n - k,
                {
                    let v = p[k].value;
                    proof {
                        assert(p@.subrange(0, k + 1).drop_last() =~= p@.subrange(0, k as int));
                        assert(p@.subrange(0, k + 1).last() == p@[k as int]);
                        lemma_sum_plain_nonneg(p@.subrange(0, k as int));
                    }
                    if acc > u64::MAX - v {
                        acc = u64::MAX;
                    } else {
                        acc = acc + v;
                    }
                    k += 1;
                }
                proof {
                    assert(p@.subrange(0, n as int) =~= p@);
                }
                acc
            },
        }
    }

    /// The total balance recorded for `addr` in rune `runeid`, saturating at
    /// the largest representable amount.
    pub fn get_runestone_balance(&self, addr: &String, runeid: &RuneId) -> (r: u128)
        requires
            self.wf(),
        ensures
            r as int == clamp_u128(sum_runic(self.runic_of(addr@), *runeid)),
    {
        match self.find_book(addr) {
            None => 0,
            Some(i) => {
                proof {
                    lemma_book_index_unique(self.books@, addr@, i as int);
                }
                let s = &self.books[i].runic;
                let n = s.len();
                let mut acc: u128 = 0;
                let mut k: usize = 0;
                while k < n
                    invariant
                        n == s@.len(),
                        k <= n,
                        acc as int == clamp_u128(sum_runic(s@.subrange(0, k as int), *runeid)),
                    decreases n - k,
                {
                    proof {
                        assert(s@.subrange(0, k + 1).drop_last() =~= s@.subrange(0, k as int));
                        assert(s@.subrange(0, k + 1).last() == s@[k as int]);
                        lemma_sum_runic_nonneg(s@.subrange(0, k as int), *runeid);
                    }
                    if s[k].rune == *runeid {
                        let v = s[k].utxo.balance;
                        if acc > u128::MAX - v {
                            acc = u128::MAX;
                        } else {
                            acc = acc + v;
                        }
                    }
                    k += 1;
                }
                proof {
                    assert(s@.subrange(0, n as int) =~= s@);
                }
                acc
            },
        }
    }

    /// A copy of the plain records of `addr`, outpoint for outpoint: the
    /// builder's spend candidates.
    pub fn get_plain_utxos(&self, addr: &String) -> (r: Vec<Utxo>)
        requires
            self.wf(),
        ensures
            r@.len() == self.plain_of(addr@).len(),
            forall|k: int|
                0 <= k < r@.len() ==> outpoint_eq(
                    (#[trigger] r@[k]).outpoint,
                    self.plain_of(addr@)[k].outpoint,
                ) && r@[k].value == self.plain_of(addr@)[k].value && r@[k].height == self.plain_of(
                    addr@,
                )[k].height,
    {
        match self.find_book(addr) {
            None => Vec::new(),
            Some(i) => {
                proof {
                    lemma_book_index_unique(self.books@, addr@, i as int);
                }
                let p = &self.books[i].plain;
                let n = p.len();
                let mut out: Vec<Utxo> = Vec::new();
                let mut k: usize = 0;
                while k < n
                    invariant
                        n == p@.len(),
                        k <= n,
                        out@.len() == k,
                        forall|j: int|
                            0 <= j < k ==> outpoint_eq((#[trigger] out@[j]).outpoint, p@[j].outpoint)
                                && out@[j].value == p@[j].value && out@[j].height == p@[j].height,
                    decreases n - k,
                {
                    out.push(copy_utxo(&p[k]));
                    k += 1;
                }
                out
            },
        }
    }

    /// Some listed pair carries this rune.
    pub open spec fn rune_listed(s: Seq<(RuneId, u128)>, rid: RuneId) -> bool {
        exists|i: int| 0 <= i < s.len() && (#[trigger] s[i]).0 == rid
    }

    /// Some record of the address carries this rune.
    pub open spec fn rune_held(s: Seq<RunicHolding>, rid: RuneId) -> bool {
        exists|j: int| 0 <= j < s.len() && (#[trigger] s[j]).rune == rid
    }

    /// Every rune the address holds anything of, each with its total
    /// balance (saturating): one entry per rune, covering every rune that
    /// appears in the address's records.
    pub fn all_rune_with_balances(&self, addr: &String) -> (r: Vec<(RuneId, u128)>)
        requires
            self.wf(),
        ensures
            forall|i: int, j: int| 0 <= i < j < r@.len() ==> (#[trigger] r@[i]).0 != (#[trigger] r@[j]).0,
            forall|i: int|
                0 <= i < r@.len() ==> (#[trigger] r@[i]).1 as int == clamp_u128(
                    sum_runic(self.runic_of(addr@), r@[i].0),
                ),
            forall|j: int|
                0 <= j < self.runic_of(addr@).len() ==> Self::rune_listed(
                    r@,
                    (#[trigger] self.runic_of(addr@)[j]).rune,
                ),
            forall|i: int|
                0 <= i < r@.len() ==> Self::rune_held(self.runic_of(addr@), (#[trigger] r@[i]).0),
    {
        let ghost rn = self.runic_of(addr@);
        match self.find_book(addr) {
            None => {
                proof {
                    assert(self.runic_of(addr@) =~= Seq::<RunicHolding>::empty());
                }
                Vec::new()
            },
            Some(bi) => {
                proof {
                    lemma_book_index_unique(self.books@, addr@, bi as int);
                }
                let n = self.books[bi].runic.len();
                let mut out: Vec<(RuneId, u128)> = Vec::new();
                let mut i: usize = 0;
                while i < n
                    invariant
                        self.wf(),
                        bi < self.books@.len(),
                        rn == self.runic_of(addr@),
                        rn == self.books@[bi as int].runic@,
                        n == rn.len(),
                        i <= n,
                        forall|p: int, q: int|
                            0 <= p < q < out@.len() ==> (#[trigger] out@[p]).0 != (
                            #[trigger] out@[q]).0,
                        forall|p: int|
                            0 <= p < out@.len() ==> (#[trigger] out@[p]).1 as int == clamp_u128(
                                sum_runic(rn, out@[p].0),
                            ),
                        forall|p: int|
                            0 <= p < out@.len() ==> Self::rune_held(rn, (#[trigger] out@[p]).0),
                        forall|j: int|
                            0 <= j < i ==> Self::rune_listed(out@, (#[trigger] rn[j]).rune),
                    decreases n - i,
                {
                    let rid = self.books[bi].runic[i].rune;
                    let mut seen = false;
                    let m = out.len();
                    let mut p: usize = 0;
                    while p < m
                        invariant
                            m == out@.len(),
                            p <= m,
                            seen == exists|q: int| 0 <= q < p && (#[trigger] out@[q]).0 == rid,
                        decreases m - p,
                    {
                        if out[p].0 == rid {
                            proof {
                                assert(out@[p as int].0 == rid);
                            }
                            seen = true;
                        }
                        p += 1;
                    }
                    let ghost out_before = out@;
                    if !seen {
                        let b = self.get_runestone_balance(addr, &rid);
                        out.push((rid, b));
                        proof {
                            assert(out@.last().0 == rid);
                            assert(Self::rune_held(rn, rid)) by {
                                assert(rn[i as int].rune == rid);
                            }
                        }
                    }
                    proof {
                        assert forall|j: int| 0 <= j < i + 1 implies Self::rune_listed(
                            out@,
                            (#[trigger] rn[j]).rune,
                        ) by {
                            if j < i {
                                let p = choose|p: int|
                                    0 <= p < out_before.len() && (#[trigger] out_before[p]).0
                                        == rn[j].rune;
                                assert(out@[p] == out_before[p]);
                                assert(out@[p].0 == rn[j].rune);
                            } else {
                                if seen {
                                    let q = choose|q: int|
                                        0 <= q < out_before.len() && (#[trigger] out_before[q]).0
                                            == rid;
                                    assert(out@[q] == out_before[q]);
                                    assert(out@[q].0 == rn[j].rune);
                                } else {
                                    assert(out@[out@.len() - 1].0 == rn[j].rune);
                                }
                            }
                        }
                    }
                    i += 1;
                }
                proof {
                    assert forall|j: int| 0 <= j < self.runic_of(addr@).len() implies
                        Self::rune_listed(out@, (#[trigger] self.runic_of(addr@)[j]).rune) by {
                        assert(self.runic_of(addr@)[j] == rn[j]);
                    }
                }
                out
            },
        }
    }

    /// Records `utxos` as plain coin outputs of `addr`. Idempotent bulk
    /// insert: an outpoint already recorded, as plain or as rune-bearing,
    /// is silently left as it is.
    pub fn record_bitcoin_utxos(&mut self, addr: &String, utxos: Vec<Utxo>)
        requires
            old(self).wf(),
        ensures
            final(self).wf(),
            final(self).plain_of(addr@) == plain_inserted(
                old(self).plain_of(addr@),
                old(self).runic_of(addr@),
                utxos@,
            ),
            final(self).runic_of(addr@) == old(self).runic_of(addr@),
            forall|a: Seq<char>|
                a != addr@ ==> final(self).plain_of(a) == old(self).plain_of(a)
                    && final(self).runic_of(a) == old(self).runic_of(a),
    {
        let ghost us = utxos@;
        let idx = self.ensure_book(addr);
        let ghost mid = *self;
        let mut book = self.books.remove(idx);
        let ghost p0 = book.plain@;
        let ghost r0 = book.runic@;
        proof {
            assert(book_wf(book));
        }
        let mut rest = utxos;
        let ghost mut done: int = 0;
        while rest.len() > 0
            invariant
                0 <= done <= us.len(),
                rest@ == us.subrange(done, us.len() as int),
                book.plain@ == plain_inserted(p0, r0, us.subrange(0, done)),
                book.runic@ == r0,
                book.addr@ == addr@,
                book_wf(book),
            decreases rest@.len(),
        {
            let u = rest.remove(0);
            proof {
                assert(u == us[done]);
                assert(rest@ =~= us.subrange(done + 1, us.len() as int));
            }
            let already = Self::plain_contains(&book.plain, &u) || Self::runic_contains_outpoint(
                &book.runic,
                &u,
            );
            let ghost before = book.plain@;
            if !already {
                proof {
                    assert forall|k: int| 0 <= k < before.len() implies !outpoint_eq(
                        #[trigger] before[k].outpoint,
                        u.outpoint,
                    ) by {
                        if outpoint_eq(before[k].outpoint, u.outpoint) {
                            assert(plain_has(before, u));
                        }
                    }
                    assert forall|k: int| 0 <= k < r0.len() implies !outpoint_eq(
                        u.outpoint,
                        #[trigger] r0[k].utxo.utxo.outpoint,
                    ) by {
                        if outpoint_eq(u.outpoint, r0[k].utxo.utxo.outpoint) {
                            assert(runic_has_outpoint(r0, u));
                        }
                    }
                }
                book.plain.push(u);
            }
            proof {
                assert(us.subrange(0, done + 1).drop_last() =~= us.subrange(0, done));
                assert(us.subrange(0, done + 1).last() == us[done]);
                done = done + 1;
            }
        }
        proof {
            assert(us.subrange(0, done) =~= us);
        }
        proof {
            assert(mid.books@.remove(idx as int).insert(idx as int, book) =~= mid.books@.update(
                idx as int,
                book,
            ));
        }
        self.books.insert(idx, book);
        proof {
            lemma_book_replaced(mid.books@, self.books@, idx as int);
            assert forall|j: int| 0 <= j < self.books@.len() implies book_wf(
                #[trigger] self.books@[j],
            ) by {
                if j != idx {
                    assert(self.books@[j] == mid.books@[j]);
                }
            }
        }
    }
}

} // verus!
