//! Identifiers and error types for the asset classifier, plus the pure
//! decisions of the discovery/classification loop.

use vstd::prelude::*;

verus! {

/// One output of a fetched page together with what the classifier said of
/// it: the asset balances it carries, or the failure that is conservatively
/// read as "no asset present".
pub struct ClassifiedUtxo {
    pub utxo: crate::utxo_manager::Utxo,
    pub runes: Result<Vec<RuneBalance>, OrdError>,
}

/// Whether the classifier outcome of an item puts it in the plain class: a
/// failure, or an empty list of balances.
pub open spec fn classified_plain(item: ClassifiedUtxo) -> bool {
    match item.runes {
        Ok(rs) => rs@.len() == 0,
        Err(_) => true,
    }
}

/// Identifier of a rune: the block that etched it and the index of the
/// etching transaction within that block. Totally ordered by (block, tx).
#[derive(Clone, Copy, Debug, Hash, PartialEq, Eq, Structural)]
pub struct RuneId {
    pub block: u32,
    pub tx: u64,
}

/// One asset balance reported by the classifier for an output.
#[derive(Clone, Copy, Debug)]
pub struct RuneBalance {
    pub id: RuneId,
    pub balance: u128,
}

/// Classifier-side reason a rune cannot be minted.
#[derive(Clone, Debug)]
pub enum MintError {
    Cap(u128),
    End(u64),
    Start(u64),
    Unmintable,
}

/// Transport-level failure reported by the classifier.
#[derive(Clone, Debug)]
pub enum RpcError {
    Io(String, String, String),
    Decode(String, String, String),
    Endpoint(String, String, String),
}

/// Any failure the classifier can report for a lookup.
#[derive(Clone, Debug)]
pub enum OrdError {
    Params(String),
    Overflow,
    BlockVerification(u32),
    Index(MintError),
    Rpc(RpcError),
}

/// Balance target that stops the discovery loop: either a plain-coin target
/// or a target in one specific rune.
pub enum TargetType {
    Bitcoin { target: u64 },
    Runic { runeid: RuneId, target: u128 },
}

/// The outputs of a page's plain-classified items, in page order: exactly
/// what the one bulk plain recording commits at the end of the page.
pub open spec fn page_plain_buffer(items: Seq<ClassifiedUtxo>) -> Seq<crate::utxo_manager::Utxo>
    decreases items.len(),
{
    if items.len() == 0 {
        Seq::empty()
    } else {
        let rest = page_plain_buffer(items.drop_last());
        if classified_plain(items.last()) {
            rest.push(items.last().utxo)
        } else {
            rest
        }
    }
}

/// Some item of the page sits on the outpoint of `u`.
pub open spec fn page_has_outpoint(items: Seq<ClassifiedUtxo>, u: crate::utxo_manager::Utxo) -> bool {
    exists|j: int|
        0 <= j < items.len() && crate::utxo_manager::outpoint_eq(
            (#[trigger] items[j]).utxo.outpoint,
            u.outpoint,
        )
}

/// The output `u` is (exactly) the output of one of the page's
/// plain-classified items.
pub open spec fn buffered_from_page(
    u: crate::utxo_manager::Utxo,
    items: Seq<ClassifiedUtxo>,
) -> bool {
    exists|j: int|
        0 <= j < items.len() && classified_plain(#[trigger] items[j]) && u == items[j].utxo
}

/// The record `h` carries one of the page's reported (rune, balance) pairs
/// on the reporting item's output, considering the first `done` items.
pub open spec fn holding_from_page(
    h: crate::utxo_manager::RunicHolding,
    items: Seq<ClassifiedUtxo>,
    done: int,
) -> bool {
    exists|j: int, b: int|
        0 <= j < done && !classified_plain(#[trigger] items[j]) && 0 <= b
            < items[j].runes.unwrap()@.len() && h.rune == (
        #[trigger] items[j].runes.unwrap()@[b]).id && h.utxo.balance
            == items[j].runes.unwrap()@[b].balance && crate::utxo_manager::utxo_equiv(
            h.utxo.utxo,
            items[j].utxo,
        )
}

/// The record `h` carries one of the first `upto` reported (rune, balance)
/// pairs of a single item, on the output `u`.
pub open spec fn holding_from_runes(
    h: crate::utxo_manager::RunicHolding,
    runes: Seq<RuneBalance>,
    u: crate::utxo_manager::Utxo,
    upto: int,
) -> bool {
    exists|b: int|
        0 <= b < upto && h.rune == (#[trigger] runes[b]).id && h.utxo.balance == runes[b].balance
            && crate::utxo_manager::utxo_equiv(h.utxo.utxo, u)
}

/// A record from fewer processed items is a record from more.
pub proof fn lemma_holding_from_page_mono(
    h: crate::utxo_manager::RunicHolding,
    items: Seq<ClassifiedUtxo>,
    d1: int,
    d2: int,
)
    requires
        holding_from_page(h, items, d1),
        d1 <= d2,
    ensures
        holding_from_page(h, items, d2),
{
    let (j, b) = choose|j: int, b: int|
        0 <= j < d1 && !classified_plain(#[trigger] items[j]) && 0 <= b
            < items[j].runes.unwrap()@.len() && h.rune == (
        #[trigger] items[j].runes.unwrap()@[b]).id && h.utxo.balance
            == items[j].runes.unwrap()@[b].balance && crate::utxo_manager::utxo_equiv(
            h.utxo.utxo,
            items[j].utxo,
        );
    assert(0 <= j < d2 && !classified_plain(items[j]) && 0 <= b < items[j].runes.unwrap()@.len()
        && h.rune == items[j].runes.unwrap()@[b].id && h.utxo.balance
        == items[j].runes.unwrap()@[b].balance && crate::utxo_manager::utxo_equiv(
        h.utxo.utxo,
        items[j].utxo,
    ));
}

/// Every buffered output is the output of a plain-classified item.
pub proof fn lemma_page_buffer_elements(items: Seq<ClassifiedUtxo>)
    ensures
        forall|k: int|
            #![trigger page_plain_buffer(items)[k]]
            0 <= k < page_plain_buffer(items).len() ==> buffered_from_page(
                page_plain_buffer(items)[k],
                items,
            ),
    decreases items.len(),
{
    if items.len() > 0 {
        let qs = items.drop_last();
        lemma_page_buffer_elements(qs);
        let rest = page_plain_buffer(qs);
        assert(forall|j: int| 0 <= j < qs.len() ==> qs[j] == items[j]);
        assert forall|k: int|
            #![trigger page_plain_buffer(items)[k]]
            0 <= k < page_plain_buffer(items).len() implies buffered_from_page(
            page_plain_buffer(items)[k],
            items,
        ) by {
            if classified_plain(items.last()) {
                assert(page_plain_buffer(items) == rest.push(items.last().utxo));
                if k < rest.len() {
                    assert(page_plain_buffer(items)[k] == rest[k]);
                    assert(buffered_from_page(rest[k], qs));
                    let j = choose|j: int|
                        0 <= j < qs.len() && classified_plain(#[trigger] qs[j]) && rest[k]
                            == qs[j].utxo;
                    assert(classified_plain(items[j]) && page_plain_buffer(items)[k]
                        == items[j].utxo);
                } else {
                    assert(page_plain_buffer(items)[k] == items[items.len() - 1].utxo);
                    assert(classified_plain(items[items.len() - 1]));
                }
            } else {
                assert(page_plain_buffer(items) == rest);
                assert(buffered_from_page(rest[k], qs));
                let j = choose|j: int|
                    0 <= j < qs.len() && classified_plain(#[trigger] qs[j]) && rest[k]
                        == qs[j].utxo;
                assert(classified_plain(items[j]) && page_plain_buffer(items)[k]
                    == items[j].utxo);
            }
        }
    }
}

/// Every plain-classified item's output is buffered, as its own value.
pub proof fn lemma_page_buffer_covers(items: Seq<ClassifiedUtxo>)
    ensures
        forall|j: int|
            0 <= j < items.len() && classified_plain(#[trigger] items[j])
                ==> crate::utxo_manager::plain_has_record(page_plain_buffer(items), items[j].utxo),
    decreases items.len(),
{
    if items.len() > 0 {
        let qs = items.drop_last();
        lemma_page_buffer_covers(qs);
        let rest = page_plain_buffer(qs);
        assert(forall|j: int| 0 <= j < qs.len() ==> qs[j] == items[j]);
        assert forall|j: int|
            0 <= j < items.len() && classified_plain(#[trigger] items[j])
                implies crate::utxo_manager::plain_has_record(
            page_plain_buffer(items),
            items[j].utxo,
        ) by {
            if j < items.len() - 1 {
                assert(crate::utxo_manager::plain_has_record(rest, items[j].utxo));
                let k = choose|k: int| 0 <= k < rest.len() && (#[trigger] rest[k]) == items[j].utxo;
                if classified_plain(items.last()) {
                    assert(page_plain_buffer(items)[k] == rest[k]);
                } else {
                    assert(page_plain_buffer(items) == rest);
                }
            } else {
                assert(classified_plain(items.last()));
                assert(page_plain_buffer(items) == rest.push(items.last().utxo));
                assert(page_plain_buffer(items)[rest.len() as int] == items[j].utxo);
            }
        }
    }
}

/// With a page of distinct outpoints, the buffered outputs have distinct
/// outpoints too.
pub proof fn lemma_page_buffer_distinct(items: Seq<ClassifiedUtxo>)
    requires
        forall|j1: int, j2: int|
            0 <= j1 < j2 < items.len() ==> !crate::utxo_manager::outpoint_eq(
                (#[trigger] items[j1]).utxo.outpoint,
                (#[trigger] items[j2]).utxo.outpoint,
            ),
    ensures
        forall|k1: int, k2: int|
            0 <= k1 < k2 < page_plain_buffer(items).len() ==> !crate::utxo_manager::outpoint_eq(
                (#[trigger] page_plain_buffer(items)[k1]).outpoint,
                (#[trigger] page_plain_buffer(items)[k2]).outpoint,
            ),
    decreases items.len(),
{
    if items.len() > 0 {
        let qs = items.drop_last();
        assert(forall|j: int| 0 <= j < qs.len() ==> qs[j] == items[j]);
        lemma_page_buffer_distinct(qs);
        lemma_page_buffer_elements(qs);
        let rest = page_plain_buffer(qs);
        if classified_plain(items.last()) {
            let x = items.last().utxo;
            assert(page_plain_buffer(items) == rest.push(x));
            assert forall|k1: int, k2: int|
                0 <= k1 < k2 < rest.push(x).len() implies !crate::utxo_manager::outpoint_eq(
                (#[trigger] rest.push(x)[k1]).outpoint,
                (#[trigger] rest.push(x)[k2]).outpoint,
            ) by {
                if k2 < rest.len() {
                    assert(rest.push(x)[k1] == rest[k1]);
                    assert(rest.push(x)[k2] == rest[k2]);
                } else {
                    assert(rest.push(x)[k2] == x);
                    assert(rest.push(x)[k1] == rest[k1]);
                    assert(buffered_from_page(rest[k1], qs));
                    let j = choose|j: int|
                        0 <= j < qs.len() && classified_plain(#[trigger] qs[j]) && rest[k1]
                            == qs[j].utxo;
                    assert(!crate::utxo_manager::outpoint_eq(
                        items[j].utxo.outpoint,
                        items[items.len() - 1].utxo.outpoint,
                    ));
                }
            }
        }
    }
}

/// Commits one fully classified page into the ledger, as one logical step
/// per class: every reported (rune, balance) pair becomes a rune record,
/// migrating its output out of the plain class, and every output whose
/// classifier call failed or returned no balances is buffered and recorded
/// as plain in one call at the end. A page's outpoints are distinct, and the
/// caller has already dropped outputs recorded as rune-bearing.
#[verifier::rlimit(100)]
#[verifier::spinoff_prover]
pub fn apply_page(
    manager: &mut crate::utxo_manager::UtxoManager,
    addr: &String,
    items: Vec<ClassifiedUtxo>,
)
    requires
        old(manager).wf(),
        forall|j1: int, j2: int|
            0 <= j1 < j2 < items@.len() ==> !crate::utxo_manager::outpoint_eq(
                (#[trigger] items@[j1]).utxo.outpoint,
                (#[trigger] items@[j2]).utxo.outpoint,
            ),
        forall|j: int|
            0 <= j < items@.len() ==> !crate::utxo_manager::runic_has_outpoint(
                old(manager).runic_of(addr@),
                (#[trigger] items@[j]).utxo,
            ),
        forall|j: int, b1: int, b2: int|
            0 <= j < items@.len() && !classified_plain(#[trigger] items@[j]) && 0 <= b1 < b2
                < items@[j].runes.unwrap()@.len() ==> (#[trigger] items@[j].runes.unwrap()@[b1]).id
                != (#[trigger] items@[j].runes.unwrap()@[b2]).id,
    ensures
        final(manager).wf(),
        forall|a: Seq<char>|
            a != addr@ ==> final(manager).plain_of(a) == old(manager).plain_of(a)
                && final(manager).runic_of(a) == old(manager).runic_of(a),
        forall|j: int, b: int|
            0 <= j < items@.len() && !classified_plain(#[trigger] items@[j]) && 0 <= b
                < items@[j].runes.unwrap()@.len() ==> crate::utxo_manager::runic_has(
                final(manager).runic_of(addr@),
                (#[trigger] items@[j].runes.unwrap()@[b]).id,
                items@[j].utxo,
            ),
        forall|j: int|
            0 <= j < items@.len() && !classified_plain(#[trigger] items@[j])
                ==> !crate::utxo_manager::plain_has(
                final(manager).plain_of(addr@),
                items@[j].utxo,
            ),
        forall|j: int|
            0 <= j < items@.len() && classified_plain(#[trigger] items@[j])
                ==> crate::utxo_manager::plain_has(final(manager).plain_of(addr@), items@[j].utxo),
        forall|rid: RuneId, u: crate::utxo_manager::Utxo|
            crate::utxo_manager::runic_has(old(manager).runic_of(addr@), rid, u)
                ==> crate::utxo_manager::runic_has(final(manager).runic_of(addr@), rid, u),
        forall|j: int, b: int|
            0 <= j < items@.len() && !classified_plain(#[trigger] items@[j]) && 0 <= b
                < items@[j].runes.unwrap()@.len() ==> crate::utxo_manager::runic_has_exact(
                final(manager).runic_of(addr@),
                (#[trigger] items@[j].runes.unwrap()@[b]).id,
                items@[j].utxo,
                items@[j].runes.unwrap()@[b].balance,
            ),
        final(manager).runic_of(addr@).len() >= old(manager).runic_of(addr@).len(),
        forall|k: int|
            0 <= k < old(manager).runic_of(addr@).len() ==> final(manager).runic_of(addr@)[k]
                == old(manager).runic_of(addr@)[k],
        forall|k: int|
            #![trigger final(manager).runic_of(addr@)[k]]
            old(manager).runic_of(addr@).len() <= k < final(manager).runic_of(addr@).len()
                ==> holding_from_page(
                final(manager).runic_of(addr@)[k],
                items@,
                items@.len() as int,
            ),
        forall|j: int|
            0 <= j < items@.len() && classified_plain(#[trigger] items@[j])
                && !crate::utxo_manager::plain_has(old(manager).plain_of(addr@), items@[j].utxo)
                ==> crate::utxo_manager::plain_has_record(
                final(manager).plain_of(addr@),
                items@[j].utxo,
            ),
        forall|k: int|
            #![trigger final(manager).plain_of(addr@)[k]]
            0 <= k < final(manager).plain_of(addr@).len()
                ==> crate::utxo_manager::plain_has_record(
                old(manager).plain_of(addr@),
                final(manager).plain_of(addr@)[k],
            ) || buffered_from_page(final(manager).plain_of(addr@)[k], items@),
        forall|m: int|
            #![trigger old(manager).plain_of(addr@)[m]]
            0 <= m < old(manager).plain_of(addr@).len() && !page_has_outpoint(
                items@,
                old(manager).plain_of(addr@)[m],
            ) ==> crate::utxo_manager::plain_has_record(
                final(manager).plain_of(addr@),
                old(manager).plain_of(addr@)[m],
            ),
{
    let ghost itemsv = items@;
    let ghost r0 = old(manager).runic_of(addr@);
    let ghost p0 = old(manager).plain_of(addr@);
    let mut buf: Vec<crate::utxo_manager::Utxo> = Vec::new();
    let mut rest = items;
    let ghost mut done: int = 0;
    while rest.len() > 0
        invariant
            manager.wf(),
            0 <= done <= itemsv.len(),
            rest@ == itemsv.subrange(done, itemsv.len() as int),
            r0 == old(manager).runic_of(addr@),
            p0 == old(manager).plain_of(addr@),
            forall|j1: int, j2: int|
                0 <= j1 < j2 < itemsv.len() ==> !crate::utxo_manager::outpoint_eq(
                    (#[trigger] itemsv[j1]).utxo.outpoint,
                    (#[trigger] itemsv[j2]).utxo.outpoint,
                ),
            forall|j: int|
                0 <= j < itemsv.len() ==> !crate::utxo_manager::runic_has_outpoint(
                    r0,
                    (#[trigger] itemsv[j]).utxo,
                ),
            forall|j: int, b1: int, b2: int|
                0 <= j < itemsv.len() && !classified_plain(#[trigger] itemsv[j]) && 0 <= b1 < b2
                    < itemsv[j].runes.unwrap()@.len() ==> (
                #[trigger] itemsv[j].runes.unwrap()@[b1]).id != (
                #[trigger] itemsv[j].runes.unwrap()@[b2]).id,
            forall|a: Seq<char>|
                a != addr@ ==> manager.plain_of(a) == old(manager).plain_of(a)
                    && manager.runic_of(a) == old(manager).runic_of(a),
            forall|rid: RuneId, u: crate::utxo_manager::Utxo|
                crate::utxo_manager::runic_has(r0, rid, u) ==> crate::utxo_manager::runic_has(
                    manager.runic_of(addr@),
                    rid,
                    u,
                ),
            manager.runic_of(addr@).len() >= r0.len(),
            forall|k: int| 0 <= k < r0.len() ==> manager.runic_of(addr@)[k] == r0[k],
            forall|k: int|
                #![trigger manager.runic_of(addr@)[k]]
                r0.len() <= k < manager.runic_of(addr@).len() ==> holding_from_page(
                    manager.runic_of(addr@)[k],
                    itemsv,
                    done,
                ),
            forall|j: int, b: int|
                0 <= j < done && !classified_plain(#[trigger] itemsv[j]) && 0 <= b
                    < itemsv[j].runes.unwrap()@.len() ==> crate::utxo_manager::runic_has_exact(
                    manager.runic_of(addr@),
                    (#[trigger] itemsv[j].runes.unwrap()@[b]).id,
                    itemsv[j].utxo,
                    itemsv[j].runes.unwrap()@[b].balance,
                ),
            forall|k: int|
                #![trigger manager.plain_of(addr@)[k]]
                0 <= k < manager.plain_of(addr@).len() ==> crate::utxo_manager::plain_has_record(
                    p0,
                    manager.plain_of(addr@)[k],
                ),
            forall|m: int|
                #![trigger p0[m]]
                0 <= m < p0.len() && !page_has_outpoint(itemsv, p0[m])
                    ==> crate::utxo_manager::plain_has_record(manager.plain_of(addr@), p0[m]),
            forall|u: crate::utxo_manager::Utxo|
                crate::utxo_manager::runic_has_outpoint(manager.runic_of(addr@), u)
                    ==> crate::utxo_manager::runic_has_outpoint(r0, u) || (exists|j: int|
                    0 <= j < done && !classified_plain(#[trigger] itemsv[j])
                        && crate::utxo_manager::outpoint_eq(
                        itemsv[j].utxo.outpoint,
                        u.outpoint,
                    )),
            forall|j: int, b: int|
                0 <= j < done && !classified_plain(#[trigger] itemsv[j]) && 0 <= b
                    < itemsv[j].runes.unwrap()@.len() ==> crate::utxo_manager::runic_has(
                    manager.runic_of(addr@),
                    (#[trigger] itemsv[j].runes.unwrap()@[b]).id,
                    itemsv[j].utxo,
                ),
            forall|j: int|
                0 <= j < done && !classified_plain(#[trigger] itemsv[j])
                    ==> !crate::utxo_manager::plain_has(manager.plain_of(addr@), itemsv[j].utxo),
            forall|u: crate::utxo_manager::Utxo|
                crate::utxo_manager::plain_has(manager.plain_of(addr@), u)
                    ==> crate::utxo_manager::plain_has(p0, u),
            buf@ == page_plain_buffer(itemsv.subrange(0, done)),
        decreases rest@.len(),
    {
        let item = rest.remove(0);
        proof {
            assert(item == itemsv[done]);
            assert(rest@ =~= itemsv.subrange(done + 1, itemsv.len() as int));
        }
        let ghost buf_before = buf@;
        match item.runes {
            Err(_) => {
                buf.push(item.utxo);
                proof {
                    assert(classified_plain(itemsv[done]));
                    assert(itemsv.subrange(0, done + 1).drop_last() =~= itemsv.subrange(0, done));
                    assert(itemsv.subrange(0, done + 1).last() == itemsv[done]);
                    assert(buf@ =~= page_plain_buffer(itemsv.subrange(0, done + 1)));
                    assert forall|k: int|
                        #![trigger manager.runic_of(addr@)[k]]
                        r0.len() <= k < manager.runic_of(addr@).len() implies holding_from_page(
                        manager.runic_of(addr@)[k],
                        itemsv,
                        done + 1,
                    ) by {
                        lemma_holding_from_page_mono(
                            manager.runic_of(addr@)[k],
                            itemsv,
                            done,
                            done + 1,
                        );
                    }
                }
            },
            Ok(runes) => {
                if runes.len() == 0 {
                    buf.push(item.utxo);
                    proof {
                        assert(classified_plain(itemsv[done]));
                        assert(itemsv.subrange(0, done + 1).drop_last() =~= itemsv.subrange(
                            0,
                            done,
                        ));
                        assert(itemsv.subrange(0, done + 1).last() == itemsv[done]);
                        assert(buf@ =~= page_plain_buffer(itemsv.subrange(0, done + 1)));
                        assert forall|k: int|
                            #![trigger manager.runic_of(addr@)[k]]
                            r0.len() <= k < manager.runic_of(addr@).len() implies holding_from_page(
                            manager.runic_of(addr@)[k],
                            itemsv,
                            done + 1,
                        ) by {
                            lemma_holding_from_page_mono(
                                manager.runic_of(addr@)[k],
                                itemsv,
                                done,
                                done + 1,
                            );
                        }
                    }
                } else {
                    let u = item.utxo;
                    let ghost runesv = runes@;
                    proof {
                        assert(!classified_plain(itemsv[done]));
                        assert(itemsv[done].runes.unwrap()@ == runesv);
                        assert(u == itemsv[done].utxo);
                    }
                    let mut rrest = runes;
                    let ghost mut rdone: int = 0;
                    while rrest.len() > 0
                        invariant
                            manager.wf(),
                            0 <= done < itemsv.len(),
                            0 <= rdone <= runesv.len(),
                            runesv.len() > 0,
                            rrest@ == runesv.subrange(rdone, runesv.len() as int),
                            u == itemsv[done].utxo,
                            !classified_plain(itemsv[done]),
                            itemsv[done].runes.unwrap()@ == runesv,
                            r0 == old(manager).runic_of(addr@),
                            p0 == old(manager).plain_of(addr@),
                            forall|j1: int, j2: int|
                                0 <= j1 < j2 < itemsv.len() ==> !crate::utxo_manager::outpoint_eq(
                                    (#[trigger] itemsv[j1]).utxo.outpoint,
                                    (#[trigger] itemsv[j2]).utxo.outpoint,
                                ),
                            forall|j: int|
                                0 <= j < itemsv.len()
                                    ==> !crate::utxo_manager::runic_has_outpoint(
                                    r0,
                                    (#[trigger] itemsv[j]).utxo,
                                ),
                            forall|j: int, b1: int, b2: int|
                                0 <= j < itemsv.len() && !classified_plain(#[trigger] itemsv[j])
                                    && 0 <= b1 < b2 < itemsv[j].runes.unwrap()@.len() ==> (
                                #[trigger] itemsv[j].runes.unwrap()@[b1]).id != (
                                #[trigger] itemsv[j].runes.unwrap()@[b2]).id,
                            forall|b1: int, b2: int|
                                0 <= b1 < b2 < runesv.len() ==> (#[trigger] runesv[b1]).id != (
                                #[trigger] runesv[b2]).id,
                            forall|a: Seq<char>|
                                a != addr@ ==> manager.plain_of(a) == old(manager).plain_of(a)
                                    && manager.runic_of(a) == old(manager).runic_of(a),
                            forall|rid: RuneId, w: crate::utxo_manager::Utxo|
                                crate::utxo_manager::runic_has(r0, rid, w)
                                    ==> crate::utxo_manager::runic_has(
                                    manager.runic_of(addr@),
                                    rid,
                                    w,
                                ),
                            forall|w: crate::utxo_manager::Utxo|
                                crate::utxo_manager::runic_has_outpoint(manager.runic_of(addr@), w)
                                    ==> crate::utxo_manager::runic_has_outpoint(r0, w) || (exists|
                                    j: int,
                                |
                                    0 <= j < done + 1 && !classified_plain(#[trigger] itemsv[j])
                                        && crate::utxo_manager::outpoint_eq(
                                        itemsv[j].utxo.outpoint,
                                        w.outpoint,
                                    )),
                            forall|j: int, b: int|
                                0 <= j < done && !classified_plain(#[trigger] itemsv[j]) && 0 <= b
                                    < itemsv[j].runes.unwrap()@.len()
                                    ==> crate::utxo_manager::runic_has(
                                    manager.runic_of(addr@),
                                    (#[trigger] itemsv[j].runes.unwrap()@[b]).id,
                                    itemsv[j].utxo,
                                ),
                            forall|b: int|
                                0 <= b < rdone ==> crate::utxo_manager::runic_has(
                                    manager.runic_of(addr@),
                                    (#[trigger] runesv[b]).id,
                                    u,
                                ),
                            manager.runic_of(addr@).len() >= r0.len(),
                            forall|k: int|
                                0 <= k < r0.len() ==> manager.runic_of(addr@)[k] == r0[k],
                            forall|k: int|
                                #![trigger manager.runic_of(addr@)[k]]
                                r0.len() <= k < manager.runic_of(addr@).len()
                                    ==> holding_from_page(
                                    manager.runic_of(addr@)[k],
                                    itemsv,
                                    done,
                                ) || holding_from_runes(
                                    manager.runic_of(addr@)[k],
                                    runesv,
                                    u,
                                    rdone,
                                ),
                            forall|j: int, b: int|
                                0 <= j < done && !classified_plain(#[trigger] itemsv[j]) && 0 <= b
                                    < itemsv[j].runes.unwrap()@.len()
                                    ==> crate::utxo_manager::runic_has_exact(
                                    manager.runic_of(addr@),
                                    (#[trigger] itemsv[j].runes.unwrap()@[b]).id,
                                    itemsv[j].utxo,
                                    itemsv[j].runes.unwrap()@[b].balance,
                                ),
                            forall|b: int|
                                0 <= b < rdone ==> crate::utxo_manager::runic_has_exact(
                                    manager.runic_of(addr@),
                                    (#[trigger] runesv[b]).id,
                                    u,
                                    runesv[b].balance,
                                ),
                            forall|k: int|
                                #![trigger manager.plain_of(addr@)[k]]
                                0 <= k < manager.plain_of(addr@).len()
                                    ==> crate::utxo_manager::plain_has_record(
                                    p0,
                                    manager.plain_of(addr@)[k],
                                ),
                            forall|m: int|
                                #![trigger p0[m]]
                                0 <= m < p0.len() && !page_has_outpoint(itemsv, p0[m])
                                    ==> crate::utxo_manager::plain_has_record(
                                    manager.plain_of(addr@),
                                    p0[m],
                                ),
                            rdone > 0 ==> !crate::utxo_manager::plain_has(
                                manager.plain_of(addr@),
                                u,
                            ),
                            forall|j: int|
                                0 <= j < done && !classified_plain(#[trigger] itemsv[j])
                                    ==> !crate::utxo_manager::plain_has(
                                    manager.plain_of(addr@),
                                    itemsv[j].utxo,
                                ),
                            forall|w: crate::utxo_manager::Utxo|
                                crate::utxo_manager::plain_has(manager.plain_of(addr@), w)
                                    ==> crate::utxo_manager::plain_has(p0, w),
                            buf@ == page_plain_buffer(itemsv.subrange(0, done)),
                        decreases rrest@.len(),
                    {
                        let rb = rrest.remove(0);
                        proof {
                            assert(rb == runesv[rdone]);
                            assert(rrest@ =~= runesv.subrange(rdone + 1, runesv.len() as int));
                        }
                        let ghost r_before = manager.runic_of(addr@);
                        let ghost p_before = manager.plain_of(addr@);
                        let mut one: Vec<crate::utxo_manager::RunicUtxo> = Vec::new();
                        one.push(
                            crate::utxo_manager::RunicUtxo {
                                balance: rb.balance,
                                utxo: crate::utxo_manager::copy_utxo(&u),
                            },
                        );
                        let ghost onev = one@;
                        manager.record_runic_utxos(addr, rb.id, one);
                        proof {
                            let onem = onev.map_values(
                                |x: crate::utxo_manager::RunicUtxo| x.utxo,
                            );
                            assert(onem[0] == onev[0].utxo);
                            assert(crate::utxo_manager::outpoint_eq(onem[0].outpoint, u.outpoint));
                            crate::utxo_manager::lemma_plain_removed_membership(p_before, onem);
                            assert forall|w: crate::utxo_manager::Utxo|
                                crate::utxo_manager::outpoint_among(onem, w)
                                    <==> crate::utxo_manager::outpoint_eq(
                                    u.outpoint,
                                    w.outpoint,
                                ) by {
                                if crate::utxo_manager::outpoint_among(onem, w) {
                                    let k = choose|k: int|
                                        0 <= k < onem.len() && crate::utxo_manager::outpoint_eq(
                                            (#[trigger] onem[k]).outpoint,
                                            w.outpoint,
                                        );
                                    assert(k == 0);
                                }
                            }
                            assert(crate::utxo_manager::outpoint_among(onem, u)) by {
                                assert(crate::utxo_manager::outpoint_eq(
                                    onem[0].outpoint,
                                    u.outpoint,
                                ));
                            }
                            assert(!crate::utxo_manager::plain_has(manager.plain_of(addr@), u));
                            assert forall|rid: RuneId, w: crate::utxo_manager::Utxo|
                                crate::utxo_manager::runic_has(r_before, rid, w)
                                    implies crate::utxo_manager::runic_has(
                                manager.runic_of(addr@),
                                rid,
                                w,
                            ) by {
                                crate::utxo_manager::lemma_runic_inserted_rune_membership(
                                    r_before,
                                    rb.id,
                                    onev,
                                    rid,
                                    w,
                                );
                            }
                            assert(crate::utxo_manager::runic_has(
                                manager.runic_of(addr@),
                                rb.id,
                                u,
                            )) by {
                                crate::utxo_manager::lemma_runic_inserted_rune_membership(
                                    r_before,
                                    rb.id,
                                    onev,
                                    rb.id,
                                    u,
                                );
                                assert(crate::utxo_manager::outpoint_among(onem, u));
                            }
                            assert forall|w: crate::utxo_manager::Utxo|
                                crate::utxo_manager::runic_has_outpoint(manager.runic_of(addr@), w)
                                    implies crate::utxo_manager::runic_has_outpoint(r_before, w)
                                    || crate::utxo_manager::outpoint_eq(
                                    itemsv[done].utxo.outpoint,
                                    w.outpoint,
                                ) by {
                                crate::utxo_manager::lemma_runic_inserted_membership(
                                    r_before,
                                    rb.id,
                                    onev,
                                );
                            }
                            // the pair cannot have been recorded before: the
                            // page's outpoints are distinct, the item's rune
                            // ids are distinct, and nothing of the page was
                            // rune-bearing at the start
                            assert(!crate::utxo_manager::runic_has(r_before, rb.id, onev[0].utxo))
                                by {
                                if crate::utxo_manager::runic_has(r_before, rb.id, onev[0].utxo) {
                                    let i = choose|i: int|
                                        0 <= i < r_before.len() && (#[trigger] r_before[i]).rune
                                            == rb.id && crate::utxo_manager::outpoint_eq(
                                            r_before[i].utxo.utxo.outpoint,
                                            onev[0].utxo.outpoint,
                                        );
                                    assert(crate::utxo_manager::outpoint_eq(
                                        r_before[i].utxo.utxo.outpoint,
                                        u.outpoint,
                                    ));
                                    if i < r0.len() {
                                        assert(r_before[i] == r0[i]);
                                        assert(crate::utxo_manager::runic_has_outpoint(
                                            r0,
                                            itemsv[done].utxo,
                                        ));
                                    } else {
                                        if holding_from_page(r_before[i], itemsv, done) {
                                            let (j2, b2) = choose|j2: int, b2: int|
                                                0 <= j2 < done && !classified_plain(
                                                    #[trigger] itemsv[j2],
                                                ) && 0 <= b2 < itemsv[j2].runes.unwrap()@.len()
                                                    && r_before[i].rune == (
                                                #[trigger] itemsv[j2].runes.unwrap()@[b2]).id
                                                    && r_before[i].utxo.balance
                                                    == itemsv[j2].runes.unwrap()@[b2].balance
                                                    && crate::utxo_manager::utxo_equiv(
                                                    r_before[i].utxo.utxo,
                                                    itemsv[j2].utxo,
                                                );
                                            assert(crate::utxo_manager::outpoint_eq(
                                                itemsv[j2].utxo.outpoint,
                                                itemsv[done].utxo.outpoint,
                                            ));
                                            assert(j2 != done);
                                            assert(!crate::utxo_manager::outpoint_eq(
                                                itemsv[j2].utxo.outpoint,
                                                itemsv[done].utxo.outpoint,
                                            ));
                                        } else {
                                            let b2 = choose|b2: int|
                                                0 <= b2 < rdone && r_before[i].rune == (
                                                #[trigger] runesv[b2]).id
                                                    && r_before[i].utxo.balance
                                                    == runesv[b2].balance
                                                    && crate::utxo_manager::utxo_equiv(
                                                    r_before[i].utxo.utxo,
                                                    u,
                                                );
                                            assert(runesv[b2].id == runesv[rdone].id);
                                            assert(runesv[b2].id != runesv[rdone].id);
                                        }
                                    }
                                }
                            }
                            // so the insertion appended exactly this pair
                            assert(onev.drop_last() =~= Seq::<
                                crate::utxo_manager::RunicUtxo,
                            >::empty());
                            assert(crate::utxo_manager::runic_inserted(
                                r_before,
                                rb.id,
                                Seq::<crate::utxo_manager::RunicUtxo>::empty(),
                            ) == r_before);
                            assert(onev.last() == onev[0]);
                            assert(manager.runic_of(addr@) == r_before.push(
                                crate::utxo_manager::RunicHolding { rune: rb.id, utxo: onev[0] },
                            ));
                            crate::utxo_manager::lemma_runic_inserted_appends(
                                r_before,
                                rb.id,
                                onev,
                            );
                            assert forall|b: int| 0 <= b < rdone + 1 implies
                                crate::utxo_manager::runic_has_exact(
                                manager.runic_of(addr@),
                                (#[trigger] runesv[b]).id,
                                u,
                                runesv[b].balance,
                            ) by {
                                if b < rdone {
                                    let i = choose|i: int|
                                        0 <= i < r_before.len() && (#[trigger] r_before[i]).rune
                                            == runesv[b].id && r_before[i].utxo.balance
                                            == runesv[b].balance
                                            && crate::utxo_manager::utxo_equiv(
                                            r_before[i].utxo.utxo,
                                            u,
                                        );
                                    assert(manager.runic_of(addr@)[i] == r_before[i]);
                                } else {
                                    let h = crate::utxo_manager::RunicHolding {
                                        rune: rb.id,
                                        utxo: onev[0],
                                    };
                                    assert(manager.runic_of(addr@)[r_before.len() as int] == h);
                                    assert(crate::utxo_manager::utxo_equiv(onev[0].utxo, u));
                                }
                            }
                            assert forall|j: int, b: int|
                                0 <= j < done && !classified_plain(#[trigger] itemsv[j]) && 0 <= b
                                    < itemsv[j].runes.unwrap()@.len() implies
                                crate::utxo_manager::runic_has_exact(
                                manager.runic_of(addr@),
                                (#[trigger] itemsv[j].runes.unwrap()@[b]).id,
                                itemsv[j].utxo,
                                itemsv[j].runes.unwrap()@[b].balance,
                            ) by {
                                let i = choose|i: int|
                                    0 <= i < r_before.len() && (#[trigger] r_before[i]).rune
                                        == itemsv[j].runes.unwrap()@[b].id
                                        && r_before[i].utxo.balance
                                        == itemsv[j].runes.unwrap()@[b].balance
                                        && crate::utxo_manager::utxo_equiv(
                                        r_before[i].utxo.utxo,
                                        itemsv[j].utxo,
                                    );
                                assert(manager.runic_of(addr@)[i] == r_before[i]);
                            }
                            assert forall|k: int|
                                #![trigger manager.runic_of(addr@)[k]]
                                r0.len() <= k < manager.runic_of(addr@).len() implies
                                holding_from_page(manager.runic_of(addr@)[k], itemsv, done)
                                    || holding_from_runes(
                                    manager.runic_of(addr@)[k],
                                    runesv,
                                    u,
                                    rdone + 1,
                                ) by {
                                if k < r_before.len() {
                                    assert(manager.runic_of(addr@)[k] == r_before[k]);
                                    if holding_from_runes(r_before[k], runesv, u, rdone) {
                                        let b2 = choose|b2: int|
                                            0 <= b2 < rdone && r_before[k].rune == (
                                            #[trigger] runesv[b2]).id && r_before[k].utxo.balance
                                                == runesv[b2].balance
                                                && crate::utxo_manager::utxo_equiv(
                                                r_before[k].utxo.utxo,
                                                u,
                                            );
                                        assert(holding_from_runes(
                                            manager.runic_of(addr@)[k],
                                            runesv,
                                            u,
                                            rdone + 1,
                                        ));
                                    }
                                } else {
                                    let h = crate::utxo_manager::RunicHolding {
                                        rune: rb.id,
                                        utxo: onev[0],
                                    };
                                    assert(manager.runic_of(addr@)[k] == h);
                                    assert(crate::utxo_manager::utxo_equiv(onev[0].utxo, u));
                                    assert(holding_from_runes(
                                        manager.runic_of(addr@)[k],
                                        runesv,
                                        u,
                                        rdone + 1,
                                    ));
                                }
                            }
                            crate::utxo_manager::lemma_plain_removed_elements(p_before, onem);
                            assert forall|k: int|
                                #![trigger manager.plain_of(addr@)[k]]
                                0 <= k < manager.plain_of(addr@).len() implies
                                crate::utxo_manager::plain_has_record(
                                p0,
                                manager.plain_of(addr@)[k],
                            ) by {
                                let m2 = choose|m2: int|
                                    0 <= m2 < p_before.len() && manager.plain_of(addr@)[k]
                                        == p_before[m2];
                                assert(crate::utxo_manager::plain_has_record(p0, p_before[m2]));
                            }
                            assert forall|m: int|
                                #![trigger p0[m]]
                                0 <= m < p0.len() && !page_has_outpoint(itemsv, p0[m]) implies
                                crate::utxo_manager::plain_has_record(
                                manager.plain_of(addr@),
                                p0[m],
                            ) by {
                                let i2 = choose|i2: int|
                                    0 <= i2 < p_before.len() && (#[trigger] p_before[i2])
                                        == p0[m];
                                assert(!crate::utxo_manager::outpoint_among(
                                    onem,
                                    p_before[i2],
                                )) by {
                                    if crate::utxo_manager::outpoint_eq(
                                        u.outpoint,
                                        p_before[i2].outpoint,
                                    ) {
                                        assert(crate::utxo_manager::outpoint_eq(
                                            itemsv[done].utxo.outpoint,
                                            p0[m].outpoint,
                                        ));
                                        assert(page_has_outpoint(itemsv, p0[m]));
                                    }
                                }
                                crate::utxo_manager::lemma_plain_removed_keeps(
                                    p_before,
                                    onem,
                                    i2,
                                );
                                let k2 = choose|k2: int|
                                    0 <= k2 < manager.plain_of(addr@).len() && (
                                    #[trigger] manager.plain_of(addr@)[k2]) == p_before[i2];
                                assert(manager.plain_of(addr@)[k2] == p0[m]);
                            }
                            rdone = rdone + 1;
                        }
                    }
                    proof {
                        assert(runesv.subrange(0, rdone) =~= runesv);
                        assert(itemsv.subrange(0, done + 1).drop_last() =~= itemsv.subrange(
                            0,
                            done,
                        ));
                        assert(itemsv.subrange(0, done + 1).last() == itemsv[done]);
                        assert(buf@ == page_plain_buffer(itemsv.subrange(0, done + 1)));
                        assert forall|j: int, b: int|
                            0 <= j < done + 1 && !classified_plain(#[trigger] itemsv[j]) && 0 <= b
                                < itemsv[j].runes.unwrap()@.len() implies
                            crate::utxo_manager::runic_has_exact(
                            manager.runic_of(addr@),
                            (#[trigger] itemsv[j].runes.unwrap()@[b]).id,
                            itemsv[j].utxo,
                            itemsv[j].runes.unwrap()@[b].balance,
                        ) by {
                            if j == done {
                                assert(itemsv[done].runes.unwrap()@[b] == runesv[b]);
                                assert(crate::utxo_manager::runic_has_exact(
                                    manager.runic_of(addr@),
                                    runesv[b].id,
                                    u,
                                    runesv[b].balance,
                                ));
                            }
                        }
                        assert forall|k: int|
                            #![trigger manager.runic_of(addr@)[k]]
                            r0.len() <= k < manager.runic_of(addr@).len() implies
                            holding_from_page(manager.runic_of(addr@)[k], itemsv, done + 1) by {
                            if holding_from_page(manager.runic_of(addr@)[k], itemsv, done) {
                                lemma_holding_from_page_mono(
                                    manager.runic_of(addr@)[k],
                                    itemsv,
                                    done,
                                    done + 1,
                                );
                            } else {
                                let b2 = choose|b2: int|
                                    0 <= b2 < rdone && manager.runic_of(addr@)[k].rune == (
                                    #[trigger] runesv[b2]).id
                                        && manager.runic_of(addr@)[k].utxo.balance
                                        == runesv[b2].balance && crate::utxo_manager::utxo_equiv(
                                        manager.runic_of(addr@)[k].utxo.utxo,
                                        u,
                                    );
                                assert(itemsv[done].runes.unwrap()@[b2] == runesv[b2]);
                                assert(0 <= done < done + 1 && !classified_plain(itemsv[done])
                                    && 0 <= b2 < itemsv[done].runes.unwrap()@.len()
                                    && manager.runic_of(addr@)[k].rune
                                    == itemsv[done].runes.unwrap()@[b2].id
                                    && manager.runic_of(addr@)[k].utxo.balance
                                    == itemsv[done].runes.unwrap()@[b2].balance
                                    && crate::utxo_manager::utxo_equiv(
                                    manager.runic_of(addr@)[k].utxo.utxo,
                                    itemsv[done].utxo,
                                ));
                            }
                        }
                    }
                }
            },
        }
        proof {
            done = done + 1;
        }
    }
    proof {
        assert(done == itemsv.len());
    }
    let ghost p_mid = manager.plain_of(addr@);
    let ghost r_fin = manager.runic_of(addr@);
    let ghost bufv = buf@;
    manager.record_bitcoin_utxos(addr, buf);
    proof {
        assert(itemsv.subrange(0, done) =~= itemsv);
        assert(bufv == page_plain_buffer(itemsv));
        lemma_page_buffer_elements(itemsv);
        lemma_page_buffer_covers(itemsv);
        lemma_page_buffer_distinct(itemsv);
        assert forall|j: int|
            0 <= j < itemsv.len() && classified_plain(#[trigger] itemsv[j])
                implies crate::utxo_manager::outpoint_among(bufv, itemsv[j].utxo) by {
            assert(crate::utxo_manager::plain_has_record(bufv, itemsv[j].utxo));
            let k = choose|k: int| 0 <= k < bufv.len() && (#[trigger] bufv[k]) == itemsv[j].utxo;
            assert(crate::utxo_manager::outpoint_eq(bufv[k].outpoint, itemsv[j].utxo.outpoint));
        }
        assert forall|j: int|
            0 <= j < itemsv.len() && !classified_plain(#[trigger] itemsv[j])
                implies !crate::utxo_manager::outpoint_among(bufv, itemsv[j].utxo) by {
            if crate::utxo_manager::outpoint_among(bufv, itemsv[j].utxo) {
                let k = choose|k: int|
                    0 <= k < bufv.len() && crate::utxo_manager::outpoint_eq(
                        (#[trigger] bufv[k]).outpoint,
                        itemsv[j].utxo.outpoint,
                    );
                assert(buffered_from_page(bufv[k], itemsv));
                let j2 = choose|j2: int|
                    0 <= j2 < itemsv.len() && classified_plain(#[trigger] itemsv[j2]) && bufv[k]
                        == itemsv[j2].utxo;
                assert(j2 != j);
                if j < j2 {
                    assert(!crate::utxo_manager::outpoint_eq(
                        itemsv[j].utxo.outpoint,
                        itemsv[j2].utxo.outpoint,
                    ));
                } else {
                    assert(!crate::utxo_manager::outpoint_eq(
                        itemsv[j2].utxo.outpoint,
                        itemsv[j].utxo.outpoint,
                    ));
                }
            }
        }
        crate::utxo_manager::lemma_plain_inserted_membership(p_mid, r_fin, bufv);
        assert forall|j: int|
            0 <= j < itemsv.len() && classified_plain(#[trigger] itemsv[j])
                implies crate::utxo_manager::plain_has(
            manager.plain_of(addr@),
            itemsv[j].utxo,
        ) by {
            assert(crate::utxo_manager::outpoint_among(bufv, itemsv[j].utxo));
            assert(!crate::utxo_manager::runic_has_outpoint(r_fin, itemsv[j].utxo)) by {
                if crate::utxo_manager::runic_has_outpoint(r_fin, itemsv[j].utxo) {
                    assert(!crate::utxo_manager::runic_has_outpoint(r0, itemsv[j].utxo));
                    let j2 = choose|j2: int|
                        0 <= j2 < itemsv.len() && !classified_plain(#[trigger] itemsv[j2])
                            && crate::utxo_manager::outpoint_eq(
                            itemsv[j2].utxo.outpoint,
                            itemsv[j].utxo.outpoint,
                        );
                    if j < j2 {
                        assert(!crate::utxo_manager::outpoint_eq(
                            itemsv[j].utxo.outpoint,
                            itemsv[j2].utxo.outpoint,
                        ));
                    } else {
                        assert(j2 != j);
                        assert(!crate::utxo_manager::outpoint_eq(
                            itemsv[j2].utxo.outpoint,
                            itemsv[j].utxo.outpoint,
                        ));
                    }
                }
            }
        }
        assert forall|j: int|
            0 <= j < itemsv.len() && !classified_plain(#[trigger] itemsv[j])
                implies !crate::utxo_manager::plain_has(
            manager.plain_of(addr@),
            itemsv[j].utxo,
        ) by {
            assert(!crate::utxo_manager::plain_has(p_mid, itemsv[j].utxo));
            assert(!crate::utxo_manager::outpoint_among(bufv, itemsv[j].utxo));
        }
        assert forall|j: int|
            0 <= j < itemsv.len() && classified_plain(#[trigger] itemsv[j])
                && !crate::utxo_manager::plain_has(p0, itemsv[j].utxo) implies
            crate::utxo_manager::plain_has_record(
            manager.plain_of(addr@),
            itemsv[j].utxo,
        ) by {
            assert(crate::utxo_manager::plain_has_record(bufv, itemsv[j].utxo));
            let m = choose|m: int| 0 <= m < bufv.len() && (#[trigger] bufv[m]) == itemsv[j].utxo;
            assert(!crate::utxo_manager::plain_has(p_mid, itemsv[j].utxo)) by {
                if crate::utxo_manager::plain_has(p_mid, itemsv[j].utxo) {
                    assert(crate::utxo_manager::plain_has(p0, itemsv[j].utxo));
                }
            }
            assert(!crate::utxo_manager::runic_has_outpoint(r_fin, itemsv[j].utxo)) by {
                if crate::utxo_manager::runic_has_outpoint(r_fin, itemsv[j].utxo) {
                    assert(!crate::utxo_manager::runic_has_outpoint(r0, itemsv[j].utxo));
                    let j2 = choose|j2: int|
                        0 <= j2 < itemsv.len() && !classified_plain(#[trigger] itemsv[j2])
                            && crate::utxo_manager::outpoint_eq(
                            itemsv[j2].utxo.outpoint,
                            itemsv[j].utxo.outpoint,
                        );
                    if j < j2 {
                        assert(!crate::utxo_manager::outpoint_eq(
                            itemsv[j].utxo.outpoint,
                            itemsv[j2].utxo.outpoint,
                        ));
                    } else {
                        assert(j2 != j);
                        assert(!crate::utxo_manager::outpoint_eq(
                            itemsv[j2].utxo.outpoint,
                            itemsv[j].utxo.outpoint,
                        ));
                    }
                }
            }
            assert forall|m2: int|
                0 <= m2 < bufv.len() && m2 != m implies !crate::utxo_manager::outpoint_eq(
                (#[trigger] bufv[m2]).outpoint,
                bufv[m].outpoint,
            ) by {
                if m2 < m {
                    assert(!crate::utxo_manager::outpoint_eq(
                        bufv[m2].outpoint,
                        bufv[m].outpoint,
                    ));
                } else {
                    assert(!crate::utxo_manager::outpoint_eq(
                        bufv[m].outpoint,
                        bufv[m2].outpoint,
                    ));
                }
            }
            crate::utxo_manager::lemma_plain_inserted_exact(p_mid, r_fin, bufv, m);
            let k = choose|k: int|
                0 <= k < crate::utxo_manager::plain_inserted(p_mid, r_fin, bufv).len()
                    && crate::utxo_manager::plain_inserted(p_mid, r_fin, bufv)[k] == bufv[m];
            assert(manager.plain_of(addr@)[k] == itemsv[j].utxo);
        }
        crate::utxo_manager::lemma_plain_inserted_appends(p_mid, r_fin, bufv);
        assert forall|m: int|
            #![trigger p0[m]]
            0 <= m < p0.len() && !page_has_outpoint(itemsv, p0[m]) implies
            crate::utxo_manager::plain_has_record(manager.plain_of(addr@), p0[m]) by {
            let i2 = choose|i2: int| 0 <= i2 < p_mid.len() && (#[trigger] p_mid[i2]) == p0[m];
            assert(manager.plain_of(addr@)[i2] == p_mid[i2]);
        }
        assert forall|k: int|
            #![trigger manager.plain_of(addr@)[k]]
            0 <= k < manager.plain_of(addr@).len() implies crate::utxo_manager::plain_has_record(
            p0,
            manager.plain_of(addr@)[k],
        ) || buffered_from_page(manager.plain_of(addr@)[k], itemsv) by {
            if k < p_mid.len() {
                assert(manager.plain_of(addr@)[k] == p_mid[k]);
                assert(crate::utxo_manager::plain_has_record(p0, p_mid[k]));
            } else {
                let m = choose|m: int|
                    0 <= m < bufv.len() && crate::utxo_manager::plain_inserted(
                        p_mid,
                        r_fin,
                        bufv,
                    )[k] == bufv[m];
                assert(buffered_from_page(bufv[m], itemsv));
            }
        }
    }
}

/// Whether discovery should fetch another page: only while the balance is
/// still short of the target, the source reports a further page, and the
/// cursor actually advances (a repeated cursor is read as exhaustion).
pub fn keep_fetching(
    target: &TargetType,
    bitcoin_balance: u64,
    runic_balance: u128,
    has_next_page: bool,
    cursor_repeated: bool,
) -> (r: bool)
    ensures
        r == ((match *target {
            TargetType::Bitcoin { target: t } => bitcoin_balance < t,
            TargetType::Runic { runeid: _, target: t } => runic_balance < t,
        }) && has_next_page && !cursor_repeated),
{
    let below = match target {
        TargetType::Bitcoin { target: t } => bitcoin_balance < *t,
        TargetType::Runic { runeid: _, target: t } => runic_balance < *t,
    };
    below && has_next_page && !cursor_repeated
}

/// The lower-case hexadecimal digit for a value below sixteen.
pub open spec fn hex_digit(n: u8) -> char {
    if n < 10 {
        (48 + n) as char
    } else {
        (87 + n) as char
    }
}

/// The display form of a transaction id: the bytes reversed, each written as
/// two lower-case hexadecimal digits.
pub open spec fn txid_display(txid: Seq<u8>) -> Seq<char> {
    Seq::new(txid.len() * 2, |i: int| {
        let b = txid[txid.len() - 1 - i / 2];
        if i % 2 == 0 {
            hex_digit(b / 16)
        } else {
            hex_digit(b % 16)
        }
    })
}

/// Relies on String::from_utf8: a buffer of ASCII bytes decodes to the
/// string whose characters are those bytes.
#[verifier::external_body]
fn ascii_string(bytes: Vec<u8>) -> (r: String)
    requires
        forall|i: int| 0 <= i < bytes@.len() ==> bytes@[i] < 128,
    ensures
        r@ == bytes@.map(|i: int, b: u8| b as char),
{
    String::from_utf8(bytes).unwrap()
}

fn hex_digit_byte(n: u8) -> (r: u8)
    requires
        n < 16,
    ensures
        r < 128,
        r as char == hex_digit(n),
{
    if n < 10 {
        48 + n
    } else {
        87 + n
    }
}

/// Renders a transaction id for the chain-data source: the 32 bytes are
/// shown reversed, in lower-case hexadecimal.
pub fn txid_to_string(txid: &Vec<u8>) -> (r: String)
    requires
        txid@.len() == 32,
    ensures
        r@ == txid_display(txid@),
{
    let n = txid.len();
    let mut out: Vec<u8> = Vec::new();
    let mut i: usize = 0;
    while i < n
        invariant
            n == txid@.len() == 32,
            i <= n,
            out@.len() == 2 * i,
            forall|k: int| 0 <= k < out@.len() ==> out@[k] < 128,
            forall|k: int| 0 <= k < out@.len() ==> #[trigger] out@[k] as char == txid_display(
                txid@,
            )[k],
        decreases n - i,
    {
        let b = txid[n - 1 - i];
        out.push(hex_digit_byte(b / 16));
        out.push(hex_digit_byte(b % 16));
        i += 1;
    }
    let r = ascii_string(out);
    proof {
        assert(r@ =~= txid_display(txid@));
    }
    r
}

} // verus!
