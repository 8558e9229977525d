//! The mempool reconciler's planning step.
//!
//! On startup the node's current mempool and the ledger's unexecuted
//! transactions are merged — ledger entries whose id the mempool already
//! carries are not repeated — and the union is ordered by timestamp
//! ascending, so that the restore phase re-delivers transactions to the
//! client in nondecreasing timestamp order.

use vstd::prelude::*;

use crate::kv::bytes_eq;
use crate::ledger::txs_view;
use crate::types::{clone_bytes, TxIdType};

verus! {

/// Nondecreasing timestamp order.
pub open spec fn sorted_by_ts(s: Seq<(Seq<u8>, i64)>) -> bool {
    forall|i: int, j: int| 0 <= i < j < s.len() ==> s[i].1 <= s[j].1
}

/// Whether some entry carries the id.
pub open spec fn contains_id(s: Seq<(Seq<u8>, i64)>, id: Seq<u8>) -> bool {
    exists|i: int| 0 <= i < s.len() && (#[trigger] s[i]).0 == id
}

/// The entries of `unc` whose id the mempool does not carry, in order.
pub open spec fn missing_of(mem: Seq<(Seq<u8>, i64)>, unc: Seq<(Seq<u8>, i64)>) -> Seq<
    (Seq<u8>, i64),
>
    decreases unc.len(),
{
    if unc.len() == 0 {
        Seq::empty()
    } else {
        (if contains_id(mem, unc[0].0) {
            Seq::empty()
        } else {
            seq![unc[0]]
        }) + missing_of(mem, unc.drop_first())
    }
}

/// The unsorted union the restore phase works from: the mempool entries,
/// then the ledger-only entries.
pub open spec fn restore_merge(mem: Seq<(Seq<u8>, i64)>, unc: Seq<(Seq<u8>, i64)>) -> Seq<
    (Seq<u8>, i64),
> {
    mem + missing_of(mem, unc)
}

/// Appending one entry to the scanned list extends the missing entries by
/// at most that entry.
pub proof fn lemma_missing_of_snoc(
    mem: Seq<(Seq<u8>, i64)>,
    unc: Seq<(Seq<u8>, i64)>,
    p: (Seq<u8>, i64),
)
    ensures
        missing_of(mem, unc.push(p)) == missing_of(mem, unc) + (if contains_id(mem, p.0) {
            Seq::<(Seq<u8>, i64)>::empty()
        } else {
            seq![p]
        }),
    decreases unc.len(),
{
    let tail = if contains_id(mem, p.0) {
        Seq::<(Seq<u8>, i64)>::empty()
    } else {
        seq![p]
    };
    assert(unc.push(p)[0] == if unc.len() == 0 {
        p
    } else {
        unc[0]
    });
    if unc.len() == 0 {
        assert(unc.push(p).drop_first() =~= Seq::<(Seq<u8>, i64)>::empty());
        assert(missing_of(mem, Seq::<(Seq<u8>, i64)>::empty()) =~= Seq::<(Seq<u8>, i64)>::empty());
        assert(missing_of(mem, unc.push(p)) =~= missing_of(mem, unc) + tail);
    } else {
        assert(unc.push(p).drop_first() =~= unc.drop_first().push(p));
        lemma_missing_of_snoc(mem, unc.drop_first(), p);
        assert(missing_of(mem, unc.push(p)) =~= missing_of(mem, unc) + tail);
    }
}

/// Whether the list carries an entry with the given id.
pub fn contains_tx_id(v: &Vec<(TxIdType, i64)>, id: &TxIdType) -> (r: bool)
    ensures
        r == contains_id(txs_view(v@), id@),
{
    let mut i: usize = 0;
    while i < v.len()
        invariant
            0 <= i <= v@.len(),
            forall|j: int| 0 <= j < i ==> (#[trigger] txs_view(v@)[j]).0 != id@,
        decreases v@.len() - i,
    {
        if bytes_eq(&v[i].0, id) {
            assert(txs_view(v@)[i as int].0 == id@);
            return true;
        }
        i += 1;
    }
    false
}

/// Orders the entries by timestamp ascending, keeping the same entries.
fn sort_txs_by_ts(v: Vec<(TxIdType, i64)>) -> (r: Vec<(TxIdType, i64)>)
    ensures
        sorted_by_ts(txs_view(r@)),
        txs_view(r@).to_multiset() == txs_view(v@).to_multiset(),
{
    broadcast use vstd::seq_lib::group_to_multiset_ensures;

    let mut rest = v;
    let ghost vm = txs_view(rest@);
    let mut out: Vec<(TxIdType, i64)> = Vec::new();
    proof {
        assert(txs_view(out@) =~= Seq::<(Seq<u8>, i64)>::empty());
        assert(txs_view(out@).to_multiset().add(txs_view(rest@).to_multiset()) =~= txs_view(
            rest@,
        ).to_multiset());
    }
    while rest.len() > 0
        invariant
            txs_view(out@).to_multiset().add(txs_view(rest@).to_multiset()) == vm.to_multiset(),
            sorted_by_ts(txs_view(out@)),
            forall|i: int, j: int|
                0 <= i < out@.len() && 0 <= j < rest@.len() ==> (#[trigger] txs_view(out@)[i]).1
                    <= (#[trigger] txs_view(rest@)[j]).1,
        decreases rest.len(),
    {
        let mut mi: usize = 0;
        let mut k: usize = 1;
        while k < rest.len()
            invariant
                0 <= mi < k <= rest@.len(),
                forall|j: int| 0 <= j < k ==> txs_view(rest@)[mi as int].1 <= (#[trigger] txs_view(
                    rest@,
                )[j]).1,
            decreases rest@.len() - k,
        {
            if rest[k].1 < rest[mi].1 {
                mi = k;
            }
            k += 1;
        }
        let ghost rest_before = txs_view(rest@);
        let ghost out_before = txs_view(out@);
        let p = rest.remove(mi);
        out.push(p);
        proof {
            let elem = rest_before[mi as int];
            out_before.to_multiset_ensures();
            rest_before.to_multiset_ensures();
            assert(txs_view(rest@) =~= rest_before.remove(mi as int));
            assert(txs_view(out@) =~= out_before.push(elem));
            assert(out_before.push(elem).to_multiset() =~= out_before.to_multiset().insert(elem));
            assert(txs_view(out@).to_multiset() == out_before.to_multiset().insert(elem));
            assert(rest_before.remove(mi as int).to_multiset() =~= rest_before.to_multiset().remove(
                elem,
            ));
            assert(txs_view(rest@).to_multiset() == rest_before.to_multiset().remove(elem));
            assert(rest_before.contains(elem)) by {
                assert(0 <= mi < rest_before.len() && rest_before[mi as int] == elem);
            }
            assert(rest_before.to_multiset().count(elem) > 0);
            assert(txs_view(out@).to_multiset().add(txs_view(rest@).to_multiset())
                =~= out_before.to_multiset().add(rest_before.to_multiset()));
            assert forall|i: int, j: int|
                0 <= i < out@.len() && 0 <= j < rest@.len() implies (#[trigger] txs_view(
                out@,
            )[i]).1 <= (#[trigger] txs_view(rest@)[j]).1 by {
                assert(txs_view(rest@)[j] == if j < mi {
                    rest_before[j]
                } else {
                    rest_before[j + 1]
                });
                if i < out_before.len() {
                    assert(txs_view(out@)[i] == out_before[i]);
                } else {
                    assert(txs_view(out@)[i] == rest_before[mi as int]);
                }
            }
            assert(sorted_by_ts(txs_view(out@))) by {
                assert(forall|i: int|
                    0 <= i < out_before.len() ==> #[trigger] txs_view(out@)[i] == out_before[i]);
                assert(txs_view(out@)[out_before.len() as int] == rest_before[mi as int]);
            }
        }
    }
    proof {
        assert(txs_view(rest@) =~= Seq::<(Seq<u8>, i64)>::empty());
        assert(txs_view(out@).to_multiset().add(txs_view(rest@).to_multiset()) =~= txs_view(
            out@,
        ).to_multiset());
    }
    out
}

/// Builds the restore plan: the mempool entries, joined by the
/// ledger-unexecuted entries the mempool does not carry, ordered by
/// timestamp ascending. One `TxFromRestoreByTxId` event per entry is then
/// injected, in this order.
pub fn plan_restore(mempool: &Vec<(TxIdType, i64)>, unconsumed: &Vec<(TxIdType, i64)>) -> (r: Vec<
    (TxIdType, i64),
>)
    ensures
        sorted_by_ts(txs_view(r@)),
        txs_view(r@).to_multiset() == restore_merge(
            txs_view(mempool@),
            txs_view(unconsumed@),
        ).to_multiset(),
{
    let ghost memv = txs_view(mempool@);
    let ghost uncv = txs_view(unconsumed@);
    let mut merged: Vec<(TxIdType, i64)> = Vec::new();
    let mut i: usize = 0;
    while i < mempool.len()
        invariant
            0 <= i <= mempool@.len(),
            memv == txs_view(mempool@),
            merged@.len() == i,
            txs_view(merged@) == memv.subrange(0, i as int),
        decreases mempool@.len() - i,
    {
        let id = clone_bytes(&mempool[i].0);
        merged.push((id, mempool[i].1));
        proof {
            assert(txs_view(merged@) =~= memv.subrange(0, i + 1));
        }
        i += 1;
    }
    proof {
        assert(memv.subrange(0, memv.len() as int) =~= memv);
        assert(missing_of(memv, uncv.subrange(0, 0)) =~= Seq::<(Seq<u8>, i64)>::empty());
        assert(txs_view(merged@) =~= memv + missing_of(memv, uncv.subrange(0, 0)));
    }
    let mut j: usize = 0;
    while j < unconsumed.len()
        invariant
            0 <= j <= unconsumed@.len(),
            memv == txs_view(mempool@),
            uncv == txs_view(unconsumed@),
            txs_view(merged@) == memv + missing_of(memv, uncv.subrange(0, j as int)),
        decreases unconsumed@.len() - j,
    {
        proof {
            lemma_missing_of_snoc(memv, uncv.subrange(0, j as int), uncv[j as int]);
            assert(uncv.subrange(0, j as int).push(uncv[j as int]) =~= uncv.subrange(0, j + 1));
        }
        if !contains_tx_id(mempool, &unconsumed[j].0) {
            let id = clone_bytes(&unconsumed[j].0);
            merged.push((id, unconsumed[j].1));
            proof {
                assert(uncv[j as int].0 == unconsumed@[j as int].0@);
                assert(txs_view(merged@) =~= (memv + missing_of(memv, uncv.subrange(0, j as int)))
                    + seq![uncv[j as int]]);
                assert((memv + missing_of(memv, uncv.subrange(0, j as int))) + seq![
                    uncv[j as int],
                ] =~= memv + (missing_of(memv, uncv.subrange(0, j as int)) + seq![uncv[j as int]]));
            }
        } else {
            proof {
                assert(uncv[j as int].0 == unconsumed@[j as int].0@);
                assert(missing_of(memv, uncv.subrange(0, j as int)) + Seq::<
                    (Seq<u8>, i64),
                >::empty() =~= missing_of(memv, uncv.subrange(0, j as int)));
            }
        }
        j += 1;
    }
    proof {
        assert(uncv.subrange(0, uncv.len() as int) =~= uncv);
    }
    sort_txs_by_ts(merged)
}

} // verus!
