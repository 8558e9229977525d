//! The delta ledger: the durable record of per-transaction balance
//! mutations, kept in prefixed columns of the key-value store.
//!
//! Column layout: `s|<tx_id>` holds the seen record, `d|<tx_id>` the delta
//! record. Every operation is idempotent: the ingest path may replay
//! transactions, the executor may retry deltas, and reorg notifications may
//! revisit already-dropped transactions.

use vstd::prelude::*;

use crate::batch::{batch_new, batch_ops, batch_put};
use crate::codec::{
    decode_delta, decode_seen, delta_dec, delta_enc, encode_delta, encode_seen, seen_dec, seen_enc,
};
use crate::kv::{
    kv_apply_one, kv_apply_ops, kv_filter_prefix, kv_find, kv_put, kv_wf, KvModel, MemoryDB,
};
use crate::types::{
    delta_amount_of, DeltaRecord, DeltaRecordV, DeltaStatus, SeenRecord, TransactionDelta,
    AddressType, TokenType, TxIdType, BalanceType,
};

verus! {

/// The column key of a transaction's seen record: `s|` then the id bytes.
pub open spec fn seen_key_spec(id: Seq<u8>) -> Seq<u8> {
    seq![115u8, 124u8] + id
}

/// The column key of a transaction's delta record: `d|` then the id bytes.
pub open spec fn delta_key_spec(id: Seq<u8>) -> Seq<u8> {
    seq![100u8, 124u8] + id
}

/// The seen column prefix, `s|`.
pub open spec fn seen_prefix_spec() -> Seq<u8> {
    seq![115u8, 124u8]
}

/// The delta column prefix, `d|`.
pub open spec fn delta_prefix_spec() -> Seq<u8> {
    seq![100u8, 124u8]
}

fn seen_key(id: &Vec<u8>) -> (r: Vec<u8>)
    ensures
        r@ == seen_key_spec(id@),
{
    let mut r: Vec<u8> = Vec::new();
    r.push(115u8);
    r.push(124u8);
    r.extend_from_slice(id.as_slice());
    proof {
        assert(r@ =~= seen_key_spec(id@));
    }
    r
}

fn delta_key(id: &Vec<u8>) -> (r: Vec<u8>)
    ensures
        r@ == delta_key_spec(id@),
{
    let mut r: Vec<u8> = Vec::new();
    r.push(100u8);
    r.push(124u8);
    r.extend_from_slice(id.as_slice());
    proof {
        assert(r@ =~= delta_key_spec(id@));
    }
    r
}

/// The seen record stored for `id`, if present and well-formed.
pub open spec fn seen_rec_of(db: KvModel, id: Seq<u8>) -> Option<SeenRecord> {
    match kv_find(db, seen_key_spec(id)) {
        Option::Some(v) => seen_dec(v),
        Option::None => Option::None,
    }
}

/// The delta record stored for `id`, if present and well-formed.
pub open spec fn delta_rec_of(db: KvModel, id: Seq<u8>) -> Option<DeltaRecordV> {
    match kv_find(db, delta_key_spec(id)) {
        Option::Some(v) => delta_dec(v),
        Option::None => Option::None,
    }
}

/// What the ledger can fail with: a stored frame that does not decode, or a
/// balance that exceeds the machine range.
#[derive(Clone, Copy, PartialEq, Eq, Structural, Debug)]
pub enum LedgerError {
    Corrupted,
    Overflow,
}

/// What `seen_and_store_txs` reports: the transaction is new, or was seen
/// before with the stored executed flag.
#[derive(Clone, Copy, PartialEq, Eq, Structural, Debug)]
pub enum SeenState {
    Fresh,
    Seen { executed: bool },
}

/// The delta ledger over the key-value store.
#[derive(Clone, Debug)]
pub struct Ledger {
    db: MemoryDB,
}

impl View for Ledger {
    type V = KvModel;

    closed spec fn view(&self) -> KvModel {
        self.db@
    }
}

impl Ledger {
    /// The ledger invariant: the underlying store keys are distinct.
    pub open spec fn inv(&self) -> bool {
        kv_wf(self@)
    }

    /// Wraps a key-value store as a ledger.
    pub fn new(db: MemoryDB) -> (r: Self)
        requires
            db.inv(),
        ensures
            r@ == db@,
            r.inv(),
    {
        Ledger { db }
    }

    /// Records the first sight of a transaction, atomically through a
    /// batched write, or reports the stored seen-state.
    pub fn seen_and_store_txs(&mut self, tx_id: &TxIdType, now_ts: i64) -> (r: Result<
        SeenState,
        LedgerError,
    >)
        requires
            old(self).inv(),
        ensures
            final(self).inv(),
            match seen_rec_of(old(self)@, tx_id@) {
                Option::Some(rec) => r == Ok::<SeenState, LedgerError>(SeenState::Seen { executed: rec.executed }) && final(self)@ == old(self)@,
                Option::None => {
                    match kv_find(old(self)@, seen_key_spec(tx_id@)) {
                        Option::Some(_) => r == Err::<SeenState, LedgerError>(
                            LedgerError::Corrupted,
                        ) && final(self)@ == old(self)@,
                        Option::None => r == Ok::<SeenState, LedgerError>(SeenState::Fresh) && final(self)@ == kv_put(
                            old(self)@,
                            seen_key_spec(tx_id@),
                            seen_enc(SeenRecord { first_seen_ts: now_ts, executed: false }),
                        ),
                    }
                },
            },
    {
        let key = seen_key(tx_id);
        match self.db.get(&key) {
            Some(v) => {
                match decode_seen(&v) {
                    Some(rec) => Ok(SeenState::Seen { executed: rec.executed }),
                    None => Err(LedgerError::Corrupted),
                }
            },
            None => {
                let rec = SeenRecord { first_seen_ts: now_ts, executed: false };
                let val = encode_seen(&rec);
                let mut b = batch_new();
                batch_put(&mut b, &key, &val);
                let ghost op = (key@, Option::Some(val@));
                proof {
                    assert(batch_ops(b) =~= seq![op]);
                }
                self.db.write_batch(b, true);
                proof {
                    lemma_apply_single(old(self)@, op);
                }
                Ok(SeenState::Fresh)
            },
        }
    }

    /// Flips the stored executed flag of a seen transaction; unknown ids are
    /// ignored.
    pub fn mark_executed(&mut self, tx_id: &TxIdType) -> (r: Result<(), LedgerError>)
        requires
            old(self).inv(),
        ensures
            final(self).inv(),
            match seen_rec_of(old(self)@, tx_id@) {
                Option::Some(rec) => r == Ok::<(), LedgerError>(()) && final(self)@ == kv_put(
                    old(self)@,
                    seen_key_spec(tx_id@),
                    seen_enc(SeenRecord { first_seen_ts: rec.first_seen_ts, executed: true }),
                ),
                Option::None => {
                    match kv_find(old(self)@, seen_key_spec(tx_id@)) {
                        Option::Some(_) => r == Err::<(), LedgerError>(LedgerError::Corrupted)
                            && final(self)@ == old(self)@,
                        Option::None => r == Ok::<(), LedgerError>(()) && final(self)@ == old(self)@,
                    }
                },
            },
    {
        let key = seen_key(tx_id);
        match self.db.get(&key) {
            Some(v) => {
                match decode_seen(&v) {
                    Some(rec) => {
                        let rec2 = SeenRecord { first_seen_ts: rec.first_seen_ts, executed: true };
                        let val = encode_seen(&rec2);
                        self.db.set(&key, &val);
                        Ok(())
                    },
                    None => Err(LedgerError::Corrupted),
                }
            },
            None => Ok(()),
        }
    }

    /// Stores an application-computed delta as a new `Active` record. An
    /// empty delta, or a transaction whose record already exists, is left
    /// alone: a delta is recorded at most once per transaction, and a
    /// terminal record never reverts.
    pub fn add_transaction_delta(&mut self, delta: &TransactionDelta) -> (r: Result<
        (),
        LedgerError,
    >)
        requires
            old(self).inv(),
        ensures
            final(self).inv(),
            delta@.deltas.len() == 0 ==> r == Ok::<(), LedgerError>(()) && final(self)@ == old(self)@,
            delta@.deltas.len() != 0 ==> match kv_find(old(self)@, delta_key_spec(delta@.tx_id)) {
                Option::Some(v) => {
                    match delta_dec(v) {
                        Option::Some(_) => r == Ok::<(), LedgerError>(()) && final(self)@ == old(self)@,
                        Option::None => r == Err::<(), LedgerError>(LedgerError::Corrupted) && final(self)@ == old(self)@,
                    }
                },
                Option::None => r == Ok::<(), LedgerError>(()) && final(self)@ == kv_put(
                    old(self)@,
                    delta_key_spec(delta@.tx_id),
                    delta_enc(DeltaRecordV { status: DeltaStatus::Active, deltas: delta@.deltas }),
                ),
            },
    {
        if delta.deltas.len() == 0 {
            return Ok(());
        }
        let key = delta_key(&delta.tx_id);
        match self.db.get(&key) {
            Some(v) => {
                match decode_delta(&v) {
                    Some(_) => Ok(()),
                    None => Err(LedgerError::Corrupted),
                }
            },
            None => {
                let copied = crate::types::clone_deltas(&delta.deltas);
                let rec = DeltaRecord { status: DeltaStatus::Active, deltas: copied };
                let val = encode_delta(&rec);
                self.db.set(&key, &val);
                Ok(())
            },
        }
    }

    /// Moves a delta record that still counts in balances — `Active`, or
    /// `Confirmed` when a reorg reverses it — to the given target status.
    /// Repeat calls and unknown ids are ignored: an `InActive` record is
    /// final, and a delta may never have been written at all.
    pub fn remove_transaction_delta(&mut self, tx_id: &TxIdType, target_status: DeltaStatus) -> (r:
        Result<(), LedgerError>)
        requires
            old(self).inv(),
            target_status.is_terminal(),
        ensures
            final(self).inv(),
            match delta_rec_of(old(self)@, tx_id@) {
                Option::Some(rec) => {
                    if rec.status.moves_to(target_status) {
                        r == Ok::<(), LedgerError>(()) && final(self)@ == kv_put(
                            old(self)@,
                            delta_key_spec(tx_id@),
                            delta_enc(DeltaRecordV { status: target_status, deltas: rec.deltas }),
                        )
                    } else {
                        r == Ok::<(), LedgerError>(()) && final(self)@ == old(self)@
                    }
                },
                Option::None => {
                    match kv_find(old(self)@, delta_key_spec(tx_id@)) {
                        Option::Some(_) => r == Err::<(), LedgerError>(LedgerError::Corrupted)
                            && final(self)@ == old(self)@,
                        Option::None => r == Ok::<(), LedgerError>(()) && final(self)@ == old(self)@,
                    }
                },
            },
    {
        let key = delta_key(tx_id);
        match self.db.get(&key) {
            Some(v) => {
                match decode_delta(&v) {
                    Some(rec) => {
                        let counts = match rec.status {
                            DeltaStatus::Active => true,
                            DeltaStatus::Confirmed => true,
                            DeltaStatus::InActive => false,
                        };
                        if counts && !(rec.status == target_status) {
                            let rec2 = DeltaRecord { status: target_status, deltas: rec.deltas };
                            let val = encode_delta(&rec2);
                            self.db.set(&key, &val);
                        }
                        Ok(())
                    },
                    None => Err(LedgerError::Corrupted),
                }
            },
            None => Ok(()),
        }
    }
}

/// Whether a mathematical value fits the balance type.
pub open spec fn in_i128(x: int) -> bool {
    i128::MIN <= x <= i128::MAX
}

/// The checked accumulation over a `(token, amount)` list, as the balance
/// scan performs it: `None` marks the first overflowing step.
pub open spec fn pair_sum_steps(ps: Seq<(Seq<u8>, i128)>, tok: Seq<u8>, acc: int) -> Option<int>
    decreases ps.len(),
{
    if ps.len() == 0 {
        Option::Some(acc)
    } else {
        let a2 = acc + if ps[0].0 == tok {
            ps[0].1 as int
        } else {
            0
        };
        if in_i128(a2) {
            pair_sum_steps(ps.drop_first(), tok, a2)
        } else {
            Option::None
        }
    }
}

/// The checked accumulation over an address map.
pub open spec fn entry_sum_steps(
    es: Seq<(Seq<u8>, Seq<(Seq<u8>, i128)>)>,
    addr: Seq<u8>,
    tok: Seq<u8>,
    acc: int,
) -> Option<int>
    decreases es.len(),
{
    if es.len() == 0 {
        Option::Some(acc)
    } else {
        let r0 = if es[0].0 == addr {
            pair_sum_steps(es[0].1, tok, acc)
        } else {
            Option::Some(acc)
        };
        match r0 {
            Option::Some(a2) => entry_sum_steps(es.drop_first(), addr, tok, a2),
            Option::None => Option::None,
        }
    }
}

/// The balance scan over the delta rows, in storage order: the first row
/// that does not decode is a corruption error, the first overflowing
/// addition an overflow error.
pub open spec fn rows_scan(rows: KvModel, addr: Seq<u8>, tok: Seq<u8>, acc: int) -> Result<
    int,
    LedgerError,
>
    decreases rows.len(),
{
    if rows.len() == 0 {
        Result::Ok(acc)
    } else {
        match delta_dec(rows[0].1) {
            Option::Some(rec) => {
                let r0 = if rec.status.counts_in_balance() {
                    entry_sum_steps(rec.deltas, addr, tok, acc)
                } else {
                    Option::Some(acc)
                };
                match r0 {
                    Option::Some(a2) => rows_scan(rows.drop_first(), addr, tok, a2),
                    Option::None => Result::Err(LedgerError::Overflow),
                }
            },
            Option::None => Result::Err(LedgerError::Corrupted),
        }
    }
}

/// What `get_balance` computes on a ledger state.
pub open spec fn ledger_scan(db: KvModel, addr: Seq<u8>, tok: Seq<u8>) -> Result<
    int,
    LedgerError,
> {
    rows_scan(kv_filter_prefix(db, delta_prefix_spec()), addr, tok, 0)
}

/// The contribution of one stored delta row to a balance.
pub open spec fn row_contrib(v: Seq<u8>, addr: Seq<u8>, tok: Seq<u8>) -> int {
    match delta_dec(v) {
        Option::Some(rec) => {
            if rec.status.counts_in_balance() {
                delta_amount_of(rec.deltas, addr, tok)
            } else {
                0
            }
        },
        Option::None => 0,
    }
}

/// The mathematical balance: the sum, over the delta rows, of the amounts of
/// every record whose status still counts.
pub open spec fn rows_balance(rows: KvModel, addr: Seq<u8>, tok: Seq<u8>) -> int
    decreases rows.len(),
{
    if rows.len() == 0 {
        0
    } else {
        row_contrib(rows[0].1, addr, tok) + rows_balance(rows.drop_first(), addr, tok)
    }
}

/// The reported balance of `(addr, tok)`: the sum of amounts over all deltas
/// whose status is `Active` or `Confirmed`.
pub open spec fn ledger_balance(db: KvModel, addr: Seq<u8>, tok: Seq<u8>) -> int {
    rows_balance(kv_filter_prefix(db, delta_prefix_spec()), addr, tok)
}

/// A successful checked pair accumulation is the plain sum.
pub proof fn lemma_pair_sum_steps(ps: Seq<(Seq<u8>, i128)>, tok: Seq<u8>, acc: int, x: int)
    requires
        pair_sum_steps(ps, tok, acc) == Option::Some(x),
    ensures
        x == acc + crate::types::pair_amount_of(ps, tok),
    decreases ps.len(),
{
    if ps.len() == 0 {
    } else {
        let a2 = acc + if ps[0].0 == tok {
            ps[0].1 as int
        } else {
            0
        };
        lemma_pair_sum_steps(ps.drop_first(), tok, a2, x);
    }
}

/// A successful checked entry accumulation is the plain sum.
pub proof fn lemma_entry_sum_steps(
    es: Seq<(Seq<u8>, Seq<(Seq<u8>, i128)>)>,
    addr: Seq<u8>,
    tok: Seq<u8>,
    acc: int,
    x: int,
)
    requires
        entry_sum_steps(es, addr, tok, acc) == Option::Some(x),
    ensures
        x == acc + delta_amount_of(es, addr, tok),
    decreases es.len(),
{
    if es.len() == 0 {
    } else {
        let r0 = if es[0].0 == addr {
            pair_sum_steps(es[0].1, tok, acc)
        } else {
            Option::Some(acc)
        };
        let a2 = r0->Some_0;
        if es[0].0 == addr {
            lemma_pair_sum_steps(es[0].1, tok, acc, a2);
        }
        lemma_entry_sum_steps(es.drop_first(), addr, tok, a2, x);
    }
}

/// A successful balance scan computes the mathematical balance.
pub proof fn lemma_rows_scan(rows: KvModel, addr: Seq<u8>, tok: Seq<u8>, acc: int, x: int)
    requires
        rows_scan(rows, addr, tok, acc) == Result::<int, LedgerError>::Ok(x),
    ensures
        x == acc + rows_balance(rows, addr, tok),
    decreases rows.len(),
{
    if rows.len() == 0 {
    } else {
        let rec = delta_dec(rows[0].1)->Some_0;
        let r0 = if rec.status.counts_in_balance() {
            entry_sum_steps(rec.deltas, addr, tok, acc)
        } else {
            Option::Some(acc)
        };
        let a2 = r0->Some_0;
        if rec.status.counts_in_balance() {
            lemma_entry_sum_steps(rec.deltas, addr, tok, acc, a2);
        }
        lemma_rows_scan(rows.drop_first(), addr, tok, a2, x);
    }
}

/// Sums a pair list into the accumulator, from index `i` on; `None` marks
/// an overflowing step.
fn pair_sum(ps: &Vec<(TokenType, BalanceType)>, i: usize, tok: &TokenType, acc: i128) -> (r:
    Option<i128>)
    requires
        i <= ps@.len(),
    ensures
        match r {
            Option::Some(x) => pair_sum_steps(
                crate::types::pairs_model(ps@).subrange(i as int, ps@.len() as int),
                tok@,
                acc as int,
            ) == Option::Some(x as int),
            Option::None => pair_sum_steps(
                crate::types::pairs_model(ps@).subrange(i as int, ps@.len() as int),
                tok@,
                acc as int,
            ) is None,
        },
    decreases ps@.len() - i,
{
    let ghost m = crate::types::pairs_model(ps@);
    let ghost sfx = m.subrange(i as int, ps@.len() as int);
    if i == ps.len() {
        proof {
            assert(sfx =~= Seq::<(Seq<u8>, i128)>::empty());
        }
        return Some(acc);
    }
    proof {
        assert(sfx[0] == m[i as int]);
        assert(sfx.drop_first() =~= m.subrange(i as int + 1, ps@.len() as int));
    }
    let step: i128 = if crate::kv::bytes_eq(&ps[i].0, tok) {
        ps[i].1
    } else {
        0
    };
    match acc.checked_add(step) {
        Some(a2) => pair_sum(ps, i + 1, tok, a2),
        None => None,
    }
}

/// Sums an address map into the accumulator, from index `i` on.
fn entry_sum(
    es: &Vec<(AddressType, Vec<(TokenType, BalanceType)>)>,
    i: usize,
    addr: &AddressType,
    tok: &TokenType,
    acc: i128,
) -> (r: Option<i128>)
    requires
        i <= es@.len(),
    ensures
        match r {
            Option::Some(x) => entry_sum_steps(
                crate::types::deltas_model(es@).subrange(i as int, es@.len() as int),
                addr@,
                tok@,
                acc as int,
            ) == Option::Some(x as int),
            Option::None => entry_sum_steps(
                crate::types::deltas_model(es@).subrange(i as int, es@.len() as int),
                addr@,
                tok@,
                acc as int,
            ) is None,
        },
    decreases es@.len() - i,
{
    let ghost m = crate::types::deltas_model(es@);
    let ghost sfx = m.subrange(i as int, es@.len() as int);
    if i == es.len() {
        proof {
            assert(sfx =~= Seq::<(Seq<u8>, Seq<(Seq<u8>, i128)>)>::empty());
        }
        return Some(acc);
    }
    proof {
        assert(sfx[0] == m[i as int]);
        assert(sfx.drop_first() =~= m.subrange(i as int + 1, es@.len() as int));
        assert(crate::types::pairs_model(es@[i as int].1@).subrange(
            0,
            es@[i as int].1@.len() as int,
        ) =~= crate::types::pairs_model(es@[i as int].1@));
    }
    let r0: Option<i128> = if crate::kv::bytes_eq(&es[i].0, addr) {
        pair_sum(&es[i].1, 0, tok, acc)
    } else {
        Some(acc)
    };
    match r0 {
        Some(a2) => entry_sum(es, i + 1, addr, tok, a2),
        None => None,
    }
}

fn delta_prefix() -> (r: Vec<u8>)
    ensures
        r@ == delta_prefix_spec(),
{
    let mut r: Vec<u8> = Vec::new();
    r.push(100u8);
    r.push(124u8);
    proof {
        assert(r@ =~= delta_prefix_spec());
    }
    r
}

fn seen_prefix() -> (r: Vec<u8>)
    ensures
        r@ == seen_prefix_spec(),
{
    let mut r: Vec<u8> = Vec::new();
    r.push(115u8);
    r.push(124u8);
    proof {
        assert(r@ =~= seen_prefix_spec());
    }
    r
}

impl Ledger {
    /// Reports the balance of `(address, token)`: the sum of amounts over
    /// all stored deltas whose status is `Active` or `Confirmed`, scanned
    /// deterministically in storage order.
    pub fn get_balance(&self, address: &AddressType, token: &TokenType) -> (r: Result<
        BalanceType,
        LedgerError,
    >)
        ensures
            match r {
                Result::Ok(x) => ledger_scan(self@, address@, token@) == Result::<
                    int,
                    LedgerError,
                >::Ok(x as int) && x as int == ledger_balance(self@, address@, token@),
                Result::Err(e) => ledger_scan(self@, address@, token@) == Result::<
                    int,
                    LedgerError,
                >::Err(e),
            },
    {
        let prefix = delta_prefix();
        let rows = self.db.iter_all(&prefix);
        let ghost rowsm = crate::kv::pairs_view(rows@);
        let mut acc: i128 = 0;
        let mut i: usize = 0;
        proof {
            assert(rowsm.subrange(0, rowsm.len() as int) =~= rowsm);
        }
        while i < rows.len()
            invariant
                0 <= i <= rows.len(),
                rowsm == crate::kv::pairs_view(rows@),
                rowsm == kv_filter_prefix(self@, delta_prefix_spec()),
                rowsm.len() == rows.len(),
                rows_scan(rowsm, address@, token@, 0) == rows_scan(
                    rowsm.subrange(i as int, rowsm.len() as int),
                    address@,
                    token@,
                    acc as int,
                ),
            decreases rows.len() - i,
        {
            let ghost sfx = rowsm.subrange(i as int, rowsm.len() as int);
            proof {
                assert(sfx[0] == rowsm[i as int]);
                assert(sfx.drop_first() =~= rowsm.subrange(i as int + 1, rowsm.len() as int));
            }
            match decode_delta(&rows[i].1) {
                Some(rec) => {
                    let counts = match rec.status {
                        DeltaStatus::Active => true,
                        DeltaStatus::Confirmed => true,
                        DeltaStatus::InActive => false,
                    };
                    proof {
                        assert(crate::types::deltas_model(rec.deltas@).subrange(
                            0,
                            rec.deltas@.len() as int,
                        ) =~= crate::types::deltas_model(rec.deltas@));
                    }
                    if counts {
                        match entry_sum(&rec.deltas, 0, address, token, acc) {
                            Some(a2) => {
                                acc = a2;
                            },
                            None => {
                                return Err(LedgerError::Overflow);
                            },
                        }
                    }
                },
                None => {
                    return Err(LedgerError::Corrupted);
                },
            }
            i += 1;
        }
        proof {
            assert(rowsm.subrange(i as int, rowsm.len() as int) =~= Seq::<
                (Seq<u8>, Seq<u8>),
            >::empty());
            lemma_rows_scan(rowsm, address@, token@, 0, acc as int);
        }
        Ok(acc)
    }
}

/// The model of a `(tx_id, timestamp)` list.
pub open spec fn txs_view(v: Seq<(Vec<u8>, i64)>) -> Seq<(Seq<u8>, i64)> {
    Seq::new(v.len(), |i: int| (v[i].0@, v[i].1))
}

/// One row of the unconsumed scan: whether the seen row `(k, v)` is still
/// owed to the client — not yet executed, or executed with its delta still
/// `Active`.
pub open spec fn unconsumed_row(db: KvModel, k: Seq<u8>, v: Seq<u8>) -> Result<
    Option<(Seq<u8>, i64)>,
    LedgerError,
> {
    match seen_dec(v) {
        Option::Some(rec) => {
            let id = k.subrange(2, k.len() as int);
            if !rec.executed {
                Result::Ok(Option::Some((id, rec.first_seen_ts)))
            } else {
                match kv_find(db, delta_key_spec(id)) {
                    Option::Some(dv) => match delta_dec(dv) {
                        Option::Some(drec) => {
                            if drec.status == DeltaStatus::Active {
                                Result::Ok(Option::Some((id, rec.first_seen_ts)))
                            } else {
                                Result::Ok(Option::None)
                            }
                        },
                        Option::None => Result::Err(LedgerError::Corrupted),
                    },
                    Option::None => Result::Ok(Option::None),
                }
            }
        },
        Option::None => Result::Err(LedgerError::Corrupted),
    }
}

/// The unconsumed scan over the seen rows, in storage order.
pub open spec fn unconsumed_scan(db: KvModel, rows: KvModel) -> Result<
    Seq<(Seq<u8>, i64)>,
    LedgerError,
>
    decreases rows.len(),
{
    if rows.len() == 0 {
        Result::Ok(Seq::empty())
    } else {
        match unconsumed_row(db, rows[0].0, rows[0].1) {
            Result::Ok(opt) => match unconsumed_scan(db, rows.drop_first()) {
                Result::Ok(rest) => Result::Ok(
                    match opt {
                        Option::Some(p) => seq![p] + rest,
                        Option::None => rest,
                    },
                ),
                Result::Err(e) => Result::Err(e),
            },
            Result::Err(e) => Result::Err(e),
        }
    }
}

/// What `get_all_un_consumed_txs` computes on a ledger state.
pub open spec fn ledger_unconsumed(db: KvModel) -> Result<Seq<(Seq<u8>, i64)>, LedgerError> {
    unconsumed_scan(db, kv_filter_prefix(db, seen_prefix_spec()))
}

impl Ledger {
    /// Lists every transaction still owed to the client, with its first-seen
    /// timestamp: entries not yet executed, or whose delta is still
    /// `Active`. Order is storage order; the caller sorts.
    pub fn get_all_un_consumed_txs(&self) -> (r: Result<Vec<(TxIdType, i64)>, LedgerError>)
        ensures
            match r {
                Result::Ok(v) => ledger_unconsumed(self@) == Result::<
                    Seq<(Seq<u8>, i64)>,
                    LedgerError,
                >::Ok(txs_view(v@)),
                Result::Err(e) => ledger_unconsumed(self@) == Result::<
                    Seq<(Seq<u8>, i64)>,
                    LedgerError,
                >::Err(e),
            },
    {
        let prefix = seen_prefix();
        let rows = self.db.iter_all(&prefix);
        let ghost rowsm = crate::kv::pairs_view(rows@);
        let mut out: Vec<(TxIdType, i64)> = Vec::new();
        let mut i: usize = 0;
        proof {
            crate::kv::lemma_filter_prefix_all(self@, seen_prefix_spec());
            assert(rowsm.subrange(0, rowsm.len() as int) =~= rowsm);
            assert(txs_view(out@) + Seq::<(Seq<u8>, i64)>::empty() =~= txs_view(out@));
        }
        while i < rows.len()
            invariant
                0 <= i <= rows.len(),
                rowsm == crate::kv::pairs_view(rows@),
                rowsm == kv_filter_prefix(self@, seen_prefix_spec()),
                rowsm.len() == rows.len(),
                forall|j: int|
                    0 <= j < rowsm.len() ==> crate::kv::is_prefix_of(
                        seen_prefix_spec(),
                        (#[trigger] rowsm[j]).0,
                    ),
                match unconsumed_scan(self@, rowsm.subrange(i as int, rowsm.len() as int)) {
                    Result::Ok(rest) => unconsumed_scan(self@, rowsm) == Result::<
                        Seq<(Seq<u8>, i64)>,
                        LedgerError,
                    >::Ok(txs_view(out@) + rest),
                    Result::Err(e) => unconsumed_scan(self@, rowsm) == Result::<
                        Seq<(Seq<u8>, i64)>,
                        LedgerError,
                    >::Err(e),
                },
            decreases rows.len() - i,
        {
            let ghost sfx = rowsm.subrange(i as int, rowsm.len() as int);
            proof {
                assert(sfx[0] == rowsm[i as int]);
                assert(sfx.drop_first() =~= rowsm.subrange(i as int + 1, rowsm.len() as int));
            }
            let rec = match decode_seen(&rows[i].1) {
                Some(rec) => rec,
                None => {
                    return Err(LedgerError::Corrupted);
                },
            };
            let klen: usize = rows[i].0.len();
            assert(klen >= 2);
            let ks = rows[i].0.as_slice();
            let idsl = vstd::slice::slice_subrange(ks, 2, klen);
            let id: Vec<u8> = vstd::slice::slice_to_vec(idsl);
            let ghost idm = rowsm[i as int].0.subrange(2, rowsm[i as int].0.len() as int);
            proof {
                assert(id@ =~= idm);
            }
            let keep_row: bool = if !rec.executed {
                true
            } else {
                let dk = delta_key(&id);
                match self.db.get(&dk) {
                    Some(dv) => {
                        match decode_delta(&dv) {
                            Some(drec) => {
                                match drec.status {
                                    DeltaStatus::Active => true,
                                    _ => false,
                                }
                            },
                            None => {
                                return Err(LedgerError::Corrupted);
                            },
                        }
                    },
                    None => false,
                }
            };
            let ghost out_before = txs_view(out@);
            if keep_row {
                out.push((id, rec.first_seen_ts));
                proof {
                    assert(txs_view(out@) =~= out_before + seq![(idm, rec.first_seen_ts)]);
                }
            }
            proof {
                match unconsumed_scan(self@, sfx.drop_first()) {
                    Result::Ok(rest) => {
                        if keep_row {
                            assert((out_before + seq![(idm, rec.first_seen_ts)]) + rest
                                =~= out_before + (seq![(idm, rec.first_seen_ts)] + rest));
                        }
                    },
                    Result::Err(e) => {},
                }
            }
            i += 1;
        }
        proof {
            assert(rowsm.subrange(i as int, rowsm.len() as int) =~= Seq::<
                (Seq<u8>, Seq<u8>),
            >::empty());
            assert(txs_view(out@) + Seq::<(Seq<u8>, i64)>::empty() =~= txs_view(out@));
        }
        Ok(out)
    }
}

/// An entry of the seen rows that is not yet executed is carried by a
/// successful unconsumed scan.
proof fn lemma_unconsumed_scan_member(
    db: KvModel,
    rows: KvModel,
    k: Seq<u8>,
    v: Seq<u8>,
    id: Seq<u8>,
    rec: SeenRecord,
)
    requires
        rows.contains((k, v)),
        seen_dec(v) == Option::Some(rec),
        !rec.executed,
        k == seen_key_spec(id),
    ensures
        match unconsumed_scan(db, rows) {
            Result::Ok(list) => list.contains((id, rec.first_seen_ts)),
            Result::Err(_) => true,
        },
    decreases rows.len(),
{
    if rows.len() == 0 {
    } else if rows[0] == (k, v) {
        assert(k.subrange(2, k.len() as int) =~= id);
        match unconsumed_scan(db, rows.drop_first()) {
            Result::Ok(rest) => {
                let entry = (id, rec.first_seen_ts);
                assert((seq![entry] + rest)[0] == entry);
            },
            Result::Err(_) => {},
        }
    } else {
        let w = choose|i: int| 0 <= i < rows.len() && rows[i] == (k, v);
        assert(rows.drop_first()[w - 1] == (k, v));
        assert(rows.drop_first().contains((k, v)));
        lemma_unconsumed_scan_member(db, rows.drop_first(), k, v, id, rec);
        match unconsumed_row(db, rows[0].0, rows[0].1) {
            Result::Ok(opt) => {
                match unconsumed_scan(db, rows.drop_first()) {
                    Result::Ok(rest) => {
                        let entry = (id, rec.first_seen_ts);
                        let j = choose|j: int| 0 <= j < rest.len() && rest[j] == entry;
                        match opt {
                            Option::Some(p) => {
                                assert((seq![p] + rest)[1 + j] == entry);
                            },
                            Option::None => {},
                        }
                    },
                    Result::Err(_) => {},
                }
            },
            Result::Err(_) => {},
        }
    }
}

/// Restart coverage: a transaction recorded but never executed — as a crash
/// between its first delivery and the client's verdict leaves it — is listed
/// by every successful unconsumed scan, so the next startup re-delivers it.
pub proof fn lemma_unconsumed_lists_unexecuted(db: KvModel, id: Seq<u8>, rec: SeenRecord)
    requires
        seen_rec_of(db, id) == Option::Some(rec),
        !rec.executed,
    ensures
        match ledger_unconsumed(db) {
            Result::Ok(list) => list.contains((id, rec.first_seen_ts)),
            Result::Err(_) => true,
        },
{
    let k = seen_key_spec(id);
    let v = kv_find(db, k)->Some_0;
    assert(k.subrange(0, 2) =~= seen_prefix_spec());
    crate::kv::lemma_filter_prefix_member(db, seen_prefix_spec(), k, v);
    lemma_unconsumed_scan_member(db, kv_filter_prefix(db, seen_prefix_spec()), k, v, id, rec);
}

/// A batch of one operation is that operation.
pub proof fn lemma_apply_single(db: KvModel, op: crate::kv::KvOp)
    ensures
        kv_apply_ops(db, seq![op]) == kv_apply_one(db, op),
{
    assert(seq![op][0] == op);
    assert(seq![op].drop_first() =~= Seq::<crate::kv::KvOp>::empty());
    assert(kv_apply_ops(kv_apply_one(db, op), Seq::<crate::kv::KvOp>::empty()) == kv_apply_one(
        db,
        op,
    ));
}

} // verus!
