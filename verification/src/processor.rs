//! The central state machine: it consumes indexer events, drives the
//! ledger, and produces the client-visible events.
//!
//! Every handler is a function from the current ledger state and one event
//! to the next state and the outputs; the channel plumbing around it lives
//! with the embedding application. The `*_step` spec functions state each
//! transition in full, and the handlers are proved to implement them.

use vstd::prelude::*;

use crate::codec::{delta_dec, delta_enc, seen_dec, seen_enc};
use crate::kv::{kv_find, kv_put, kv_wf, KvModel};
use crate::ledger::{
    delta_key_spec, delta_rec_of, ledger_balance, ledger_scan, seen_key_spec, seen_rec_of, Ledger,
    LedgerError, SeenState,
};
use crate::txid::{parse_tx_id, tx_id_of};
use crate::types::{
    AddressType, BalanceType, DeltaRecordV, DeltaStatus, SeenRecord, TokenType, TransactionDelta,
    TransactionDeltaV, TxIdType,
};

verus! {

/// An event consumed by the processor.
pub enum IndexerEvent {
    /// A raw transaction frame from the node push feed, with its sequence
    /// number.
    NewTxComing(Vec<u8>, u32),
    /// A balance request from the embedder.
    GetBalance(AddressType, TokenType),
    /// The application's verdict on a transaction.
    UpdateDelta(TransactionDelta),
    /// A block included the transaction.
    TxConfirmed(TxIdType),
    /// A transaction re-delivered by the mempool reconciler.
    TxFromRestoreByTxId(TxIdType),
    /// The transaction left the mempool without confirmation.
    TxRemoved(TxIdType),
    /// The embedder's current consumer height; advisory.
    ReportHeight(u32),
    /// Previously confirmed transactions reorganized out, to be reversed.
    ReportReorg(Vec<TxIdType>),
}

/// An event emitted to the embedding application.
pub enum ClientEvent {
    /// A transaction to execute: its id and its raw consensus bytes.
    Transaction(TxIdType, Vec<u8>),
    /// The transaction was dropped or reversed.
    TxDroped(TxIdType),
    /// The transaction was confirmed.
    TxConfirmed(TxIdType),
    /// The core asks the embedder for its current height.
    GetHeight,
}

/// The model of a client event.
pub enum ClientEventV {
    Transaction { tx_id: Seq<u8>, raw: Seq<u8> },
    TxDroped { tx_id: Seq<u8> },
    TxConfirmed { tx_id: Seq<u8> },
    GetHeight,
}

impl View for ClientEvent {
    type V = ClientEventV;

    open spec fn view(&self) -> ClientEventV {
        match self {
            ClientEvent::Transaction(id, raw) => ClientEventV::Transaction {
                tx_id: id@,
                raw: raw@,
            },
            ClientEvent::TxDroped(id) => ClientEventV::TxDroped { tx_id: id@ },
            ClientEvent::TxConfirmed(id) => ClientEventV::TxConfirmed { tx_id: id@ },
            ClientEvent::GetHeight => ClientEventV::GetHeight,
        }
    }
}

/// The model of an emitted event list.
pub open spec fn events_view(v: Seq<ClientEvent>) -> Seq<ClientEventV> {
    Seq::new(v.len(), |i: int| v[i]@)
}

/// The model of a transaction id list.
pub open spec fn ids_view(v: Seq<Vec<u8>>) -> Seq<Seq<u8>> {
    Seq::new(v.len(), |i: int| v[i]@)
}

/// The model of an indexer event.
pub enum IndexerEventV {
    NewTxComing { raw: Seq<u8>, sequence: u32 },
    GetBalance { address: Seq<u8>, token: Seq<u8> },
    UpdateDelta { delta: TransactionDeltaV },
    TxConfirmed { tx_id: Seq<u8> },
    TxFromRestoreByTxId { tx_id: Seq<u8> },
    TxRemoved { tx_id: Seq<u8> },
    ReportHeight { height: u32 },
    ReportReorg { tx_ids: Seq<Seq<u8>> },
}

impl View for IndexerEvent {
    type V = IndexerEventV;

    open spec fn view(&self) -> IndexerEventV {
        match self {
            IndexerEvent::NewTxComing(raw, sequence) => IndexerEventV::NewTxComing {
                raw: raw@,
                sequence: *sequence,
            },
            IndexerEvent::GetBalance(address, token) => IndexerEventV::GetBalance {
                address: address@,
                token: token@,
            },
            IndexerEvent::UpdateDelta(delta) => IndexerEventV::UpdateDelta { delta: delta@ },
            IndexerEvent::TxConfirmed(id) => IndexerEventV::TxConfirmed { tx_id: id@ },
            IndexerEvent::TxFromRestoreByTxId(id) => IndexerEventV::TxFromRestoreByTxId {
                tx_id: id@,
            },
            IndexerEvent::TxRemoved(id) => IndexerEventV::TxRemoved { tx_id: id@ },
            IndexerEvent::ReportHeight(height) => IndexerEventV::ReportHeight { height: *height },
            IndexerEvent::ReportReorg(ids) => IndexerEventV::ReportReorg { tx_ids: ids_view(ids@) },
        }
    }
}

/// What one processed event amounts to: the next store state, the emitted
/// client events, a balance reply, a raw-transaction fetch the reconciler
/// asks the embedder to perform, or an error.
pub struct StepResult {
    pub db: KvModel,
    pub events: Seq<ClientEventV>,
    pub balance: Option<int>,
    pub fetch: Option<Seq<u8>>,
    pub err: Option<LedgerError>,
}

/// A step that changes nothing and reports nothing.
pub open spec fn quiet_step(db: KvModel) -> StepResult {
    StepResult {
        db,
        events: Seq::empty(),
        balance: Option::None,
        fetch: Option::None,
        err: Option::None,
    }
}

/// The transition of one raw transaction delivery.
///
/// A frame that does not decode is skipped. A fresh transaction is recorded,
/// emitted to the client once, and marked executed. A transaction seen
/// before is dropped, except that the restore path re-emits one that was
/// never executed: the client sees every transaction at least once across
/// restarts and at most once per run.
pub open spec fn new_tx_step(db: KvModel, b: Seq<u8>, from_restore: bool, now_ts: i64) -> StepResult {
    match tx_id_of(b) {
        Option::None => quiet_step(db),
        Option::Some(id) => match seen_rec_of(db, id) {
            Option::Some(rec) => {
                if from_restore && !rec.executed {
                    StepResult {
                        db: kv_put(
                            db,
                            seen_key_spec(id),
                            seen_enc(
                                SeenRecord { first_seen_ts: rec.first_seen_ts, executed: true },
                            ),
                        ),
                        events: seq![ClientEventV::Transaction { tx_id: id, raw: b }],
                        balance: Option::None,
                        fetch: Option::None,
                        err: Option::None,
                    }
                } else {
                    quiet_step(db)
                }
            },
            Option::None => {
                if kv_find(db, seen_key_spec(id)) is Some {
                    StepResult {
                        db,
                        events: Seq::empty(),
                        balance: Option::None,
                        fetch: Option::None,
                        err: Option::Some(LedgerError::Corrupted),
                    }
                } else {
                    StepResult {
                        db: kv_put(
                            kv_put(
                                db,
                                seen_key_spec(id),
                                seen_enc(SeenRecord { first_seen_ts: now_ts, executed: false }),
                            ),
                            seen_key_spec(id),
                            seen_enc(SeenRecord { first_seen_ts: now_ts, executed: true }),
                        ),
                        events: seq![ClientEventV::Transaction { tx_id: id, raw: b }],
                        balance: Option::None,
                        fetch: Option::None,
                        err: Option::None,
                    }
                }
            },
        },
    }
}

/// The store after a delta record moves to a terminal status: a record
/// that still counts in balances — `Active`, or `Confirmed` under a reorg
/// reversal — moves; an `InActive` record is final and stays.
pub open spec fn remove_step(db: KvModel, id: Seq<u8>, st: DeltaStatus) -> KvModel {
    match delta_rec_of(db, id) {
        Option::Some(rec) => {
            if rec.status.moves_to(st) {
                kv_put(
                    db,
                    delta_key_spec(id),
                    delta_enc(DeltaRecordV { status: st, deltas: rec.deltas }),
                )
            } else {
                db
            }
        },
        Option::None => db,
    }
}

/// The error a terminal-status move reports: corruption of the stored row.
pub open spec fn remove_err(db: KvModel, id: Seq<u8>) -> Option<LedgerError> {
    match kv_find(db, delta_key_spec(id)) {
        Option::Some(v) => {
            if delta_dec(v) is None {
                Option::Some(LedgerError::Corrupted)
            } else {
                Option::None
            }
        },
        Option::None => Option::None,
    }
}

/// The store after a whole reorg batch, one removal at a time; a corrupt
/// row is skipped, never aborting the batch.
pub open spec fn reorg_db(db: KvModel, ids: Seq<Seq<u8>>) -> KvModel
    decreases ids.len(),
{
    if ids.len() == 0 {
        db
    } else {
        reorg_db(remove_step(db, ids[0], DeltaStatus::InActive), ids.drop_first())
    }
}

/// The drop notifications of a reorg batch: one per entry whose removal did
/// not fail.
pub open spec fn reorg_events(db: KvModel, ids: Seq<Seq<u8>>) -> Seq<ClientEventV>
    decreases ids.len(),
{
    if ids.len() == 0 {
        Seq::empty()
    } else {
        (if remove_err(db, ids[0]) is None {
            seq![ClientEventV::TxDroped { tx_id: ids[0] }]
        } else {
            Seq::empty()
        }) + reorg_events(remove_step(db, ids[0], DeltaStatus::InActive), ids.drop_first())
    }
}

/// The processor over the ledger.
pub struct IndexerProcessorImpl {
    storage: Ledger,
}

impl View for IndexerProcessorImpl {
    type V = KvModel;

    closed spec fn view(&self) -> KvModel {
        self.storage@
    }
}

impl IndexerProcessorImpl {
    /// The processor invariant: the ledger's.
    pub open spec fn inv(&self) -> bool {
        kv_wf(self@)
    }

    /// Builds a processor over a ledger.
    pub fn new(storage: Ledger) -> (r: Self)
        requires
            storage.inv(),
        ensures
            r@ == storage@,
            r.inv(),
    {
        IndexerProcessorImpl { storage }
    }

    /// Handles one raw transaction delivery; `from_restore` marks the
    /// reconciler's re-delivery path.
    pub fn do_handle_new_tx_coming(
        &mut self,
        data: &Vec<u8>,
        from_restore: bool,
        now_ts: i64,
    ) -> (r: Result<Vec<ClientEvent>, LedgerError>)
        requires
            old(self).inv(),
        ensures
            final(self).inv(),
            match r {
                Result::Ok(out) => {
                    let step = new_tx_step(old(self)@, data@, from_restore, now_ts);
                    step.err is None && final(self)@ == step.db && events_view(out@) == step.events
                },
                Result::Err(e) => {
                    let step = new_tx_step(old(self)@, data@, from_restore, now_ts);
                    step.err == Option::Some(e) && final(self)@ == step.db
                },
            },
    {
        let ghost step = new_tx_step(old(self)@, data@, from_restore, now_ts);
        let mut out: Vec<ClientEvent> = Vec::new();
        let tx_id = match parse_tx_id(data) {
            Some(id) => id,
            None => {
                proof {
                    assert(events_view(out@) =~= step.events);
                }
                return Ok(out);
            },
        };
        let seen = match self.storage.seen_and_store_txs(&tx_id, now_ts) {
            Ok(s) => s,
            Err(e) => {
                return Err(e);
            },
        };
        match seen {
            SeenState::Seen { executed } => {
                if !from_restore || executed {
                    proof {
                        assert(events_view(out@) =~= step.events);
                    }
                    return Ok(out);
                }
            },
            SeenState::Fresh => {},
        }
        let raw = crate::types::clone_bytes(data);
        let id_copy = crate::types::clone_bytes(&tx_id);
        out.push(ClientEvent::Transaction(id_copy, raw));
        proof {
            let id = tx_id@;
            let k = seen_key_spec(id);
            match seen_rec_of(old(self)@, id) {
                Option::Some(rec) => {
                    crate::codec::lemma_seen_roundtrip(rec);
                },
                Option::None => {
                    let rec = SeenRecord { first_seen_ts: now_ts, executed: false };
                    crate::kv::lemma_find_put(old(self)@, k, seen_enc(rec), k);
                    crate::codec::lemma_seen_roundtrip(rec);
                },
            }
        }
        match self.storage.mark_executed(&tx_id) {
            Ok(()) => {},
            Err(e) => {
                // the seen record was written or read back just above, so
                // marking it executed cannot fail
                proof {
                    assert(false);
                }
                return Err(e);
            },
        }
        proof {
            assert(events_view(out@) =~= step.events);
        }
        Ok(out)
    }

    /// Records the application's verdict on a transaction.
    pub fn do_handle_update_delta(&mut self, data: &TransactionDelta) -> (r: Result<
        (),
        LedgerError,
    >)
        requires
            old(self).inv(),
        ensures
            final(self).inv(),
            r == update_delta_result(old(self)@, data@),
            final(self)@ == update_delta_db(old(self)@, data@),
    {
        self.storage.add_transaction_delta(data)
    }

    /// Moves a transaction's delta to `Confirmed`.
    pub fn do_handle_tx_confirmed(&mut self, tx_id: &TxIdType, status: DeltaStatus) -> (r: Result<
        (),
        LedgerError,
    >)
        requires
            old(self).inv(),
            status.is_terminal(),
        ensures
            final(self).inv(),
            final(self)@ == remove_step(old(self)@, tx_id@, status),
            r == if remove_err(old(self)@, tx_id@) is Some {
                Result::<(), LedgerError>::Err(remove_err(old(self)@, tx_id@)->Some_0)
            } else {
                Result::<(), LedgerError>::Ok(())
            },
    {
        self.storage.remove_transaction_delta(tx_id, status)
    }

    /// Moves a transaction's delta to `InActive` — reversing it whether it
    /// was still `Active` or already `Confirmed` — and notifies the client
    /// of the drop.
    pub fn do_handle_tx_removed(&mut self, tx_id: &TxIdType) -> (r: Result<
        ClientEvent,
        LedgerError,
    >)
        requires
            old(self).inv(),
        ensures
            final(self).inv(),
            final(self)@ == remove_step(old(self)@, tx_id@, DeltaStatus::InActive),
            match r {
                Result::Ok(ev) => remove_err(old(self)@, tx_id@) is None && ev@
                    == (ClientEventV::TxDroped { tx_id: tx_id@ }),
                Result::Err(e) => remove_err(old(self)@, tx_id@) == Option::Some(e),
            },
    {
        match self.do_handle_tx_confirmed(tx_id, DeltaStatus::InActive) {
            Ok(()) => Ok(ClientEvent::TxDroped(crate::types::clone_bytes(tx_id))),
            Err(e) => Err(e),
        }
    }

    /// Replies to a balance request.
    pub fn do_handle_get_balance(&self, address: &AddressType, token: &TokenType) -> (r: Result<
        BalanceType,
        LedgerError,
    >)
        ensures
            match r {
                Result::Ok(x) => ledger_scan(self@, address@, token@) == Result::<
                    int,
                    LedgerError,
                >::Ok(x as int) && x as int == ledger_balance(self@, address@, token@),
                Result::Err(e) => ledger_scan(self@, address@, token@) == Result::<
                    int,
                    LedgerError,
                >::Err(e),
            },
    {
        self.storage.get_balance(address, token)
    }

    /// Reverses a batch of reorganized-out transactions. A failure on one
    /// entry never aborts the batch: its drop notification is withheld and
    /// the rest proceed.
    pub fn do_handle_report_reorg(&mut self, txs: &Vec<TxIdType>) -> (r: Vec<ClientEvent>)
        requires
            old(self).inv(),
        ensures
            final(self).inv(),
            final(self)@ == reorg_db(old(self)@, ids_view(txs@)),
            events_view(r@) == reorg_events(old(self)@, ids_view(txs@)),
    {
        let ghost idsm = ids_view(txs@);
        let mut out: Vec<ClientEvent> = Vec::new();
        let mut i: usize = 0;
        proof {
            assert(idsm.subrange(0, idsm.len() as int) =~= idsm);
            assert(events_view(out@) + reorg_events(self@, idsm) =~= reorg_events(self@, idsm));
        }
        while i < txs.len()
            invariant
                0 <= i <= txs.len(),
                idsm == ids_view(txs@),
                idsm.len() == txs.len(),
                self.inv(),
                reorg_db(old(self)@, idsm) == reorg_db(
                    self@,
                    idsm.subrange(i as int, idsm.len() as int),
                ),
                reorg_events(old(self)@, idsm) == events_view(out@) + reorg_events(
                    self@,
                    idsm.subrange(i as int, idsm.len() as int),
                ),
            decreases txs.len() - i,
        {
            let ghost sfx = idsm.subrange(i as int, idsm.len() as int);
            let ghost pre = self@;
            proof {
                assert(sfx[0] == idsm[i as int]);
                assert(sfx.drop_first() =~= idsm.subrange(i as int + 1, idsm.len() as int));
            }
            let ghost out_before = events_view(out@);
            match self.do_handle_tx_removed(&txs[i]) {
                Ok(ev) => {
                    out.push(ev);
                    proof {
                        assert(events_view(out@) =~= out_before + seq![
                            ClientEventV::TxDroped { tx_id: idsm[i as int] },
                        ]);
                        assert((out_before + seq![ClientEventV::TxDroped { tx_id: idsm[i as int] }])
                            + reorg_events(self@, sfx.drop_first()) =~= out_before + (seq![
                            ClientEventV::TxDroped { tx_id: idsm[i as int] },
                        ] + reorg_events(self@, sfx.drop_first())));
                    }
                },
                Err(_) => {
                    proof {
                        assert(out_before + (Seq::<ClientEventV>::empty() + reorg_events(
                            self@,
                            sfx.drop_first(),
                        )) =~= out_before + reorg_events(self@, sfx.drop_first()));
                    }
                },
            }
            i += 1;
        }
        proof {
            assert(idsm.subrange(i as int, idsm.len() as int) =~= Seq::<Seq<u8>>::empty());
            assert(events_view(out@) + Seq::<ClientEventV>::empty() =~= events_view(out@));
        }
        out
    }
}

/// The full transition relation of the processor: what one event does to
/// the store, which client events it emits, and what it reports back.
pub open spec fn event_step(db: KvModel, ev: IndexerEventV, now_ts: i64) -> StepResult {
    match ev {
        IndexerEventV::NewTxComing { raw, sequence } => new_tx_step(db, raw, false, now_ts),
        IndexerEventV::GetBalance { address, token } => match ledger_scan(db, address, token) {
            Result::Ok(x) => StepResult {
                db,
                events: Seq::empty(),
                balance: Option::Some(x),
                fetch: Option::None,
                err: Option::None,
            },
            Result::Err(e) => StepResult {
                db,
                events: Seq::empty(),
                balance: Option::None,
                fetch: Option::None,
                err: Option::Some(e),
            },
        },
        IndexerEventV::UpdateDelta { delta } => StepResult {
            db: update_delta_db(db, delta),
            events: Seq::empty(),
            balance: Option::None,
            fetch: Option::None,
            err: match update_delta_result(db, delta) {
                Result::Ok(_) => Option::None,
                Result::Err(e) => Option::Some(e),
            },
        },
        IndexerEventV::TxConfirmed { tx_id } => StepResult {
            db: remove_step(db, tx_id, DeltaStatus::Confirmed),
            events: Seq::empty(),
            balance: Option::None,
            fetch: Option::None,
            err: remove_err(db, tx_id),
        },
        IndexerEventV::TxFromRestoreByTxId { tx_id } => StepResult {
            db,
            events: Seq::empty(),
            balance: Option::None,
            fetch: Option::Some(tx_id),
            err: Option::None,
        },
        IndexerEventV::TxRemoved { tx_id } => StepResult {
            db: remove_step(db, tx_id, DeltaStatus::InActive),
            events: if remove_err(db, tx_id) is None {
                seq![ClientEventV::TxDroped { tx_id }]
            } else {
                Seq::empty()
            },
            balance: Option::None,
            fetch: Option::None,
            err: remove_err(db, tx_id),
        },
        IndexerEventV::ReportHeight { height } => quiet_step(db),
        IndexerEventV::ReportReorg { tx_ids } => StepResult {
            db: reorg_db(db, tx_ids),
            events: reorg_events(db, tx_ids),
            balance: Option::None,
            fetch: Option::None,
            err: Option::None,
        },
    }
}

/// What `handle_event` hands back to the surrounding loop: the client
/// events to push, a balance reply, and a raw-transaction fetch that the
/// restore path asks the embedder to perform and re-inject.
pub struct ProcessorOutput {
    pub client_events: Vec<ClientEvent>,
    pub balance: Option<BalanceType>,
    pub fetch: Option<TxIdType>,
}

impl IndexerProcessorImpl {
    /// Consumes one indexer event, as `event_step` states. `now_ts` is the
    /// wall-clock timestamp the caller supplies for first-seen records.
    pub fn handle_event(&mut self, event: &IndexerEvent, now_ts: i64) -> (r: Result<
        ProcessorOutput,
        LedgerError,
    >)
        requires
            old(self).inv(),
        ensures
            final(self).inv(),
            match r {
                Result::Ok(out) => {
                    let step = event_step(old(self)@, event@, now_ts);
                    &&& step.err is None
                    &&& final(self)@ == step.db
                    &&& events_view(out.client_events@) == step.events
                    &&& match out.balance {
                        Option::Some(x) => step.balance == Option::Some(x as int),
                        Option::None => step.balance is None,
                    }
                    &&& match out.fetch {
                        Option::Some(id) => step.fetch == Option::Some(id@),
                        Option::None => step.fetch is None,
                    }
                },
                Result::Err(e) => {
                    let step = event_step(old(self)@, event@, now_ts);
                    step.err == Option::Some(e) && final(self)@ == step.db
                },
            },
    {
        let no_events: Vec<ClientEvent> = Vec::new();
        proof {
            assert(events_view(no_events@) =~= Seq::<ClientEventV>::empty());
        }
        match event {
            IndexerEvent::NewTxComing(data, _) => {
                match self.do_handle_new_tx_coming(data, false, now_ts) {
                    Ok(evs) => Ok(
                        ProcessorOutput { client_events: evs, balance: None, fetch: None },
                    ),
                    Err(e) => Err(e),
                }
            },
            IndexerEvent::GetBalance(address, token) => {
                match self.do_handle_get_balance(address, token) {
                    Ok(x) => Ok(
                        ProcessorOutput { client_events: no_events, balance: Some(x), fetch: None },
                    ),
                    Err(e) => Err(e),
                }
            },
            IndexerEvent::UpdateDelta(data) => {
                match self.do_handle_update_delta(data) {
                    Ok(()) => Ok(
                        ProcessorOutput { client_events: no_events, balance: None, fetch: None },
                    ),
                    Err(e) => Err(e),
                }
            },
            IndexerEvent::TxConfirmed(tx_id) => {
                match self.do_handle_tx_confirmed(tx_id, DeltaStatus::Confirmed) {
                    Ok(()) => Ok(
                        ProcessorOutput { client_events: no_events, balance: None, fetch: None },
                    ),
                    Err(e) => Err(e),
                }
            },
            IndexerEvent::TxFromRestoreByTxId(tx_id) => {
                let id = crate::types::clone_bytes(tx_id);
                Ok(ProcessorOutput { client_events: no_events, balance: None, fetch: Some(id) })
            },
            IndexerEvent::TxRemoved(tx_id) => {
                match self.do_handle_tx_removed(tx_id) {
                    Ok(ev) => {
                        let mut evs: Vec<ClientEvent> = Vec::new();
                        evs.push(ev);
                        proof {
                            assert(events_view(evs@) =~= seq![
                                ClientEventV::TxDroped { tx_id: tx_id@ },
                            ]);
                        }
                        Ok(ProcessorOutput { client_events: evs, balance: None, fetch: None })
                    },
                    Err(e) => Err(e),
                }
            },
            IndexerEvent::ReportHeight(_) => {
                Ok(ProcessorOutput { client_events: no_events, balance: None, fetch: None })
            },
            IndexerEvent::ReportReorg(ts) => {
                let evs = self.do_handle_report_reorg(ts);
                Ok(ProcessorOutput { client_events: evs, balance: None, fetch: None })
            },
        }
    }
}

impl IndexerProcessorImpl {
    /// Whether the processor consumes an event from a router's fan-out:
    /// it handles every indexer event.
    pub fn interest(&self, event: &IndexerEvent) -> (r: bool)
        ensures
            r,
    {
        true
    }

    /// The startup reconciliation step: lists the transactions the ledger
    /// still owes the client, merges them with the node's current mempool
    /// entries, and orders the union by timestamp ascending. The
    /// surrounding loop injects one `TxFromRestoreByTxId` event per entry,
    /// in this order, and raises the ready flag only afterwards.
    pub fn restore_from_mempool(&self, mempool: &Vec<(TxIdType, i64)>) -> (r: Result<
        Vec<(TxIdType, i64)>,
        LedgerError,
    >)
        ensures
            match r {
                Result::Ok(plan) => match crate::ledger::ledger_unconsumed(self@) {
                    Result::Ok(unc) => {
                        &&& crate::restore::sorted_by_ts(crate::ledger::txs_view(plan@))
                        &&& crate::ledger::txs_view(plan@).to_multiset()
                            == crate::restore::restore_merge(
                            crate::ledger::txs_view(mempool@),
                            unc,
                        ).to_multiset()
                    },
                    Result::Err(_) => false,
                },
                Result::Err(e) => crate::ledger::ledger_unconsumed(self@) == Result::<
                    Seq<(Seq<u8>, i64)>,
                    LedgerError,
                >::Err(e),
            },
    {
        let unconsumed = match self.storage.get_all_un_consumed_txs() {
            Ok(u) => u,
            Err(e) => {
                return Err(e);
            },
        };
        Ok(crate::restore::plan_restore(mempool, &unconsumed))
    }
}

/// The status a delta frame decodes to is the one its status byte carries.
pub proof fn lemma_delta_dec_status(s: Seq<u8>)
    ensures
        match delta_dec(s) {
            Option::Some(r) => crate::codec::byte_status(s[1]) == Option::Some(r.status),
            Option::None => true,
        },
{
}

/// Reversing the same transaction twice has the same effect on the store
/// as reversing it once: the first pass leaves the record `InActive`, and
/// an `InActive` record never changes again.
pub proof fn lemma_remove_step_idempotent(db: KvModel, x: Seq<u8>)
    ensures
        remove_step(remove_step(db, x, DeltaStatus::InActive), x, DeltaStatus::InActive)
            == remove_step(db, x, DeltaStatus::InActive),
{
    let db1 = remove_step(db, x, DeltaStatus::InActive);
    match delta_rec_of(db, x) {
        Option::Some(rec) => {
            if rec.status.moves_to(DeltaStatus::InActive) {
                let rec2 = DeltaRecordV { status: DeltaStatus::InActive, deltas: rec.deltas };
                let v2 = delta_enc(rec2);
                crate::kv::lemma_find_put(db, delta_key_spec(x), v2, delta_key_spec(x));
                assert(kv_find(db1, delta_key_spec(x)) == Option::Some(v2));
                lemma_delta_dec_status(v2);
                assert(v2[1] == crate::codec::status_byte(DeltaStatus::InActive));
            }
        },
        Option::None => {},
    }
}

/// Reorg idempotence: reporting the same transaction three times in one
/// reorg batch leaves the store exactly as reporting it once does.
pub proof fn lemma_reorg_idempotent(db: KvModel, x: Seq<u8>)
    ensures
        reorg_db(db, seq![x, x, x]) == reorg_db(db, seq![x]),
{
    let db1 = remove_step(db, x, DeltaStatus::InActive);
    lemma_remove_step_idempotent(db, x);
    lemma_remove_step_idempotent(db1, x);
    let s3 = seq![x, x, x];
    let s1 = seq![x];
    assert(s3[0] == x && s1[0] == x);
    assert(s3.drop_first() =~= seq![x, x]);
    assert(seq![x, x][0] == x);
    assert(seq![x, x].drop_first() =~= seq![x]);
    assert(s1.drop_first() =~= Seq::<Seq<u8>>::empty());
    assert(reorg_db(db1, Seq::<Seq<u8>>::empty()) == db1);
    assert(reorg_db(db, s1) == db1);
    assert(reorg_db(db, s3) == reorg_db(db1, seq![x, x]));
    assert(reorg_db(db1, seq![x, x]) == reorg_db(remove_step(db1, x, DeltaStatus::InActive), s1));
    assert(remove_step(db1, x, DeltaStatus::InActive) == db1);
    assert(reorg_db(db1, s1) == remove_step(db1, x, DeltaStatus::InActive));
}

/// At-most-once delivery within one run: a delivery of raw bytes that
/// emitted the transaction to the client marks it executed, so a second
/// delivery of the same bytes — from the feed or from restore — emits
/// nothing and changes nothing.
pub proof fn lemma_duplicate_delivery(
    db: KvModel,
    b: Seq<u8>,
    from_restore: bool,
    later_restore: bool,
    now1: i64,
    now2: i64,
)
    requires
        new_tx_step(db, b, from_restore, now1).events.len() > 0,
    ensures
        new_tx_step(db, b, from_restore, now1).events.len() == 1,
        new_tx_step(new_tx_step(db, b, from_restore, now1).db, b, later_restore, now2).events
            == Seq::<ClientEventV>::empty(),
        new_tx_step(new_tx_step(db, b, from_restore, now1).db, b, later_restore, now2).db
            == new_tx_step(db, b, from_restore, now1).db,
{
    let step1 = new_tx_step(db, b, from_restore, now1);
    let id = tx_id_of(b)->Some_0;
    let k = seen_key_spec(id);
    match seen_rec_of(db, id) {
        Option::Some(rec) => {
            let rec2 = SeenRecord { first_seen_ts: rec.first_seen_ts, executed: true };
            crate::kv::lemma_find_put(db, k, seen_enc(rec2), k);
            crate::codec::lemma_seen_roundtrip(rec2);
            assert(seen_rec_of(step1.db, id) == Option::Some(rec2));
        },
        Option::None => {
            let rec0 = SeenRecord { first_seen_ts: now1, executed: false };
            let rec2 = SeenRecord { first_seen_ts: now1, executed: true };
            let db1 = kv_put(db, k, seen_enc(rec0));
            crate::kv::lemma_find_put(db1, k, seen_enc(rec2), k);
            crate::codec::lemma_seen_roundtrip(rec2);
            assert(seen_rec_of(step1.db, id) == Option::Some(rec2));
        },
    }
}

/// At-least-once delivery: the first delivery of a decodable transaction
/// that was never recorded emits it to the client exactly once.
pub proof fn lemma_fresh_emits_once(db: KvModel, b: Seq<u8>, from_restore: bool, now: i64)
    requires
        tx_id_of(b) is Some,
        kv_find(db, seen_key_spec(tx_id_of(b)->Some_0)) is None,
    ensures
        new_tx_step(db, b, from_restore, now).events == seq![
            ClientEventV::Transaction { tx_id: tx_id_of(b)->Some_0, raw: b },
        ],
        new_tx_step(db, b, from_restore, now).err is None,
{
}

/// Restart round-trip: a transaction recorded before a crash but never
/// executed is carried by the restore plan — whether or not the node
/// mempool still lists it — and handling its re-delivered bytes emits the
/// transaction to the client exactly once; a further delivery emits
/// nothing.
pub proof fn lemma_restart_redelivers(
    db: KvModel,
    b: Seq<u8>,
    id: Seq<u8>,
    now: i64,
    mem: Seq<(Seq<u8>, i64)>,
    unc: Seq<(Seq<u8>, i64)>,
    entry: (Seq<u8>, i64),
)
    requires
        tx_id_of(b) == Option::Some(id),
        seen_rec_of(db, id) is Some,
        !(seen_rec_of(db, id)->Some_0.executed),
        unc.contains(entry),
        entry.0 == id,
    ensures
        crate::restore::contains_id(crate::restore::restore_merge(mem, unc), id),
        new_tx_step(db, b, true, now).events == seq![
            ClientEventV::Transaction { tx_id: id, raw: b },
        ],
        new_tx_step(new_tx_step(db, b, true, now).db, b, true, now).events == Seq::<
            ClientEventV,
        >::empty(),
{
    if crate::restore::contains_id(mem, id) {
        let i = choose|i: int| 0 <= i < mem.len() && (#[trigger] mem[i]).0 == id;
        assert(crate::restore::restore_merge(mem, unc)[i].0 == id);
    } else {
        lemma_missing_keeps(mem, unc, entry);
        let i = choose|i: int|
            0 <= i < crate::restore::missing_of(mem, unc).len() && (#[trigger] crate::restore::missing_of(
                mem,
                unc,
            )[i]).0 == id;
        assert(crate::restore::restore_merge(mem, unc)[mem.len() + i].0 == id);
    }
    lemma_duplicate_delivery(db, b, true, true, now, now);
    assert(new_tx_step(db, b, true, now).events =~= seq![
        ClientEventV::Transaction { tx_id: id, raw: b },
    ]);
}

/// An unconsumed entry whose id the mempool does not carry stays in the
/// ledger-only remainder of the restore union.
pub proof fn lemma_missing_keeps(
    mem: Seq<(Seq<u8>, i64)>,
    unc: Seq<(Seq<u8>, i64)>,
    entry: (Seq<u8>, i64),
)
    requires
        unc.contains(entry),
        !crate::restore::contains_id(mem, entry.0),
    ensures
        crate::restore::contains_id(crate::restore::missing_of(mem, unc), entry.0),
    decreases unc.len(),
{
    let m = crate::restore::missing_of(mem, unc);
    if unc[0] == entry {
        assert(!crate::restore::contains_id(mem, unc[0].0));
        assert(m[0] == entry);
    } else {
        let w = choose|i: int| 0 <= i < unc.len() && unc[i] == entry;
        assert(unc.drop_first()[w - 1] == entry);
        assert(unc.drop_first().contains(entry));
        lemma_missing_keeps(mem, unc.drop_first(), entry);
        let head = if crate::restore::contains_id(mem, unc[0].0) {
            Seq::<(Seq<u8>, i64)>::empty()
        } else {
            seq![unc[0]]
        };
        let j = choose|j: int|
            0 <= j < crate::restore::missing_of(mem, unc.drop_first()).len()
                && (#[trigger] crate::restore::missing_of(mem, unc.drop_first())[j]).0 == entry.0;
        assert(m[head.len() + j].0 == entry.0);
    }
}

/// What recording a delta does to the store.
pub open spec fn update_delta_db(db: KvModel, d: TransactionDeltaV) -> KvModel {
    if d.deltas.len() == 0 {
        db
    } else {
        match kv_find(db, delta_key_spec(d.tx_id)) {
            Option::Some(_) => db,
            Option::None => kv_put(
                db,
                delta_key_spec(d.tx_id),
                delta_enc(DeltaRecordV { status: DeltaStatus::Active, deltas: d.deltas }),
            ),
        }
    }
}

/// What recording a delta reports: corruption of an existing row, else
/// success.
pub open spec fn update_delta_result(db: KvModel, d: TransactionDeltaV) -> Result<
    (),
    LedgerError,
> {
    if d.deltas.len() == 0 {
        Result::Ok(())
    } else {
        match kv_find(db, delta_key_spec(d.tx_id)) {
            Option::Some(v) => {
                if delta_dec(v) is None {
                    Result::Err(LedgerError::Corrupted)
                } else {
                    Result::Ok(())
                }
            },
            Option::None => Result::Ok(()),
        }
    }
}

} // verus!
