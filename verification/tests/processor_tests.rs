use bitcoincore_rpc::bitcoin::absolute::LockTime;
use bitcoincore_rpc::bitcoin::consensus::serialize;
use bitcoincore_rpc::bitcoin::transaction::Version;
use bitcoincore_rpc::bitcoin::{Amount, OutPoint, ScriptBuf, Sequence, Transaction, TxIn, TxOut, Witness};

use indexer_sdk::kv::MemoryDB;
use indexer_sdk::ledger::Ledger;
use indexer_sdk::processor::{ClientEvent, IndexerEvent, IndexerProcessorImpl};
use indexer_sdk::restore::plan_restore;
use indexer_sdk::types::TransactionDelta;

/// A 1-in/1-out transaction whose output value makes it unique, together
/// with its consensus bytes and its id bytes.
fn mk_tx(seed: u64) -> (Vec<u8>, Vec<u8>) {
    let tx = Transaction {
        version: Version::TWO,
        lock_time: LockTime::ZERO,
        input: vec![TxIn {
            previous_output: OutPoint::null(),
            script_sig: ScriptBuf::new(),
            sequence: Sequence::MAX,
            witness: Witness::new(),
        }],
        output: vec![TxOut {
            value: Amount::from_sat(1000 + seed),
            script_pubkey: ScriptBuf::new(),
        }],
    };
    let raw = serialize(&tx);
    let txid = tx.compute_txid();
    let arr: &[u8] = txid.as_ref();
    (raw, arr.to_vec())
}

fn new_processor() -> IndexerProcessorImpl {
    IndexerProcessorImpl::new(Ledger::new(MemoryDB::new()))
}

fn delta(tx_id: &[u8], addr: &[u8], tok: &[u8], amount: i128) -> TransactionDelta {
    TransactionDelta {
        tx_id: tx_id.to_vec(),
        deltas: vec![(addr.to_vec(), vec![(tok.to_vec(), amount)])],
    }
}

fn balance(p: &IndexerProcessorImpl, addr: &[u8], tok: &[u8]) -> i128 {
    p.do_handle_get_balance(&addr.to_vec(), &tok.to_vec()).unwrap()
}

#[test]
fn fresh_tx_happy_path() {
    let (raw, t1) = mk_tx(1);
    let mut p = new_processor();

    let out = p.handle_event(&IndexerEvent::NewTxComing(raw.clone(), 0), 100).unwrap();
    assert_eq!(out.client_events.len(), 1);
    match &out.client_events[0] {
        ClientEvent::Transaction(id, bytes) => {
            assert_eq!(id, &t1);
            assert_eq!(bytes, &raw);
        }
        other => panic!("unexpected event {:?}", std::mem::discriminant(other)),
    }

    p.handle_event(&IndexerEvent::UpdateDelta(delta(&t1, b"A", b"Tok", 100)), 101).unwrap();
    p.handle_event(&IndexerEvent::TxConfirmed(t1.clone()), 102).unwrap();
    assert_eq!(balance(&p, b"A", b"Tok"), 100);
    // a confirmed record can still be reversed by a removal
    let out2 = p.handle_event(&IndexerEvent::TxRemoved(t1.clone()), 103).unwrap();
    assert_eq!(out2.client_events.len(), 1);
    assert_eq!(balance(&p, b"A", b"Tok"), 0);
}

#[test]
fn duplicate_rawtx_is_emitted_once() {
    let (raw, _t1) = mk_tx(2);
    let mut p = new_processor();
    let out1 = p.handle_event(&IndexerEvent::NewTxComing(raw.clone(), 0), 100).unwrap();
    let out2 = p.handle_event(&IndexerEvent::NewTxComing(raw.clone(), 1), 101).unwrap();
    assert_eq!(out1.client_events.len(), 1);
    assert_eq!(out2.client_events.len(), 0);
}

#[test]
fn malformed_frame_is_skipped() {
    let mut p = new_processor();
    let out = p.handle_event(&IndexerEvent::NewTxComing(vec![1, 2, 3], 0), 100).unwrap();
    assert_eq!(out.client_events.len(), 0);
}

#[test]
fn drop_before_delta() {
    let (raw, t2) = mk_tx(3);
    let mut p = new_processor();
    let out1 = p.handle_event(&IndexerEvent::NewTxComing(raw, 0), 100).unwrap();
    assert_eq!(out1.client_events.len(), 1);
    let out2 = p.handle_event(&IndexerEvent::TxRemoved(t2.clone()), 101).unwrap();
    assert_eq!(out2.client_events.len(), 1);
    match &out2.client_events[0] {
        ClientEvent::TxDroped(id) => assert_eq!(id, &t2),
        other => panic!("unexpected event {:?}", std::mem::discriminant(other)),
    }
    assert_eq!(balance(&p, b"A", b"Tok"), 0);
}

#[test]
fn drop_after_delta() {
    let (raw, t3) = mk_tx(4);
    let mut p = new_processor();
    p.handle_event(&IndexerEvent::NewTxComing(raw, 0), 100).unwrap();
    p.handle_event(&IndexerEvent::UpdateDelta(delta(&t3, b"A", b"Tok", 50)), 101).unwrap();
    assert_eq!(balance(&p, b"A", b"Tok"), 50);
    p.handle_event(&IndexerEvent::TxRemoved(t3), 102).unwrap();
    assert_eq!(balance(&p, b"A", b"Tok"), 0);
}

#[test]
fn reorg_batch_reverses_confirmed() {
    let (raw4, t4) = mk_tx(5);
    let (raw5, t5) = mk_tx(6);
    let mut p = new_processor();
    p.handle_event(&IndexerEvent::NewTxComing(raw4, 0), 100).unwrap();
    p.handle_event(&IndexerEvent::NewTxComing(raw5, 1), 101).unwrap();
    p.handle_event(&IndexerEvent::UpdateDelta(delta(&t4, b"A", b"Tok", 30)), 102).unwrap();
    p.handle_event(&IndexerEvent::UpdateDelta(delta(&t5, b"A", b"Tok", 12)), 103).unwrap();
    p.handle_event(&IndexerEvent::TxConfirmed(t4.clone()), 104).unwrap();
    p.handle_event(&IndexerEvent::TxConfirmed(t5.clone()), 105).unwrap();
    assert_eq!(balance(&p, b"A", b"Tok"), 42);

    // the reorg flips both records from Confirmed to InActive, subtracts
    // their amounts, and notifies the client of each dropped transaction
    let out = p
        .handle_event(&IndexerEvent::ReportReorg(vec![t4.clone(), t5.clone()]), 106)
        .unwrap();
    assert_eq!(out.client_events.len(), 2);
    for (ev, want) in out.client_events.iter().zip([&t4, &t5]) {
        match ev {
            ClientEvent::TxDroped(id) => assert_eq!(id, want),
            other => panic!("unexpected event {:?}", std::mem::discriminant(other)),
        }
    }
    assert_eq!(balance(&p, b"A", b"Tok"), 0);
    // a second reorg of the same ids changes nothing further
    let again = p
        .handle_event(&IndexerEvent::ReportReorg(vec![t4.clone(), t5.clone()]), 107)
        .unwrap();
    assert_eq!(again.client_events.len(), 2);
    assert_eq!(balance(&p, b"A", b"Tok"), 0);
}

#[test]
fn reorg_of_active_records_subtracts() {
    let (raw4, t4) = mk_tx(7);
    let (raw5, t5) = mk_tx(8);
    let mut p = new_processor();
    p.handle_event(&IndexerEvent::NewTxComing(raw4, 0), 100).unwrap();
    p.handle_event(&IndexerEvent::NewTxComing(raw5, 1), 101).unwrap();
    p.handle_event(&IndexerEvent::UpdateDelta(delta(&t4, b"A", b"Tok", 30)), 102).unwrap();
    p.handle_event(&IndexerEvent::UpdateDelta(delta(&t5, b"A", b"Tok", 12)), 103).unwrap();
    let out = p
        .handle_event(&IndexerEvent::ReportReorg(vec![t4.clone(), t5.clone()]), 104)
        .unwrap();
    assert_eq!(out.client_events.len(), 2);
    assert_eq!(balance(&p, b"A", b"Tok"), 0);
}

#[test]
fn reorg_repeating_one_id_equals_single_removal() {
    let (raw, t) = mk_tx(9);
    let mut p = new_processor();
    p.handle_event(&IndexerEvent::NewTxComing(raw.clone(), 0), 100).unwrap();
    p.handle_event(&IndexerEvent::UpdateDelta(delta(&t, b"A", b"Tok", 9)), 101).unwrap();
    p.handle_event(&IndexerEvent::ReportReorg(vec![t.clone(), t.clone(), t.clone()]), 102)
        .unwrap();

    let mut q = new_processor();
    q.handle_event(&IndexerEvent::NewTxComing(raw, 0), 100).unwrap();
    q.handle_event(&IndexerEvent::UpdateDelta(delta(&t, b"A", b"Tok", 9)), 101).unwrap();
    q.handle_event(&IndexerEvent::ReportReorg(vec![t.clone()]), 102).unwrap();

    assert_eq!(balance(&p, b"A", b"Tok"), balance(&q, b"A", b"Tok"));
    assert_eq!(balance(&p, b"A", b"Tok"), 0);
    // repeating the id cannot resurrect or double-reverse anything later
    p.handle_event(&IndexerEvent::TxConfirmed(t.clone()), 103).unwrap();
    q.handle_event(&IndexerEvent::TxConfirmed(t), 103).unwrap();
    assert_eq!(balance(&p, b"A", b"Tok"), balance(&q, b"A", b"Tok"));
}

#[test]
fn plan_restore_orders_by_timestamp() {
    let mem = vec![(vec![1u8; 32], 300i64), (vec![2u8; 32], 100i64)];
    let unc = vec![(vec![3u8; 32], 200i64), (vec![2u8; 32], 50i64)];
    let plan = plan_restore(&mem, &unc);
    // id 2 is already in the mempool, so its ledger entry is not repeated
    assert_eq!(
        plan,
        vec![(vec![2u8; 32], 100i64), (vec![3u8; 32], 200i64), (vec![1u8; 32], 300i64)]
    );
}

#[test]
fn restart_with_mempool_divergence() {
    let (raw6, t6) = mk_tx(10);
    let (raw7, t7) = mk_tx(11);

    // before the crash: T6 was recorded but never handed to the client
    let mut ledger = Ledger::new(MemoryDB::new());
    ledger.seen_and_store_txs(&t6, 100).unwrap();

    // after the restart: the node mempool holds T6 and T7
    let p = IndexerProcessorImpl::new(ledger);
    let mempool = vec![(t6.clone(), 100i64), (t7.clone(), 200i64)];
    let plan = p.restore_from_mempool(&mempool).unwrap();
    assert_eq!(plan, vec![(t6.clone(), 100), (t7.clone(), 200)]);

    // the restore loop fetches each raw transaction and re-injects it
    let mut p = p;
    let out6 = p.do_handle_new_tx_coming(&raw6, true, 300).unwrap();
    let out7 = p.do_handle_new_tx_coming(&raw7, true, 301).unwrap();
    assert_eq!(out6.len(), 1);
    assert_eq!(out7.len(), 1);
    match (&out6[0], &out7[0]) {
        (ClientEvent::Transaction(a, _), ClientEvent::Transaction(b, _)) => {
            assert_eq!(a, &t6);
            assert_eq!(b, &t7);
        }
        _ => panic!("expected two transaction events"),
    }
    // a second restore pass re-delivers nothing
    let again = p.do_handle_new_tx_coming(&raw6, true, 302).unwrap();
    assert_eq!(again.len(), 0);
}

#[test]
fn restore_fetch_is_requested_for_restore_events() {
    let (_, t) = mk_tx(12);
    let mut p = new_processor();
    let out = p.handle_event(&IndexerEvent::TxFromRestoreByTxId(t.clone()), 100).unwrap();
    assert_eq!(out.client_events.len(), 0);
    assert_eq!(out.fetch, Some(t));
}

#[test]
fn get_balance_event_replies() {
    let (raw, t) = mk_tx(13);
    let mut p = new_processor();
    p.handle_event(&IndexerEvent::NewTxComing(raw, 0), 100).unwrap();
    p.handle_event(&IndexerEvent::UpdateDelta(delta(&t, b"A", b"Tok", 77)), 101).unwrap();
    let out = p
        .handle_event(&IndexerEvent::GetBalance(b"A".to_vec(), b"Tok".to_vec()), 102)
        .unwrap();
    assert_eq!(out.balance, Some(77));
    let out2 = p.handle_event(&IndexerEvent::ReportHeight(5), 103).unwrap();
    assert_eq!(out2.client_events.len(), 0);
}

#[test]
fn derived_tx_id_matches_the_node_derivation() {
    // the id the library attaches to a raw frame is the transaction hash,
    // not anything taken from the frame verbatim
    let (raw, t) = mk_tx(14);
    assert_eq!(t.len(), 32);
    assert_ne!(&raw[0..32], &t[..]);
    let mut p = new_processor();
    let out = p.handle_event(&IndexerEvent::NewTxComing(raw, 0), 100).unwrap();
    match &out.client_events[0] {
        ClientEvent::Transaction(id, _) => assert_eq!(id, &t),
        _ => panic!("expected a transaction event"),
    }
}
