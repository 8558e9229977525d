use indexer_sdk::codec::{decode_delta, decode_seen, encode_delta, encode_seen};
use indexer_sdk::kv::MemoryDB;
use indexer_sdk::ledger::{Ledger, LedgerError, SeenState};
use indexer_sdk::types::{DeltaRecord, DeltaStatus, SeenRecord, TransactionDelta};

fn id(n: u8) -> Vec<u8> {
    let mut v = vec![0u8; 32];
    v[0] = n;
    v
}

#[test]
fn memory_db_set_get_del() {
    let mut db = MemoryDB::new();
    assert_eq!(db.get(&b"k1".to_vec()), None);
    db.set(&b"k1".to_vec(), &b"v1".to_vec());
    db.set(&b"k2".to_vec(), &b"v2".to_vec());
    assert_eq!(db.get(&b"k1".to_vec()), Some(b"v1".to_vec()));
    db.set(&b"k1".to_vec(), &b"v9".to_vec());
    assert_eq!(db.get(&b"k1".to_vec()), Some(b"v9".to_vec()));
    db.del(&b"k1".to_vec());
    assert_eq!(db.get(&b"k1".to_vec()), None);
    assert_eq!(db.get(&b"k2".to_vec()), Some(b"v2".to_vec()));
}

#[test]
fn memory_db_prefix_scan() {
    let mut db = MemoryDB::new();
    db.set(&b"a|1".to_vec(), &b"x".to_vec());
    db.set(&b"b|1".to_vec(), &b"y".to_vec());
    db.set(&b"a|2".to_vec(), &b"z".to_vec());
    let rows = db.iter_all(&b"a|".to_vec());
    assert_eq!(rows.len(), 2);
    assert_eq!(rows[0], (b"a|1".to_vec(), b"x".to_vec()));
    assert_eq!(rows[1], (b"a|2".to_vec(), b"z".to_vec()));
}

#[test]
fn memory_db_write_batch_applies_puts_and_deletes() {
    let mut db = MemoryDB::new();
    db.set(&b"gone".to_vec(), &b"1".to_vec());
    let mut batch = rusty_leveldb::WriteBatch::default();
    batch.put(b"new", b"2");
    batch.delete(b"gone");
    db.write_batch(batch, true);
    assert_eq!(db.get(&b"gone".to_vec()), None);
    assert_eq!(db.get(&b"new".to_vec()), Some(b"2".to_vec()));
}

#[test]
fn seen_frame_round_trip() {
    for ts in [0i64, 1, -1, i64::MAX, i64::MIN, 1_700_000_000] {
        for executed in [false, true] {
            let rec = SeenRecord { first_seen_ts: ts, executed };
            let bytes = encode_seen(&rec);
            assert_eq!(bytes.len(), 11);
            assert_eq!(decode_seen(&bytes), Some(rec));
        }
    }
}

#[test]
fn seen_frame_rejects_unknown_version() {
    let rec = SeenRecord { first_seen_ts: 7, executed: false };
    let mut bytes = encode_seen(&rec);
    bytes[0] = 2;
    assert_eq!(decode_seen(&bytes), None);
    assert_eq!(decode_seen(&b"short".to_vec()), None);
}

#[test]
fn delta_frame_round_trip() {
    let rec = DeltaRecord {
        status: DeltaStatus::Active,
        deltas: vec![
            (b"addr1".to_vec(), vec![(b"tok".to_vec(), 100i128), (b"tok".to_vec(), -3i128)]),
            (b"addr2".to_vec(), vec![(b"other".to_vec(), i128::MIN), (b"t".to_vec(), i128::MAX)]),
            (b"addr3".to_vec(), vec![]),
        ],
    };
    let bytes = encode_delta(&rec);
    let back = decode_delta(&bytes).expect("frame decodes");
    assert!(matches!(back.status, DeltaStatus::Active));
    assert_eq!(back.deltas, rec.deltas);
}

#[test]
fn delta_frame_rejects_malformed() {
    let rec = DeltaRecord { status: DeltaStatus::Confirmed, deltas: vec![] };
    let mut bytes = encode_delta(&rec);
    bytes[0] = 9;
    assert!(decode_delta(&bytes).is_none());
    let rec2 = DeltaRecord { status: DeltaStatus::Confirmed, deltas: vec![] };
    let mut bytes2 = encode_delta(&rec2);
    bytes2[1] = 7;
    assert!(decode_delta(&bytes2).is_none());
    bytes2[1] = 1;
    bytes2.push(0);
    assert!(decode_delta(&bytes2).is_none());
}

#[test]
fn seen_and_store_is_idempotent() {
    let mut ledger = Ledger::new(MemoryDB::new());
    let x = id(1);
    assert_eq!(ledger.seen_and_store_txs(&x, 100), Ok(SeenState::Fresh));
    assert_eq!(ledger.seen_and_store_txs(&x, 200), Ok(SeenState::Seen { executed: false }));
    ledger.mark_executed(&x).unwrap();
    assert_eq!(ledger.seen_and_store_txs(&x, 300), Ok(SeenState::Seen { executed: true }));
}

#[test]
fn balance_sums_active_and_confirmed() {
    let mut ledger = Ledger::new(MemoryDB::new());
    let d1 = TransactionDelta {
        tx_id: id(1),
        deltas: vec![(b"A".to_vec(), vec![(b"T".to_vec(), 100i128)])],
    };
    let d2 = TransactionDelta {
        tx_id: id(2),
        deltas: vec![(b"A".to_vec(), vec![(b"T".to_vec(), 5i128), (b"T".to_vec(), 7i128)])],
    };
    ledger.add_transaction_delta(&d1).unwrap();
    ledger.add_transaction_delta(&d2).unwrap();
    assert_eq!(ledger.get_balance(&b"A".to_vec(), &b"T".to_vec()), Ok(112));
    ledger.remove_transaction_delta(&id(1), DeltaStatus::Confirmed).unwrap();
    assert_eq!(ledger.get_balance(&b"A".to_vec(), &b"T".to_vec()), Ok(112));
    ledger.remove_transaction_delta(&id(2), DeltaStatus::InActive).unwrap();
    assert_eq!(ledger.get_balance(&b"A".to_vec(), &b"T".to_vec()), Ok(100));
    assert_eq!(ledger.get_balance(&b"A".to_vec(), &b"X".to_vec()), Ok(0));
    assert_eq!(ledger.get_balance(&b"B".to_vec(), &b"T".to_vec()), Ok(0));
    // a reorg reverses even a confirmed record
    ledger.remove_transaction_delta(&id(1), DeltaStatus::InActive).unwrap();
    assert_eq!(ledger.get_balance(&b"A".to_vec(), &b"T".to_vec()), Ok(0));
}

#[test]
fn add_delta_keeps_first_record() {
    let mut ledger = Ledger::new(MemoryDB::new());
    let d1 = TransactionDelta {
        tx_id: id(3),
        deltas: vec![(b"A".to_vec(), vec![(b"T".to_vec(), 10i128)])],
    };
    let d1_retry = TransactionDelta {
        tx_id: id(3),
        deltas: vec![(b"A".to_vec(), vec![(b"T".to_vec(), 999i128)])],
    };
    ledger.add_transaction_delta(&d1).unwrap();
    ledger.add_transaction_delta(&d1_retry).unwrap();
    assert_eq!(ledger.get_balance(&b"A".to_vec(), &b"T".to_vec()), Ok(10));
    let empty = TransactionDelta { tx_id: id(4), deltas: vec![] };
    ledger.add_transaction_delta(&empty).unwrap();
    assert_eq!(ledger.get_all_un_consumed_txs().unwrap().len(), 0);
}

#[test]
fn remove_delta_is_idempotent_and_terminal() {
    let mut ledger = Ledger::new(MemoryDB::new());
    let d = TransactionDelta {
        tx_id: id(5),
        deltas: vec![(b"A".to_vec(), vec![(b"T".to_vec(), 42i128)])],
    };
    ledger.add_transaction_delta(&d).unwrap();
    ledger.remove_transaction_delta(&id(5), DeltaStatus::InActive).unwrap();
    assert_eq!(ledger.get_balance(&b"A".to_vec(), &b"T".to_vec()), Ok(0));
    // an inactive record is final: repeat and cross-status calls change nothing
    ledger.remove_transaction_delta(&id(5), DeltaStatus::InActive).unwrap();
    ledger.remove_transaction_delta(&id(5), DeltaStatus::Confirmed).unwrap();
    assert_eq!(ledger.get_balance(&b"A".to_vec(), &b"T".to_vec()), Ok(0));
    // unknown id is silently ignored
    ledger.remove_transaction_delta(&id(6), DeltaStatus::Confirmed).unwrap();
}

#[test]
fn unconsumed_lists_unexecuted_and_active() {
    let mut ledger = Ledger::new(MemoryDB::new());
    // unexecuted, no delta: listed
    ledger.seen_and_store_txs(&id(1), 100).unwrap();
    // executed, no delta: not listed
    ledger.seen_and_store_txs(&id(2), 200).unwrap();
    ledger.mark_executed(&id(2)).unwrap();
    // executed, delta still Active: listed
    ledger.seen_and_store_txs(&id(3), 300).unwrap();
    ledger.mark_executed(&id(3)).unwrap();
    let d3 = TransactionDelta {
        tx_id: id(3),
        deltas: vec![(b"A".to_vec(), vec![(b"T".to_vec(), 1i128)])],
    };
    ledger.add_transaction_delta(&d3).unwrap();
    // executed, delta Confirmed: not listed
    ledger.seen_and_store_txs(&id(4), 400).unwrap();
    ledger.mark_executed(&id(4)).unwrap();
    let d4 = TransactionDelta {
        tx_id: id(4),
        deltas: vec![(b"A".to_vec(), vec![(b"T".to_vec(), 2i128)])],
    };
    ledger.add_transaction_delta(&d4).unwrap();
    ledger.remove_transaction_delta(&id(4), DeltaStatus::Confirmed).unwrap();

    let mut unc = ledger.get_all_un_consumed_txs().unwrap();
    unc.sort_by(|a, b| a.1.cmp(&b.1));
    assert_eq!(unc, vec![(id(1), 100), (id(3), 300)]);
}

#[test]
fn corrupted_rows_surface_as_errors() {
    let mut db = MemoryDB::new();
    let mut key = b"d|".to_vec();
    key.extend_from_slice(&id(9));
    db.set(&key, &b"garbage".to_vec());
    let ledger = Ledger::new(db);
    assert_eq!(ledger.get_balance(&b"A".to_vec(), &b"T".to_vec()), Err(LedgerError::Corrupted));

    let mut db2 = MemoryDB::new();
    let mut skey = b"s|".to_vec();
    skey.extend_from_slice(&id(9));
    db2.set(&skey, &b"junk".to_vec());
    let mut ledger2 = Ledger::new(db2);
    assert_eq!(ledger2.get_all_un_consumed_txs(), Err(LedgerError::Corrupted));
    assert_eq!(ledger2.seen_and_store_txs(&id(9), 1), Err(LedgerError::Corrupted));
    assert_eq!(ledger2.mark_executed(&id(9)), Err(LedgerError::Corrupted));
}

#[test]
fn balance_overflow_is_reported() {
    let mut ledger = Ledger::new(MemoryDB::new());
    let d1 = TransactionDelta {
        tx_id: id(1),
        deltas: vec![(b"A".to_vec(), vec![(b"T".to_vec(), i128::MAX)])],
    };
    let d2 = TransactionDelta {
        tx_id: id(2),
        deltas: vec![(b"A".to_vec(), vec![(b"T".to_vec(), 1i128)])],
    };
    ledger.add_transaction_delta(&d1).unwrap();
    ledger.add_transaction_delta(&d2).unwrap();
    assert_eq!(ledger.get_balance(&b"A".to_vec(), &b"T".to_vec()), Err(LedgerError::Overflow));
    // the other token is unaffected
    assert_eq!(ledger.get_balance(&b"A".to_vec(), &b"X".to_vec()), Ok(0));
}
