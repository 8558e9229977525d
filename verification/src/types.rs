//! Value types shared by the ledger and the processor: transaction
//! identifiers, balance deltas and their lifecycle states.

use vstd::prelude::*;

verus! {

/// A transaction identifier: the 32-byte hash of the consensus-serialized
/// transaction. The core treats it as opaque bytes; equality is byte-equality.
pub type TxIdType = Vec<u8>;

/// An address, opaque to the core.
pub type AddressType = Vec<u8>;

/// A token discriminator, opaque to the core.
pub type TokenType = Vec<u8>;

/// A signed balance amount. The core only stores, sums and negates amounts.
pub type BalanceType = i128;

/// The lifecycle state of a recorded delta. `Active` and `Confirmed` deltas
/// contribute to reported balances. `InActive` is final; a reorg may still
/// move a `Confirmed` record to `InActive`, reversing its effect.
#[derive(Clone, Copy, PartialEq, Eq, Structural, Debug)]
pub enum DeltaStatus {
    Active,
    Confirmed,
    InActive,
}

impl DeltaStatus {
    /// A status a removal may target.
    pub open spec fn is_terminal(self) -> bool {
        self == DeltaStatus::Confirmed || self == DeltaStatus::InActive
    }

    /// Whether a removal targeting `target` moves a record in this status:
    /// the record still counts in balances and is not already at the
    /// target. An `InActive` record never moves again.
    pub open spec fn moves_to(self, target: DeltaStatus) -> bool {
        self.counts_in_balance() && self != target
    }

    /// A status that contributes to reported balances.
    pub open spec fn counts_in_balance(self) -> bool {
        self == DeltaStatus::Active || self == DeltaStatus::Confirmed
    }
}

/// The application's verdict on one transaction: for each touched address, a
/// list of `(token, amount)` changes. The same `(address, token)` pair may
/// occur several times; its entries are summed.
#[derive(Clone, Debug)]
pub struct TransactionDelta {
    pub tx_id: TxIdType,
    pub deltas: Vec<(AddressType, Vec<(TokenType, BalanceType)>)>,
}

/// The mathematical model of a `TransactionDelta`.
pub struct TransactionDeltaV {
    pub tx_id: Seq<u8>,
    pub deltas: Seq<(Seq<u8>, Seq<(Seq<u8>, i128)>)>,
}

impl View for TransactionDelta {
    type V = TransactionDeltaV;

    open spec fn view(&self) -> TransactionDeltaV {
        TransactionDeltaV { tx_id: self.tx_id@, deltas: deltas_model(self.deltas@) }
    }
}

/// The model of a `(token, amount)` list.
pub open spec fn pairs_model(v: Seq<(Vec<u8>, i128)>) -> Seq<(Seq<u8>, i128)> {
    Seq::new(v.len(), |i: int| (v[i].0@, v[i].1))
}

/// The model of an address map: each entry viewed in place.
pub open spec fn deltas_model(v: Seq<(Vec<u8>, Vec<(Vec<u8>, i128)>)>) -> Seq<
    (Seq<u8>, Seq<(Seq<u8>, i128)>),
> {
    Seq::new(v.len(), |i: int| (v[i].0@, pairs_model(v[i].1@)))
}

/// The amount a single delta assigns to `(addr, token)`: the sum of every
/// matching `(token, amount)` entry under every matching address entry.
pub open spec fn delta_amount_of(
    deltas: Seq<(Seq<u8>, Seq<(Seq<u8>, i128)>)>,
    addr: Seq<u8>,
    token: Seq<u8>,
) -> int
    decreases deltas.len(),
{
    if deltas.len() == 0 {
        0
    } else {
        (if deltas[0].0 == addr {
            pair_amount_of(deltas[0].1, token)
        } else {
            0
        }) + delta_amount_of(deltas.drop_first(), addr, token)
    }
}

/// The sum of the amounts that a `(token, amount)` list assigns to `token`.
pub open spec fn pair_amount_of(pairs: Seq<(Seq<u8>, i128)>, token: Seq<u8>) -> int
    decreases pairs.len(),
{
    if pairs.len() == 0 {
        0
    } else {
        (if pairs[0].0 == token {
            pairs[0].1
        } else {
            0
        }) + pair_amount_of(pairs.drop_first(), token)
    }
}

/// Per-transaction bookkeeping used to deduplicate deliveries across channels
/// and across restarts.
#[derive(Clone, PartialEq, Eq, Structural, Debug)]
pub struct SeenRecord {
    /// When the transaction was first received, as a Unix timestamp.
    pub first_seen_ts: i64,
    /// Whether the transaction event has been pushed to the client queue.
    pub executed: bool,
}

/// A stored delta record: the lifecycle status together with the full
/// address map, kept verbatim so the delta can be reversed later without
/// consulting any external source.
pub struct DeltaRecord {
    pub status: DeltaStatus,
    pub deltas: Vec<(AddressType, Vec<(TokenType, BalanceType)>)>,
}

/// The mathematical model of a `DeltaRecord`.
pub struct DeltaRecordV {
    pub status: DeltaStatus,
    pub deltas: Seq<(Seq<u8>, Seq<(Seq<u8>, i128)>)>,
}

impl View for DeltaRecord {
    type V = DeltaRecordV;

    open spec fn view(&self) -> DeltaRecordV {
        DeltaRecordV { status: self.status, deltas: deltas_model(self.deltas@) }
    }
}

/// Copies a byte string.
pub fn clone_bytes(v: &Vec<u8>) -> (r: Vec<u8>)
    ensures
        r@ == v@,
{
    let mut r: Vec<u8> = Vec::new();
    let mut i: usize = 0;
    while i < v.len()
        invariant
            0 <= i <= v@.len(),
            r@ =~= v@.subrange(0, i as int),
        decreases v@.len() - i,
    {
        r.push(v[i]);
        proof {
            assert(r@ =~= v@.subrange(0, i + 1));
        }
        i += 1;
    }
    proof {
        assert(v@.subrange(0, v@.len() as int) =~= v@);
    }
    r
}

/// Copies a `(token, amount)` list, preserving its model.
pub fn clone_pairs(v: &Vec<(TokenType, BalanceType)>) -> (r: Vec<(TokenType, BalanceType)>)
    ensures
        pairs_model(r@) == pairs_model(v@),
{
    let mut r: Vec<(TokenType, BalanceType)> = Vec::new();
    let mut i: usize = 0;
    while i < v.len()
        invariant
            0 <= i <= v@.len(),
            r@.len() == i,
            pairs_model(r@) == pairs_model(v@).subrange(0, i as int),
        decreases v@.len() - i,
    {
        let tok = clone_bytes(&v[i].0);
        let amt: BalanceType = v[i].1;
        r.push((tok, amt));
        proof {
            assert(r@.len() == i + 1);
            assert(r@[i as int].0@ == v@[i as int].0@);
            assert(r@[i as int].1 == v@[i as int].1);
            assert(pairs_model(r@) =~~= pairs_model(v@).subrange(0, i + 1));
        }
        i += 1;
    }
    proof {
        assert(pairs_model(v@).subrange(0, v@.len() as int) =~= pairs_model(v@));
    }
    r
}

/// Copies an address map, preserving its model.
pub fn clone_deltas(v: &Vec<(AddressType, Vec<(TokenType, BalanceType)>)>) -> (r: Vec<
    (AddressType, Vec<(TokenType, BalanceType)>),
>)
    ensures
        deltas_model(r@) == deltas_model(v@),
{
    let mut r: Vec<(AddressType, Vec<(TokenType, BalanceType)>)> = Vec::new();
    let mut i: usize = 0;
    while i < v.len()
        invariant
            0 <= i <= v@.len(),
            r@.len() == i,
            deltas_model(r@) == deltas_model(v@).subrange(0, i as int),
        decreases v@.len() - i,
    {
        let addr = clone_bytes(&v[i].0);
        let ps = clone_pairs(&v[i].1);
        r.push((addr, ps));
        proof {
            assert(deltas_model(r@) =~~= deltas_model(v@).subrange(0, i + 1));
        }
        i += 1;
    }
    proof {
        assert(deltas_model(v@).subrange(0, v@.len() as int) =~= deltas_model(v@));
    }
    r
}

} // verus!
