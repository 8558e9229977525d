//! The batched-write type of the durable engine.
//!
//! The ledger's read-modify-write steps go through `rusty_leveldb`'s
//! `WriteBatch` so that a pair of mutations reaches the engine atomically.
//! The batch is opaque to the verifier; `batch_ops` names the operations it
//! holds, and the wrappers below state how each call changes them, as the
//! engine's source shows. The contracts speak of batches built through
//! these wrappers alone; a batch loaded from raw bytes by the engine's own
//! `set_contents` is outside them, and nothing in this crate builds one.

use vstd::prelude::*;

verus! {

#[verifier::external_type_specification]
#[verifier::external_body]
pub struct ExWriteBatch(rusty_leveldb::WriteBatch);

/// The operations a batch holds, in insertion order: a put carries
/// `Some(value)`, a delete `None`.
pub uninterp spec fn batch_ops(b: rusty_leveldb::WriteBatch) -> Seq<(Seq<u8>, Option<Seq<u8>>)>;

/// The model of a decoded operation list.
pub open spec fn ops_view(v: Seq<(Vec<u8>, Option<Vec<u8>>)>) -> Seq<(Seq<u8>, Option<Seq<u8>>)> {
    Seq::new(
        v.len(),
        |i: int|
            (
                v[i].0@,
                match v[i].1 {
                    Option::Some(b) => Option::Some(b@),
                    Option::None => Option::None,
                },
            ),
    )
}

/// Relies on `rusty_leveldb::WriteBatch::default`, which constructs a batch
/// holding no operations.
#[verifier::external_body]
pub fn batch_new() -> (b: rusty_leveldb::WriteBatch)
    ensures
        batch_ops(b) == Seq::<(Seq<u8>, Option<Seq<u8>>)>::empty(),
{
    rusty_leveldb::WriteBatch::default()
}

/// Relies on `rusty_leveldb::WriteBatch::put`, which appends one put
/// operation to the batch.
#[verifier::external_body]
pub fn batch_put(b: &mut rusty_leveldb::WriteBatch, k: &Vec<u8>, v: &Vec<u8>)
    ensures
        batch_ops(*final(b)) == batch_ops(*old(b)).push((k@, Option::Some(v@))),
{
    b.put(k.as_slice(), v.as_slice());
}

/// Relies on `rusty_leveldb::WriteBatch::delete`, which appends one delete
/// operation to the batch.
#[verifier::external_body]
pub fn batch_delete(b: &mut rusty_leveldb::WriteBatch, k: &Vec<u8>)
    ensures
        batch_ops(*final(b)) == batch_ops(*old(b)).push((k@, Option::None)),
{
    b.delete(k.as_slice());
}

/// Relies on `rusty_leveldb::WriteBatch::iter`, which yields the batched
/// operations in insertion order, a deleted key paired with `None`.
#[verifier::external_body]
pub fn batch_entries(b: &rusty_leveldb::WriteBatch) -> (r: Vec<(Vec<u8>, Option<Vec<u8>>)>)
    ensures
        ops_view(r@) == batch_ops(*b),
{
    b.iter().map(|(k, v)| (k.to_vec(), v.map(|x| x.to_vec()))).collect()
}

} // verus!
