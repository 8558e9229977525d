//! Deriving a transaction id from raw transaction bytes.

use vstd::prelude::*;

verus! {

/// The transaction id of consensus-encoded transaction bytes: a value
/// exactly on byte strings that are one complete consensus encoding, and
/// then the 32-byte id. A function of the bytes alone.
pub uninterp spec fn tx_id_of(b: Seq<u8>) -> Option<Seq<u8>>;

/// Relies on bitcoin's consensus `deserialize` for `Transaction`, which
/// succeeds exactly on a complete encoding of one transaction, and on
/// `Transaction::compute_txid`, whose 32-byte result depends on the
/// transaction bytes alone.
#[verifier::external_body]
pub fn parse_tx_id(data: &Vec<u8>) -> (r: Option<Vec<u8>>)
    ensures
        match r {
            Option::Some(id) => tx_id_of(data@) == Option::Some(id@) && id@.len() == 32,
            Option::None => tx_id_of(data@) is None,
        },
{
    let tx: bitcoincore_rpc::bitcoin::Transaction = match bitcoincore_rpc::bitcoin::consensus::deserialize(
        data.as_slice(),
    ) {
        Ok(tx) => tx,
        Err(_) => {
            return None;
        },
    };
    let txid = tx.compute_txid();
    let arr: &[u8] = txid.as_ref();
    Some(arr.to_vec())
}

} // verus!
