//! The versioned value frames of the ledger: every stored value begins with a
//! format byte; number fields are little-endian, byte fields length-prefixed.
//! Each frame has a spec-level encoder and decoder, proved inverse, and
//! executable functions proved against them.

use vstd::prelude::*;

use crate::types::{DeltaRecord, DeltaRecordV, DeltaStatus, SeenRecord};
use crate::wire::{
    le_append, le_bytes, le_read, le_val, lemma_le_bytes_len, lemma_le_roundtrip,
    lemma_le_val_bound, lemma_pow256_values, pow256,
};

verus! {

/// The format version every frame written by this crate carries.
pub const FRAME_VERSION: u8 = 1;

/// The magnitude of a signed 64-bit value.
pub open spec fn abs_i64(x: i64) -> nat {
    if x >= 0 {
        x as nat
    } else {
        (-(x as int)) as nat
    }
}

/// The magnitude of a signed 128-bit value.
pub open spec fn abs_i128(x: i128) -> nat {
    if x >= 0 {
        x as nat
    } else {
        (-(x as int)) as nat
    }
}

/// A signed 64-bit field: a sign byte then the 8-byte magnitude.
pub open spec fn i64_enc(x: i64) -> Seq<u8> {
    seq![
        if x >= 0 {
            0u8
        } else {
            1u8
        },
    ] + le_bytes(abs_i64(x), 8)
}

/// The signed value read from a 9-byte sign-magnitude field, if canonical:
/// the sign byte is 0 or 1, a negative magnitude is nonzero, and the value
/// is representable.
pub open spec fn i64_dec(s: Seq<u8>) -> Option<i64> {
    if s.len() != 9 {
        Option::None
    } else {
        let m = le_val(s.subrange(1, 9));
        if s[0] == 0 {
            if m <= i64::MAX as nat {
                Option::Some(m as i64)
            } else {
                Option::None
            }
        } else if s[0] == 1 {
            if 1 <= m <= 0x8000_0000_0000_0000 {
                Option::Some((-(m as int)) as i64)
            } else {
                Option::None
            }
        } else {
            Option::None
        }
    }
}

/// A signed 128-bit field: a sign byte then the 16-byte magnitude.
pub open spec fn i128_enc(x: i128) -> Seq<u8> {
    seq![
        if x >= 0 {
            0u8
        } else {
            1u8
        },
    ] + le_bytes(abs_i128(x), 16)
}

/// The signed value read from a 17-byte sign-magnitude field, if canonical.
pub open spec fn i128_dec(s: Seq<u8>) -> Option<i128> {
    if s.len() != 17 {
        Option::None
    } else {
        let m = le_val(s.subrange(1, 17));
        if s[0] == 0 {
            if m <= i128::MAX as nat {
                Option::Some(m as i128)
            } else {
                Option::None
            }
        } else if s[0] == 1 {
            if 1 <= m <= 0x8000_0000_0000_0000_0000_0000_0000_0000 {
                Option::Some((-(m as int)) as i128)
            } else {
                Option::None
            }
        } else {
            Option::None
        }
    }
}

pub proof fn lemma_i64_roundtrip(x: i64)
    ensures
        i64_enc(x).len() == 9,
        i64_dec(i64_enc(x)) == Option::Some(x),
{
    lemma_pow256_values();
    lemma_le_bytes_len(abs_i64(x), 8);
    lemma_le_roundtrip(abs_i64(x), 8);
    let s = i64_enc(x);
    assert(s.subrange(1, 9) =~= le_bytes(abs_i64(x), 8));
    assert(le_val(s.subrange(1, 9)) == abs_i64(x));
}

pub proof fn lemma_i128_roundtrip(x: i128)
    ensures
        i128_enc(x).len() == 17,
        i128_dec(i128_enc(x)) == Option::Some(x),
{
    lemma_pow256_values();
    lemma_le_bytes_len(abs_i128(x), 16);
    lemma_le_roundtrip(abs_i128(x), 16);
    let s = i128_enc(x);
    assert(s.subrange(1, 17) =~= le_bytes(abs_i128(x), 16));
    assert(le_val(s.subrange(1, 17)) == abs_i128(x));
}

/// Appends a signed 64-bit field.
pub fn i64_append(out: &mut Vec<u8>, x: i64)
    ensures
        final(out)@ == old(out)@ + i64_enc(x),
{
    proof {
        lemma_pow256_values();
    }
    if x >= 0 {
        out.push(0u8);
        le_append(out, x as u128, 8);
    } else {
        out.push(1u8);
        let m: u128 = ((-(x + 1)) as u128) + 1;
        proof {
            assert(m as nat == abs_i64(x));
        }
        le_append(out, m, 8);
    }
    proof {
        assert(old(out)@.push(
            if x >= 0 {
                0u8
            } else {
                1u8
            },
        ) + le_bytes(abs_i64(x), 8) =~= old(out)@ + i64_enc(x));
    }
}

/// Appends a signed 128-bit field.
pub fn i128_append(out: &mut Vec<u8>, x: i128)
    ensures
        final(out)@ == old(out)@ + i128_enc(x),
{
    proof {
        lemma_pow256_values();
    }
    if x >= 0 {
        out.push(0u8);
        le_append(out, x as u128, 16);
    } else {
        out.push(1u8);
        let m: u128 = ((-(x + 1)) as u128) + 1;
        proof {
            assert(m as nat == abs_i128(x));
        }
        le_append(out, m, 16);
    }
    proof {
        assert(old(out)@.push(
            if x >= 0 {
                0u8
            } else {
                1u8
            },
        ) + le_bytes(abs_i128(x), 16) =~= old(out)@ + i128_enc(x));
    }
}

/// Reads the signed 64-bit field at `pos`.
pub fn i64_read(v: &Vec<u8>, pos: usize) -> (r: Option<i64>)
    requires
        pos + 9 <= v@.len(),
    ensures
        r == i64_dec(v@.subrange(pos as int, pos + 9)),
{
    let vl: usize = v.len();
    let s0: u8 = v[pos];
    assert(pos + 9 <= vl);
    let m: u128 = le_read(v, pos + 1, 8);
    proof {
        let f = v@.subrange(pos as int, pos + 9);
        assert(f.len() == 9);
        assert(f[0] == s0);
        assert(f.subrange(1, 9) =~= v@.subrange(pos + 1, pos + 9));
        lemma_pow256_values();
        lemma_le_val_bound(v@.subrange(pos + 1, pos + 9));
    }
    if s0 == 0 {
        if m <= i64::MAX as u128 {
            Some(m as i64)
        } else {
            None
        }
    } else if s0 == 1 {
        if 1 <= m && m <= 0x8000_0000_0000_0000u128 {
            if m == 0x8000_0000_0000_0000u128 {
                Some(i64::MIN)
            } else {
                Some(-(m as i64))
            }
        } else {
            None
        }
    } else {
        None
    }
}

/// Reads the signed 128-bit field at `pos`.
pub fn i128_read(v: &Vec<u8>, pos: usize) -> (r: Option<i128>)
    requires
        pos + 17 <= v@.len(),
    ensures
        r == i128_dec(v@.subrange(pos as int, pos + 17)),
{
    let vl: usize = v.len();
    let s0: u8 = v[pos];
    assert(pos + 17 <= vl);
    let m: u128 = le_read(v, pos + 1, 16);
    proof {
        let f = v@.subrange(pos as int, pos + 17);
        assert(f.len() == 17);
        assert(f[0] == s0);
        assert(f.subrange(1, 17) =~= v@.subrange(pos + 1, pos + 17));
        lemma_pow256_values();
        lemma_le_val_bound(v@.subrange(pos + 1, pos + 17));
    }
    if s0 == 0 {
        if m <= i128::MAX as u128 {
            Some(m as i128)
        } else {
            None
        }
    } else if s0 == 1 {
        if m >= 1 {
            if m == 0x8000_0000_0000_0000_0000_0000_0000_0000u128 {
                Some(i128::MIN)
            } else if m < 0x8000_0000_0000_0000_0000_0000_0000_0000u128 {
                Some(-(m as i128))
            } else {
                None
            }
        } else {
            None
        }
    } else {
        None
    }
}

/// The seen-transaction frame: version, signed timestamp, executed flag.
pub open spec fn seen_enc(r: SeenRecord) -> Seq<u8> {
    seq![FRAME_VERSION] + i64_enc(r.first_seen_ts) + seq![
        if r.executed {
            1u8
        } else {
            0u8
        },
    ]
}

/// The record read back from a seen-transaction frame, if well-formed.
pub open spec fn seen_dec(s: Seq<u8>) -> Option<SeenRecord> {
    if s.len() != 11 {
        Option::None
    } else if s[0] != FRAME_VERSION {
        Option::None
    } else {
        match i64_dec(s.subrange(1, 10)) {
            Option::Some(ts) => {
                if s[10] == 0 {
                    Option::Some(SeenRecord { first_seen_ts: ts, executed: false })
                } else if s[10] == 1 {
                    Option::Some(SeenRecord { first_seen_ts: ts, executed: true })
                } else {
                    Option::None
                }
            },
            Option::None => Option::None,
        }
    }
}

pub proof fn lemma_seen_roundtrip(r: SeenRecord)
    ensures
        seen_enc(r).len() == 11,
        seen_dec(seen_enc(r)) == Option::Some(r),
{
    lemma_i64_roundtrip(r.first_seen_ts);
    let s = seen_enc(r);
    assert(s.subrange(1, 10) =~= i64_enc(r.first_seen_ts));
    assert(s[10] == if r.executed {
        1u8
    } else {
        0u8
    });
}

/// Encodes a seen record.
pub fn encode_seen(r: &SeenRecord) -> (v: Vec<u8>)
    ensures
        v@ == seen_enc(*r),
{
    let mut v: Vec<u8> = Vec::new();
    v.push(FRAME_VERSION);
    i64_append(&mut v, r.first_seen_ts);
    v.push(if r.executed {
        1u8
    } else {
        0u8
    });
    proof {
        assert(v@ =~= seen_enc(*r));
    }
    v
}

/// Decodes a seen record; a malformed or unknown-version frame is refused.
pub fn decode_seen(v: &Vec<u8>) -> (r: Option<SeenRecord>)
    ensures
        r == seen_dec(v@),
{
    if v.len() != 11 {
        return None;
    }
    if v[0] != FRAME_VERSION {
        return None;
    }
    proof {
        assert(v@.subrange(1, 10) =~= v@.subrange(1, 1 + 9int));
    }
    let ts = match i64_read(v, 1) {
        Some(ts) => ts,
        None => {
            return None;
        },
    };
    let executed = if v[10] == 0 {
        false
    } else if v[10] == 1 {
        true
    } else {
        return None;
    };
    Some(SeenRecord { first_seen_ts: ts, executed })
}

/// The wire byte of a delta lifecycle status.
pub open spec fn status_byte(st: DeltaStatus) -> u8 {
    match st {
        DeltaStatus::Active => 0u8,
        DeltaStatus::Confirmed => 1u8,
        DeltaStatus::InActive => 2u8,
    }
}

/// The status read from its wire byte.
pub open spec fn byte_status(b: u8) -> Option<DeltaStatus> {
    if b == 0 {
        Option::Some(DeltaStatus::Active)
    } else if b == 1 {
        Option::Some(DeltaStatus::Confirmed)
    } else if b == 2 {
        Option::Some(DeltaStatus::InActive)
    } else {
        Option::None
    }
}

/// The suffix of `s` from `i` on.
pub open spec fn suffix_from(s: Seq<u8>, i: int) -> Seq<u8> {
    s.subrange(i, s.len() as int)
}

/// A length-prefixed byte field.
pub open spec fn bytes_field_enc(b: Seq<u8>) -> Seq<u8> {
    le_bytes(b.len(), 8) + b
}

/// Reads an 8-byte unsigned field, returning it and the remainder.
pub open spec fn dec_u64_field(s: Seq<u8>) -> Option<(nat, Seq<u8>)> {
    if s.len() >= 8 {
        Option::Some((le_val(s.subrange(0, 8)), suffix_from(s, 8)))
    } else {
        Option::None
    }
}

/// Reads a length-prefixed byte field, returning it and the remainder.
pub open spec fn dec_bytes_field(s: Seq<u8>) -> Option<(Seq<u8>, Seq<u8>)> {
    match dec_u64_field(s) {
        Option::Some((n, rest)) => {
            if n <= rest.len() {
                Option::Some((rest.subrange(0, n as int), suffix_from(rest, n as int)))
            } else {
                Option::None
            }
        },
        Option::None => Option::None,
    }
}

/// Reads a signed 128-bit field, returning it and the remainder.
pub open spec fn dec_i128_field(s: Seq<u8>) -> Option<(i128, Seq<u8>)> {
    if s.len() >= 17 {
        match i128_dec(s.subrange(0, 17)) {
            Option::Some(x) => Option::Some((x, suffix_from(s, 17))),
            Option::None => Option::None,
        }
    } else {
        Option::None
    }
}

/// One `(token, amount)` pair on the wire.
pub open spec fn pair_enc(p: (Seq<u8>, i128)) -> Seq<u8> {
    bytes_field_enc(p.0) + i128_enc(p.1)
}

/// A pair list on the wire, in order.
pub open spec fn pairs_enc(ps: Seq<(Seq<u8>, i128)>) -> Seq<u8>
    decreases ps.len(),
{
    if ps.len() == 0 {
        Seq::empty()
    } else {
        pair_enc(ps[0]) + pairs_enc(ps.drop_first())
    }
}

pub open spec fn dec_pair(s: Seq<u8>) -> Option<((Seq<u8>, i128), Seq<u8>)> {
    match dec_bytes_field(s) {
        Option::Some((tok, r1)) => match dec_i128_field(r1) {
            Option::Some((x, r2)) => Option::Some(((tok, x), r2)),
            Option::None => Option::None,
        },
        Option::None => Option::None,
    }
}

pub open spec fn dec_pairs(s: Seq<u8>, cnt: nat) -> Option<(Seq<(Seq<u8>, i128)>, Seq<u8>)>
    decreases cnt,
{
    if cnt == 0 {
        Option::Some((Seq::empty(), s))
    } else {
        match dec_pair(s) {
            Option::Some((p, r)) => match dec_pairs(r, (cnt - 1) as nat) {
                Option::Some((ps, r2)) => Option::Some((seq![p] + ps, r2)),
                Option::None => Option::None,
            },
            Option::None => Option::None,
        }
    }
}

/// One address entry on the wire: the address, then its pair list.
pub open spec fn entry_enc(e: (Seq<u8>, Seq<(Seq<u8>, i128)>)) -> Seq<u8> {
    bytes_field_enc(e.0) + le_bytes(e.1.len(), 8) + pairs_enc(e.1)
}

pub open spec fn entries_enc(es: Seq<(Seq<u8>, Seq<(Seq<u8>, i128)>)>) -> Seq<u8>
    decreases es.len(),
{
    if es.len() == 0 {
        Seq::empty()
    } else {
        entry_enc(es[0]) + entries_enc(es.drop_first())
    }
}

pub open spec fn dec_entry(s: Seq<u8>) -> Option<
    ((Seq<u8>, Seq<(Seq<u8>, i128)>), Seq<u8>),
> {
    match dec_bytes_field(s) {
        Option::Some((addr, r1)) => match dec_u64_field(r1) {
            Option::Some((cnt, r2)) => match dec_pairs(r2, cnt) {
                Option::Some((ps, r3)) => Option::Some(((addr, ps), r3)),
                Option::None => Option::None,
            },
            Option::None => Option::None,
        },
        Option::None => Option::None,
    }
}

pub open spec fn dec_entries(s: Seq<u8>, cnt: nat) -> Option<
    (Seq<(Seq<u8>, Seq<(Seq<u8>, i128)>)>, Seq<u8>),
>
    decreases cnt,
{
    if cnt == 0 {
        Option::Some((Seq::empty(), s))
    } else {
        match dec_entry(s) {
            Option::Some((e, r)) => match dec_entries(r, (cnt - 1) as nat) {
                Option::Some((es, r2)) => Option::Some((seq![e] + es, r2)),
                Option::None => Option::None,
            },
            Option::None => Option::None,
        }
    }
}

/// The delta frame: version, status, then the full address map verbatim.
pub open spec fn delta_enc(r: DeltaRecordV) -> Seq<u8> {
    seq![FRAME_VERSION, status_byte(r.status)] + le_bytes(r.deltas.len(), 8) + entries_enc(
        r.deltas,
    )
}

/// The record read back from a delta frame, if well-formed.
pub open spec fn delta_dec(s: Seq<u8>) -> Option<DeltaRecordV> {
    if s.len() < 2 {
        Option::None
    } else if s[0] != FRAME_VERSION {
        Option::None
    } else {
        match byte_status(s[1]) {
            Option::Some(st) => match dec_u64_field(suffix_from(s, 2)) {
                Option::Some((cnt, rest)) => match dec_entries(rest, cnt) {
                    Option::Some((es, r2)) => {
                        if r2.len() == 0 {
                            Option::Some(DeltaRecordV { status: st, deltas: es })
                        } else {
                            Option::None
                        }
                    },
                    Option::None => Option::None,
                },
                Option::None => Option::None,
            },
            Option::None => Option::None,
        }
    }
}

/// The length bounds under which an address map fits its frame fields.
pub open spec fn pairs_len_wf(ps: Seq<(Seq<u8>, i128)>) -> bool {
    ps.len() < pow256(8) && forall|i: int|
        0 <= i < ps.len() ==> (#[trigger] ps[i]).0.len() < pow256(8)
}

pub open spec fn deltas_len_wf(es: Seq<(Seq<u8>, Seq<(Seq<u8>, i128)>)>) -> bool {
    es.len() < pow256(8) && forall|i: int|
        0 <= i < es.len() ==> (#[trigger] es[i]).0.len() < pow256(8) && pairs_len_wf(es[i].1)
}

pub proof fn lemma_dec_u64_field(x: nat, rest: Seq<u8>)
    requires
        x < pow256(8),
    ensures
        dec_u64_field(le_bytes(x, 8) + rest) == Option::Some((x, rest)),
{
    lemma_le_bytes_len(x, 8);
    lemma_le_roundtrip(x, 8);
    let s = le_bytes(x, 8) + rest;
    assert(s.subrange(0, 8) =~= le_bytes(x, 8));
    assert(suffix_from(s, 8) =~= rest);
}

pub proof fn lemma_dec_bytes_field(b: Seq<u8>, rest: Seq<u8>)
    requires
        b.len() < pow256(8),
    ensures
        dec_bytes_field(bytes_field_enc(b) + rest) == Option::Some((b, rest)),
{
    let s = bytes_field_enc(b) + rest;
    assert(s =~= le_bytes(b.len(), 8) + (b + rest));
    lemma_dec_u64_field(b.len(), b + rest);
    assert((b + rest).subrange(0, b.len() as int) =~= b);
    assert(suffix_from(b + rest, b.len() as int) =~= rest);
}

pub proof fn lemma_dec_i128_field(x: i128, rest: Seq<u8>)
    ensures
        dec_i128_field(i128_enc(x) + rest) == Option::Some((x, rest)),
{
    lemma_i128_roundtrip(x);
    let s = i128_enc(x) + rest;
    assert(s.subrange(0, 17) =~= i128_enc(x));
    assert(suffix_from(s, 17) =~= rest);
}

pub proof fn lemma_dec_pair(p: (Seq<u8>, i128), rest: Seq<u8>)
    requires
        p.0.len() < pow256(8),
    ensures
        dec_pair(pair_enc(p) + rest) == Option::Some((p, rest)),
{
    let s = pair_enc(p) + rest;
    assert(s =~= bytes_field_enc(p.0) + (i128_enc(p.1) + rest));
    lemma_dec_bytes_field(p.0, i128_enc(p.1) + rest);
    lemma_dec_i128_field(p.1, rest);
}

pub proof fn lemma_dec_pairs(ps: Seq<(Seq<u8>, i128)>, rest: Seq<u8>)
    requires
        pairs_len_wf(ps),
    ensures
        dec_pairs(pairs_enc(ps) + rest, ps.len()) == Option::Some((ps, rest)),
    decreases ps.len(),
{
    if ps.len() == 0 {
        assert(pairs_enc(ps) + rest =~= rest);
        assert(dec_pairs(rest, 0) == Option::Some((Seq::<(Seq<u8>, i128)>::empty(), rest)));
        assert(ps =~= Seq::<(Seq<u8>, i128)>::empty());
    } else {
        let s = pairs_enc(ps) + rest;
        assert(s =~= pair_enc(ps[0]) + (pairs_enc(ps.drop_first()) + rest));
        lemma_dec_pair(ps[0], pairs_enc(ps.drop_first()) + rest);
        assert(forall|i: int|
            0 <= i < ps.drop_first().len() ==> #[trigger] ps.drop_first()[i] == ps[i + 1]);
        lemma_dec_pairs(ps.drop_first(), rest);
        assert(seq![ps[0]] + ps.drop_first() =~= ps);
    }
}

pub proof fn lemma_dec_entry(e: (Seq<u8>, Seq<(Seq<u8>, i128)>), rest: Seq<u8>)
    requires
        e.0.len() < pow256(8),
        pairs_len_wf(e.1),
    ensures
        dec_entry(entry_enc(e) + rest) == Option::Some((e, rest)),
{
    let s = entry_enc(e) + rest;
    let tail1 = le_bytes(e.1.len(), 8) + (pairs_enc(e.1) + rest);
    assert(s =~= bytes_field_enc(e.0) + tail1);
    lemma_dec_bytes_field(e.0, tail1);
    lemma_dec_u64_field(e.1.len(), pairs_enc(e.1) + rest);
    lemma_dec_pairs(e.1, rest);
}

pub proof fn lemma_dec_entries(es: Seq<(Seq<u8>, Seq<(Seq<u8>, i128)>)>, rest: Seq<u8>)
    requires
        deltas_len_wf(es),
    ensures
        dec_entries(entries_enc(es) + rest, es.len()) == Option::Some((es, rest)),
    decreases es.len(),
{
    if es.len() == 0 {
        assert(entries_enc(es) + rest =~= rest);
        assert(es =~= Seq::<(Seq<u8>, Seq<(Seq<u8>, i128)>)>::empty());
    } else {
        let s = entries_enc(es) + rest;
        assert(s =~= entry_enc(es[0]) + (entries_enc(es.drop_first()) + rest));
        lemma_dec_entry(es[0], entries_enc(es.drop_first()) + rest);
        assert(forall|i: int|
            0 <= i < es.drop_first().len() ==> #[trigger] es.drop_first()[i] == es[i + 1]);
        lemma_dec_entries(es.drop_first(), rest);
        assert(seq![es[0]] + es.drop_first() =~= es);
    }
}

/// Reading back an encoded delta record yields the record.
pub proof fn lemma_delta_roundtrip(r: DeltaRecordV)
    requires
        deltas_len_wf(r.deltas),
    ensures
        delta_dec(delta_enc(r)) == Option::Some(r),
{
    let s = delta_enc(r);
    lemma_le_bytes_len(r.deltas.len(), 8);
    assert(s[0] == FRAME_VERSION);
    assert(s[1] == status_byte(r.status));
    assert(byte_status(status_byte(r.status)) == Option::Some(r.status));
    assert(suffix_from(s, 2) =~= le_bytes(r.deltas.len(), 8) + entries_enc(r.deltas));
    lemma_dec_u64_field(r.deltas.len(), entries_enc(r.deltas));
    lemma_dec_entries(r.deltas, Seq::empty());
    assert(entries_enc(r.deltas) + Seq::<u8>::empty() =~= entries_enc(r.deltas));
}

/// The wire byte of a status, executably.
pub fn status_to_byte(st: DeltaStatus) -> (r: u8)
    ensures
        r == status_byte(st),
{
    match st {
        DeltaStatus::Active => 0u8,
        DeltaStatus::Confirmed => 1u8,
        DeltaStatus::InActive => 2u8,
    }
}

/// The status of a wire byte, executably.
pub fn byte_to_status(b: u8) -> (r: Option<DeltaStatus>)
    ensures
        r == byte_status(b),
{
    if b == 0 {
        Some(DeltaStatus::Active)
    } else if b == 1 {
        Some(DeltaStatus::Confirmed)
    } else if b == 2 {
        Some(DeltaStatus::InActive)
    } else {
        None
    }
}

/// Appends a length-prefixed byte field.
fn append_bytes_field(out: &mut Vec<u8>, b: &Vec<u8>)
    ensures
        final(out)@ == old(out)@ + bytes_field_enc(b@),
{
    proof {
        lemma_pow256_values();
    }
    let n: usize = b.len();
    le_append(out, n as u128, 8);
    out.extend_from_slice(b.as_slice());
    proof {
        assert(final(out)@ =~= old(out)@ + bytes_field_enc(b@));
    }
}

/// Appends the pair list of one address entry, from index `i` on.
fn append_pairs(out: &mut Vec<u8>, ps: &Vec<(Vec<u8>, i128)>, i: usize)
    requires
        i <= ps@.len(),
    ensures
        final(out)@ == old(out)@ + pairs_enc(
            crate::types::pairs_model(ps@).subrange(i as int, ps@.len() as int),
        ),
    decreases ps@.len() - i,
{
    let ghost m = crate::types::pairs_model(ps@);
    if i == ps.len() {
        proof {
            assert(m.subrange(i as int, ps@.len() as int) =~= Seq::<(Seq<u8>, i128)>::empty());
            assert(old(out)@ + Seq::<u8>::empty() =~= old(out)@);
        }
    } else {
        let sfx = Ghost(m.subrange(i as int, ps@.len() as int));
        proof {
            assert(sfx@[0] == m[i as int]);
            assert(sfx@.drop_first() =~= m.subrange(i as int + 1, ps@.len() as int));
            assert(pairs_enc(sfx@) == pair_enc(m[i as int]) + pairs_enc(sfx@.drop_first()));
        }
        append_bytes_field(out, &ps[i].0);
        i128_append(out, ps[i].1);
        append_pairs(out, ps, i + 1);
        proof {
            assert(m[i as int] == (ps@[i as int].0@, ps@[i as int].1));
            assert(final(out)@ =~= old(out)@ + pairs_enc(sfx@));
        }
    }
}

/// Appends the address entries of a record, from index `i` on.
fn append_entries(out: &mut Vec<u8>, es: &Vec<(Vec<u8>, Vec<(Vec<u8>, i128)>)>, i: usize)
    requires
        i <= es@.len(),
    ensures
        final(out)@ == old(out)@ + entries_enc(
            crate::types::deltas_model(es@).subrange(i as int, es@.len() as int),
        ),
    decreases es@.len() - i,
{
    let ghost m = crate::types::deltas_model(es@);
    if i == es.len() {
        proof {
            assert(m.subrange(i as int, es@.len() as int) =~= Seq::<
                (Seq<u8>, Seq<(Seq<u8>, i128)>),
            >::empty());
            assert(old(out)@ + Seq::<u8>::empty() =~= old(out)@);
        }
    } else {
        let sfx = Ghost(m.subrange(i as int, es@.len() as int));
        proof {
            assert(sfx@[0] == m[i as int]);
            assert(sfx@.drop_first() =~= m.subrange(i as int + 1, es@.len() as int));
            assert(entries_enc(sfx@) == entry_enc(m[i as int]) + entries_enc(sfx@.drop_first()));
            lemma_pow256_values();
        }
        append_bytes_field(out, &es[i].0);
        let cnt: usize = es[i].1.len();
        le_append(out, cnt as u128, 8);
        append_pairs(out, &es[i].1, 0);
        append_entries(out, es, i + 1);
        proof {
            assert(m[i as int] == (es@[i as int].0@, crate::types::pairs_model(es@[i as int].1@)));
            assert(crate::types::pairs_model(es@[i as int].1@).subrange(
                0,
                es@[i as int].1@.len() as int,
            ) =~= crate::types::pairs_model(es@[i as int].1@));
            assert(final(out)@ =~= old(out)@ + entries_enc(sfx@));
        }
    }
}

/// Encodes a delta record as its versioned frame.
pub fn encode_delta(r: &DeltaRecord) -> (v: Vec<u8>)
    ensures
        v@ == delta_enc(r@),
{
    proof {
        lemma_pow256_values();
    }
    let mut v: Vec<u8> = Vec::new();
    v.push(FRAME_VERSION);
    v.push(status_to_byte(r.status));
    let cnt: usize = r.deltas.len();
    le_append(&mut v, cnt as u128, 8);
    append_entries(&mut v, &r.deltas, 0);
    proof {
        assert(crate::types::deltas_model(r.deltas@).subrange(
            0,
            r.deltas@.len() as int,
        ) =~= crate::types::deltas_model(r.deltas@));
        assert(v@ =~= delta_enc(r@));
    }
    v
}

/// Reads the 8-byte unsigned field at `pos`.
fn read_u64_field(v: &Vec<u8>, pos: usize) -> (r: Option<(u64, usize)>)
    requires
        pos <= v@.len(),
    ensures
        match r {
            Option::Some((n, p2)) => dec_u64_field(suffix_from(v@, pos as int)) == Option::Some(
                ((n as nat), suffix_from(v@, p2 as int)),
            ) && pos <= p2 <= v@.len(),
            Option::None => dec_u64_field(suffix_from(v@, pos as int)) is None,
        },
{
    let vl: usize = v.len();
    if vl - pos >= 8 {
        let n128: u128 = le_read(v, pos, 8);
        proof {
            let s = suffix_from(v@, pos as int);
            assert(s.subrange(0, 8) =~= v@.subrange(pos as int, pos + 8));
            assert(suffix_from(s, 8) =~= suffix_from(v@, pos + 8));
            lemma_le_val_bound(s.subrange(0, 8));
            lemma_pow256_values();
        }
        Some((n128 as u64, pos + 8))
    } else {
        None
    }
}

/// Reads the length-prefixed byte field at `pos`.
fn read_bytes_field(v: &Vec<u8>, pos: usize) -> (r: Option<(Vec<u8>, usize)>)
    requires
        pos <= v@.len(),
    ensures
        match r {
            Option::Some((b, p2)) => dec_bytes_field(suffix_from(v@, pos as int))
                == Option::Some((b@, suffix_from(v@, p2 as int))) && pos <= p2 <= v@.len(),
            Option::None => dec_bytes_field(suffix_from(v@, pos as int)) is None,
        },
{
    let vl: usize = v.len();
    let (n, p1) = match read_u64_field(v, pos) {
        Some(x) => x,
        None => {
            return None;
        },
    };
    let rem: usize = vl - p1;
    if n > rem as u64 {
        proof {
            let s = suffix_from(v@, pos as int);
            assert(suffix_from(v@, p1 as int).len() == rem);
        }
        return None;
    }
    let nn: usize = n as usize;
    let mut b: Vec<u8> = Vec::new();
    let mut j: usize = 0;
    while j < nn
        invariant
            0 <= j <= nn,
            p1 + nn <= v@.len(),
            vl == v@.len(),
            b@ =~= v@.subrange(p1 as int, p1 + j),
        decreases nn - j,
    {
        assert(p1 + j < vl);
        let byte: u8 = v[p1 + j];
        b.push(byte);
        proof {
            assert(b@ =~= v@.subrange(p1 as int, p1 + j + 1));
        }
        j += 1;
    }
    proof {
        let s = suffix_from(v@, pos as int);
        let rest = suffix_from(v@, p1 as int);
        assert(rest.subrange(0, nn as int) =~= v@.subrange(p1 as int, p1 + nn));
        assert(suffix_from(rest, nn as int) =~= suffix_from(v@, p1 + nn));
    }
    Some((b, p1 + nn))
}

/// Reads the signed 128-bit field at `pos`.
fn read_i128_field(v: &Vec<u8>, pos: usize) -> (r: Option<(i128, usize)>)
    requires
        pos <= v@.len(),
    ensures
        match r {
            Option::Some((x, p2)) => dec_i128_field(suffix_from(v@, pos as int))
                == Option::Some((x, suffix_from(v@, p2 as int))) && pos <= p2 <= v@.len(),
            Option::None => dec_i128_field(suffix_from(v@, pos as int)) is None,
        },
{
    let vl: usize = v.len();
    if vl - pos >= 17 {
        proof {
            let s = suffix_from(v@, pos as int);
            assert(s.subrange(0, 17) =~= v@.subrange(pos as int, pos + 17));
            assert(suffix_from(s, 17) =~= suffix_from(v@, pos + 17));
        }
        match i128_read(v, pos) {
            Some(x) => Some((x, pos + 17)),
            None => None,
        }
    } else {
        None
    }
}

/// Reads `cnt` `(token, amount)` pairs at `pos`.
fn read_pairs(v: &Vec<u8>, pos: usize, cnt: u64) -> (r: Option<(Vec<(Vec<u8>, i128)>, usize)>)
    requires
        pos <= v@.len(),
    ensures
        match r {
            Option::Some((ps, p2)) => dec_pairs(suffix_from(v@, pos as int), cnt as nat)
                == Option::Some((crate::types::pairs_model(ps@), suffix_from(v@, p2 as int)))
                && pos <= p2 <= v@.len(),
            Option::None => dec_pairs(suffix_from(v@, pos as int), cnt as nat) is None,
        },
    decreases cnt,
{
    if cnt == 0 {
        let ps: Vec<(Vec<u8>, i128)> = Vec::new();
        proof {
            assert(crate::types::pairs_model(ps@) =~= Seq::<(Seq<u8>, i128)>::empty());
        }
        return Some((ps, pos));
    }
    let (tok, p1) = match read_bytes_field(v, pos) {
        Some(x) => x,
        None => {
            return None;
        },
    };
    let (amt, p2) = match read_i128_field(v, p1) {
        Some(x) => x,
        None => {
            return None;
        },
    };
    match read_pairs(v, p2, cnt - 1) {
        Some((mut ps, p3)) => {
            let ghost tail = crate::types::pairs_model(ps@);
            ps.insert(0, (tok, amt));
            proof {
                assert(crate::types::pairs_model(ps@) =~= seq![(tok@, amt)] + tail);
            }
            Some((ps, p3))
        },
        None => None,
    }
}

/// Reads `cnt` address entries at `pos`.
fn read_entries(v: &Vec<u8>, pos: usize, cnt: u64) -> (r: Option<
    (Vec<(Vec<u8>, Vec<(Vec<u8>, i128)>)>, usize),
>)
    requires
        pos <= v@.len(),
    ensures
        match r {
            Option::Some((es, p2)) => dec_entries(suffix_from(v@, pos as int), cnt as nat)
                == Option::Some((crate::types::deltas_model(es@), suffix_from(v@, p2 as int)))
                && pos <= p2 <= v@.len(),
            Option::None => dec_entries(suffix_from(v@, pos as int), cnt as nat) is None,
        },
    decreases cnt,
{
    if cnt == 0 {
        let es: Vec<(Vec<u8>, Vec<(Vec<u8>, i128)>)> = Vec::new();
        proof {
            assert(crate::types::deltas_model(es@) =~= Seq::<
                (Seq<u8>, Seq<(Seq<u8>, i128)>),
            >::empty());
        }
        return Some((es, pos));
    }
    let (addr, p1) = match read_bytes_field(v, pos) {
        Some(x) => x,
        None => {
            return None;
        },
    };
    let (pcnt, p2) = match read_u64_field(v, p1) {
        Some(x) => x,
        None => {
            return None;
        },
    };
    let (ps, p3) = match read_pairs(v, p2, pcnt) {
        Some(x) => x,
        None => {
            return None;
        },
    };
    match read_entries(v, p3, cnt - 1) {
        Some((mut es, p4)) => {
            let ghost tail = crate::types::deltas_model(es@);
            es.insert(0, (addr, ps));
            proof {
                assert(crate::types::deltas_model(es@) =~= seq![
                    (addr@, crate::types::pairs_model(ps@)),
                ] + tail);
            }
            Some((es, p4))
        },
        None => None,
    }
}

/// Decodes a delta frame; a malformed or unknown-version frame is refused.
pub fn decode_delta(v: &Vec<u8>) -> (r: Option<DeltaRecord>)
    ensures
        match r {
            Option::Some(rec) => delta_dec(v@) == Option::Some(rec@),
            Option::None => delta_dec(v@) is None,
        },
{
    let vl: usize = v.len();
    if vl < 2 {
        return None;
    }
    if v[0] != FRAME_VERSION {
        return None;
    }
    let st = match byte_to_status(v[1]) {
        Some(st) => st,
        None => {
            return None;
        },
    };
    let (cnt, p1) = match read_u64_field(v, 2) {
        Some(x) => x,
        None => {
            return None;
        },
    };
    let (es, p2) = match read_entries(v, p1, cnt) {
        Some(x) => x,
        None => {
            return None;
        },
    };
    if p2 != vl {
        proof {
            assert(suffix_from(v@, p2 as int).len() != 0);
        }
        return None;
    }
    proof {
        assert(suffix_from(v@, p2 as int).len() == 0);
    }
    Some(DeltaRecord { status: st, deltas: es })
}

} // verus!
