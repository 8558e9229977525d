//! Little-endian number fields of the value frames, with their round-trip
//! lemmas: every multi-byte integer a frame stores goes through these.

use vstd::prelude::*;

verus! {

/// `256^n`: the number of byte strings of length `n`.
pub open spec fn pow256(n: nat) -> nat
    decreases n,
{
    if n == 0 {
        1
    } else {
        256 * pow256((n - 1) as nat)
    }
}

/// The `n` little-endian bytes of `x`.
pub open spec fn le_bytes(x: nat, n: nat) -> Seq<u8>
    decreases n,
{
    if n == 0 {
        Seq::empty()
    } else {
        seq![(x % 256) as u8] + le_bytes(x / 256, (n - 1) as nat)
    }
}

/// The number read from a little-endian byte string.
pub open spec fn le_val(s: Seq<u8>) -> nat
    decreases s.len(),
{
    if s.len() == 0 {
        0
    } else {
        (s[0] as nat) + 256 * le_val(s.drop_first())
    }
}

pub proof fn lemma_le_bytes_len(x: nat, n: nat)
    ensures
        le_bytes(x, n).len() == n,
    decreases n,
{
    if n > 0 {
        lemma_le_bytes_len(x / 256, (n - 1) as nat);
    }
}

pub proof fn lemma_le_val_bound(s: Seq<u8>)
    ensures
        le_val(s) < pow256(s.len()),
    decreases s.len(),
{
    if s.len() == 0 {
    } else {
        lemma_le_val_bound(s.drop_first());
        let v = le_val(s.drop_first());
        let p = pow256(s.drop_first().len());
        assert(v < p);
        assert(256 * v <= 256 * (p - 1)) by (nonlinear_arith)
            requires
                v < p,
        ;
        assert(le_val(s) == s[0] + 256 * v);
        assert(s[0] < 256);
        assert(pow256(s.len()) == 256 * p);
    }
}

/// Reading back the `n` little-endian bytes of `x < 256^n` yields `x`.
pub proof fn lemma_le_roundtrip(x: nat, n: nat)
    requires
        x < pow256(n),
    ensures
        le_val(le_bytes(x, n)) == x,
    decreases n,
{
    if n == 0 {
    } else {
        let q = x / 256;
        let r = x % 256;
        assert(x == 256 * q + r && r < 256 && q >= 0) by (nonlinear_arith)
            requires
                x >= 0,
                q == x / 256,
                r == x % 256,
        ;
        lemma_pow256_pos((n - 1) as nat);
        assert(q < pow256((n - 1) as nat)) by (nonlinear_arith)
            requires
                x < 256 * pow256((n - 1) as nat),
                q == x / 256,
                x >= 0,
                pow256((n - 1) as nat) >= 1,
        ;
        lemma_le_roundtrip(q, (n - 1) as nat);
        lemma_le_bytes_len(q, (n - 1) as nat);
        let s = le_bytes(x, n);
        assert(s[0] == r as u8);
        assert(s.drop_first() =~= le_bytes(q, (n - 1) as nat));
        assert(le_val(s) == r + 256 * q);
    }
}

/// `256^n` grows with `n`.
pub proof fn lemma_pow256_increases(m: nat, n: nat)
    requires
        m <= n,
    ensures
        pow256(m) <= pow256(n),
    decreases n,
{
    if m < n {
        lemma_pow256_increases(m, (n - 1) as nat);
        let p = pow256((n - 1) as nat);
        lemma_pow256_pos((n - 1) as nat);
        assert(p <= 256 * p) by (nonlinear_arith)
            requires
                p >= 1,
        ;
        assert(pow256(n) == 256 * p);
    }
}

pub proof fn lemma_pow256_pos(n: nat)
    ensures
        pow256(n) >= 1,
    decreases n,
{
    if n > 0 {
        lemma_pow256_pos((n - 1) as nat);
    }
}

/// Concrete sizes of the fields the frames use.
pub proof fn lemma_pow256_values()
    ensures
        pow256(8) == 0x1_0000_0000_0000_0000,
        pow256(16) == 0x1_0000_0000_0000_0000_0000_0000_0000_0000,
{
    assert(pow256(0) == 1);
    assert(pow256(1) == 0x100);
    assert(pow256(2) == 0x10000);
    assert(pow256(3) == 0x1000000);
    assert(pow256(4) == 0x100000000);
    assert(pow256(5) == 0x10000000000);
    assert(pow256(6) == 0x1000000000000);
    assert(pow256(7) == 0x100000000000000);
    assert(pow256(8) == 0x10000000000000000);
    assert(pow256(9) == 0x1000000000000000000);
    assert(pow256(10) == 0x100000000000000000000);
    assert(pow256(11) == 0x10000000000000000000000);
    assert(pow256(12) == 0x1000000000000000000000000);
    assert(pow256(13) == 0x100000000000000000000000000);
    assert(pow256(14) == 0x10000000000000000000000000000);
    assert(pow256(15) == 0x1000000000000000000000000000000);
    assert(pow256(16) == 0x100000000000000000000000000000000);
}

/// Appends the `n` little-endian bytes of `x` to `out`.
/// The magnitude must fit: `x < 256^n`.
pub fn le_append(out: &mut Vec<u8>, x: u128, n: usize)
    requires
        (x as nat) < pow256(n as nat),
    ensures
        final(out)@ == old(out)@ + le_bytes(x as nat, n as nat),
{
    let mut cur: u128 = x;
    let mut i: usize = 0;
    proof {
        assert(old(out)@ + le_bytes(x as nat, (n - n) as nat) =~= old(out)@);
    }
    while i < n
        invariant
            0 <= i <= n,
            (cur as nat) < pow256((n - i) as nat),
            old(out)@ + le_bytes(x as nat, n as nat) == out@ + le_bytes(cur as nat, (n - i) as nat),
        decreases n - i,
    {
        let b: u8 = (cur % 256) as u8;
        proof {
            let c = cur as nat;
            let m = (n - i) as nat;
            assert(le_bytes(c, m) == seq![(c % 256) as u8] + le_bytes(c / 256, (m - 1) as nat));
            assert(out@.push(b) + le_bytes(c / 256, (m - 1) as nat) =~= out@ + le_bytes(c, m));
            assert((c / 256) < pow256((m - 1) as nat)) by (nonlinear_arith)
                requires
                    c < 256 * pow256((m - 1) as nat),
                    c >= 0,
            ;
        }
        out.push(b);
        cur = cur / 256;
        i += 1;
    }
    proof {
        assert(le_bytes(cur as nat, 0) =~= Seq::<u8>::empty());
        assert(out@ + Seq::<u8>::empty() =~= out@);
    }
}

/// Reads the `n`-byte little-endian field at `pos`. The field must fit in a
/// `u128`, so `n` is at most 16.
pub fn le_read(v: &Vec<u8>, pos: usize, n: usize) -> (r: u128)
    requires
        n <= 16,
        pos + n <= v@.len(),
    ensures
        r as nat == le_val(v@.subrange(pos as int, pos + n)),
{
    let mut acc: u128 = 0;
    let mut j: usize = n;
    let vl: usize = v.len();
    proof {
        assert(v@.subrange(pos + n, pos + n) =~= Seq::<u8>::empty());
    }
    while j > 0
        invariant
            0 <= j <= n <= 16,
            vl == v@.len(),
            pos + n <= v@.len(),
            acc as nat == le_val(v@.subrange(pos + j, pos + n)),
            (acc as nat) < pow256((n - j) as nat),
        decreases j,
    {
        j -= 1;
        assert(pos + j < vl);
        let b: u8 = v[pos + j];
        proof {
            let s = v@.subrange(pos + j, pos + n);
            assert(s.len() == n - j);
            assert(s[0] == b);
            assert(s.drop_first() =~= v@.subrange(pos + j + 1, pos + n));
            assert(le_val(s) == b + 256 * le_val(s.drop_first()));
            lemma_pow256_increases((n - j - 1) as nat, 15);
            assert(pow256(15) * 256 == pow256(16)) by {
                assert(pow256(16) == 256 * pow256(15));
            }
            lemma_pow256_values();
            let a = acc as nat;
            assert(b + 256 * a < 256 * pow256((n - j - 1) as nat)) by (nonlinear_arith)
                requires
                    a < pow256((n - j - 1) as nat),
                    b < 256,
            ;
            assert(256 * pow256((n - j - 1) as nat) == pow256((n - j) as nat));
            assert(pow256((n - j) as nat) <= pow256(16)) by {
                lemma_pow256_increases((n - j) as nat, 16);
            }
        }
        acc = acc * 256 + (b as u128);
        proof {
            assert(acc as nat == b + 256 * (le_val(v@.subrange(pos + j + 1, pos + n))));
        }
    }
    proof {
        assert(v@.subrange(pos as int, pos + n) =~= v@.subrange(pos + 0, pos + n));
    }
    acc
}

} // verus!
