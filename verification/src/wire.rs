//! Little-endian byte encoding of unsigned integers: the base layer of the
//! wire format. Fixed-width integers and length prefixes are laid down as
//! `n` little-endian bytes; `le_bytes` and `le_val` are the mathematical
//! encoding and decoding, and the lemmas tie them together.

use vstd::prelude::*;

verus! {

/// 256 to the power `n`: the number of values that fit in `n` bytes.
pub open spec fn pow256(n: nat) -> nat
    decreases n,
{
    if n == 0 {
        1
    } else {
        256 * pow256((n - 1) as nat)
    }
}

/// The `n` little-endian bytes of `x` (the low byte first).
pub open spec fn le_bytes(x: nat, n: nat) -> Seq<u8>
    decreases n,
{
    if n == 0 {
        Seq::empty()
    } else {
        seq![(x % 256) as u8] + le_bytes(x / 256, (n - 1) as nat)
    }
}

/// The value of a little-endian byte string.
pub open spec fn le_val(s: Seq<u8>) -> nat
    decreases s.len(),
{
    if s.len() == 0 {
        0
    } else {
        s[0] as nat + 256 * le_val(s.drop_first())
    }
}

pub proof fn lemma_le_bytes_len(x: nat, n: nat)
    ensures
        le_bytes(x, n).len() == n,
    decreases n,
{
    if n > 0 {
        lemma_le_bytes_len(x / 256, (n - 1) as nat);
    }
}

/// Decoding the little-endian bytes of `x` gives `x` back, as long as `x`
/// fits in `n` bytes.
pub proof fn lemma_le_round_trip(x: nat, n: nat)
    requires
        x < pow256(n),
    ensures
        le_val(le_bytes(x, n)) == x,
    decreases n,
{
    if n == 0 {
    } else {
        assert(x == 256 * (x / 256) + x % 256) by {
            vstd::arithmetic::div_mod::lemma_fundamental_div_mod(x as int, 256);
        }
        assert(x / 256 < pow256((n - 1) as nat)) by {
            if x / 256 >= pow256((n - 1) as nat) {
                assert(256 * (x / 256) >= 256 * pow256((n - 1) as nat)) by (nonlinear_arith)
                    requires
                        x / 256 >= pow256((n - 1) as nat),
                ;
            }
        }
        lemma_le_round_trip(x / 256, (n - 1) as nat);
        let s = le_bytes(x, n);
        assert(s.drop_first() =~= le_bytes(x / 256, (n - 1) as nat));
    }
}

/// A little-endian byte string of length `n` holds a value below `pow256(n)`.
pub proof fn lemma_le_val_bound(s: Seq<u8>)
    ensures
        le_val(s) < pow256(s.len()),
    decreases s.len(),
{
    if s.len() > 0 {
        lemma_le_val_bound(s.drop_first());
        let p = pow256((s.len() - 1) as nat);
        assert(le_val(s.drop_first()) <= p - 1);
        assert(256 * le_val(s.drop_first()) <= 256 * (p - 1)) by (nonlinear_arith)
            requires
                le_val(s.drop_first()) <= p - 1,
        ;
    }
}

/// The byte widths the wire format uses, as concrete powers.
pub proof fn lemma_pow256_values()
    ensures
        pow256(1) == 0x100,
        pow256(4) == 0x1_0000_0000,
        pow256(8) == 0x1_0000_0000_0000_0000,
        pow256(16) == 0x1_0000_0000_0000_0000_0000_0000_0000_0000,
{
    assert(pow256(0) == 1);
    assert(pow256(1) == 0x100);
    assert(pow256(2) == 0x1_0000);
    assert(pow256(3) == 0x100_0000);
    assert(pow256(4) == 0x1_0000_0000);
    assert(pow256(5) == 0x100_0000_0000);
    assert(pow256(6) == 0x1_0000_0000_0000);
    assert(pow256(7) == 0x100_0000_0000_0000);
    assert(pow256(8) == 0x1_0000_0000_0000_0000);
    assert(pow256(9) == 0x100_0000_0000_0000_0000);
    assert(pow256(10) == 0x1_0000_0000_0000_0000_0000);
    assert(pow256(11) == 0x100_0000_0000_0000_0000_0000);
    assert(pow256(12) == 0x1_0000_0000_0000_0000_0000_0000);
    assert(pow256(13) == 0x100_0000_0000_0000_0000_0000_0000);
    assert(pow256(14) == 0x1_0000_0000_0000_0000_0000_0000_0000);
    assert(pow256(15) == 0x100_0000_0000_0000_0000_0000_0000_0000);
    assert(pow256(16) == 0x1_0000_0000_0000_0000_0000_0000_0000_0000);
}

/// Append the `n` little-endian bytes of `x` to `out`.
pub fn push_le(out: &mut Vec<u8>, x: u128, n: usize)
    ensures
        final(out)@ == old(out)@ + le_bytes(x as nat, n as nat),
    decreases n,
{
    proof {
        lemma_le_bytes_len(x as nat, n as nat);
    }
    if n == 0 {
        assert(final(out)@ =~= old(out)@ + le_bytes(x as nat, 0));
    } else {
        out.push((x % 256) as u8);
        push_le(out, x / 256, n - 1);
        assert(final(out)@ =~= old(out)@ + le_bytes(x as nat, n as nat));
    }
}

/// Read the `n`-byte little-endian value stored at offset `i` of `buf`.
pub fn read_le(buf: &Vec<u8>, i: usize, n: usize) -> (r: u128)
    requires
        i + n <= buf@.len(),
        n <= 16,
    ensures
        r as nat == le_val(buf@.subrange(i as int, i + n)),
    decreases n,
{
    if n == 0 {
        assert(le_val(buf@.subrange(i as int, i as int)) == 0);
        0
    } else {
        let _blen = buf.len();
        let lo = buf[i];
        let hi = read_le(buf, i + 1, n - 1);
        proof {
            let s = buf@.subrange(i as int, i + n);
            let t = buf@.subrange(i + 1, i + n);
            assert(s.drop_first() =~= t);
            lemma_le_val_bound(t);
            lemma_pow256_values();
            assert(pow256(t.len()) <= pow256(15)) by {
                lemma_pow256_increases(t.len(), 15);
            }
            assert(256 * (hi as nat) <= 256 * (pow256(15) - 1)) by (nonlinear_arith)
                requires
                    hi as nat <= pow256(15) - 1,
            ;
        }
        lo as u128 + 256 * hi
    }
}

/// `pow256` grows with its exponent.
pub proof fn lemma_pow256_increases(a: nat, b: nat)
    requires
        a <= b,
    ensures
        pow256(a) <= pow256(b),
    decreases b,
{
    if a < b {
        lemma_pow256_increases(a, (b - 1) as nat);
        assert(pow256(b) == 256 * pow256((b - 1) as nat));
        assert(256 * pow256((b - 1) as nat) >= 1 * pow256((b - 1) as nat)) by (nonlinear_arith);
    }
}

} // verus!
