//! Little-endian decoding of fixed-width unsigned integers.
use vstd::prelude::*;

verus! {

/// The value of `b` read as an unsigned little-endian integer.
pub open spec fn le_value(b: Seq<u8>) -> nat
    decreases b.len(),
{
    if b.len() == 0 {
        0
    } else {
        b[0] as nat + 256 * le_value(b.drop_first())
    }
}

/// `256` to the power `n`.
pub open spec fn pow256(n: nat) -> nat
    decreases n,
{
    if n == 0 {
        1
    } else {
        256 * pow256((n - 1) as nat)
    }
}

/// A little-endian value of `n` bytes is below `256^n`.
pub proof fn lemma_le_value_bound(b: Seq<u8>)
    ensures
        le_value(b) < pow256(b.len()),
    decreases b.len(),
{
    if b.len() > 0 {
        lemma_le_value_bound(b.drop_first());
        assert(b.drop_first().len() == (b.len() - 1) as nat);
    }
}

/// Reads `b[start..start + width]` as a little-endian integer, most
/// significant byte first (Horner's rule).
fn le_fold(b: &[u8], start: usize, width: usize) -> (r: u64)
    requires
        width <= 8,
        start + width <= b@.len(),
    ensures
        r as nat == le_value(b@.subrange(start as int, start + width)),
{
    let n: usize = b.len();
    let mut acc: u64 = 0;
    let mut k: usize = width;
    proof {
        assert(b@.subrange(start + width, start + width).len() == 0);
    }
    while k > 0
        invariant
            k <= width <= 8,
            start + width <= n == b@.len(),
            acc as nat == le_value(b@.subrange(start + k, start + width)),
            (acc as nat) < pow256((width - k) as nat),
        decreases k,
    {
        let ghost tail = b@.subrange(start + k, start + width);
        let ghost full = b@.subrange(start + k - 1, start + width);
        proof {
            assert(full.drop_first() =~= tail);
            assert(pow256((width - k + 1) as nat) == 256 * pow256((width - k) as nat));
            assert(pow256((width - k + 1) as nat) <= pow256(8)) by {
                lemma_pow256_mono((width - k + 1) as nat, 8);
            }
            lemma_pow256_eight();
        }
        acc = (b[start + k - 1] as u64) + 256 * acc;
        k = k - 1;
    }
    acc
}

proof fn lemma_pow256_mono(a: nat, b: nat)
    requires
        a <= b,
    ensures
        pow256(a) <= pow256(b),
    decreases b - a,
{
    if a < b {
        lemma_pow256_mono(a, (b - 1) as nat);
    }
}

/// `256^8` is `2^64`.
pub proof fn lemma_pow256_eight()
    ensures
        pow256(8) == 18446744073709551616,
{
    reveal_with_fuel(pow256, 9);
}

/// Reads the four bytes at `start` as an unsigned little-endian integer.
pub fn le_u32(b: &[u8], start: usize) -> (r: u32)
    requires
        start + 4 <= b@.len(),
    ensures
        r as nat == le_value(b@.subrange(start as int, start + 4)),
{
    let v = le_fold(b, start, 4);
    proof {
        lemma_le_value_bound(b@.subrange(start as int, start + 4));
        reveal_with_fuel(pow256, 5);
        assert(pow256(4) == 4294967296);
    }
    v as u32
}

/// Reads the eight bytes at `start` as an unsigned little-endian integer.
pub fn le_u64(b: &[u8], start: usize) -> (r: u64)
    requires
        start + 8 <= b@.len(),
    ensures
        r as nat == le_value(b@.subrange(start as int, start + 8)),
{
    le_fold(b, start, 8)
}

} // verus!
