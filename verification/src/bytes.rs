//! Reading fixed-width integers out of byte strings.

use vstd::prelude::*;

verus! {

/// `256^k`.
pub open spec fn pow256(k: nat) -> nat
    decreases k,
{
    if k == 0 {
        1
    } else {
        256 * pow256((k - 1) as nat)
    }
}

/// Unsigned value of `b` read big-endian (first byte most significant).
pub open spec fn be_value(b: Seq<u8>) -> nat
    decreases b.len(),
{
    if b.len() == 0 {
        0
    } else {
        (be_value(b.drop_last()) * 256 + b.last()) as nat
    }
}

/// Unsigned value of `b` read little-endian (first byte least significant).
pub open spec fn le_value(b: Seq<u8>) -> nat
    decreases b.len(),
{
    if b.len() == 0 {
        0
    } else {
        (b[0] + 256 * le_value(b.drop_first())) as nat
    }
}

pub proof fn lemma_pow256_16()
    ensures
        pow256(16) == 0x1_0000_0000_0000_0000_0000_0000_0000_0000int,
        pow256(8) == 0x1_0000_0000_0000_0000int,
{
    reveal_with_fuel(pow256, 17);
}

/// Splitting a big-endian string: the high part is shifted by the length
/// of the low part.
pub proof fn lemma_be_concat(a: Seq<u8>, b: Seq<u8>)
    ensures
        be_value(a + b) == be_value(a) * pow256(b.len()) + be_value(b),
    decreases b.len(),
{
    if b.len() == 0 {
        assert(a + b =~= a);
        assert(pow256(0) == 1);
    } else {
        assert((a + b).drop_last() =~= a + b.drop_last());
        assert((a + b).last() == b.last());
        lemma_be_concat(a, b.drop_last());
        assert(pow256(b.len()) == 256 * pow256((b.len() - 1) as nat));
        let x = be_value(a);
        let p = pow256((b.len() - 1) as nat);
        let y = be_value(b.drop_last());
        assert((x * p + y) * 256 + b.last() == x * (256 * p) + (y * 256 + b.last()))
            by (nonlinear_arith);
        assert(be_value(b) == y * 256 + b.last());
        assert(be_value(a + b) == be_value((a + b).drop_last()) * 256 + (a + b).last());
        assert(be_value((a + b).drop_last()) == x * p + y);
    }
}

/// Reads 16 bytes starting at `start` as a big-endian `u128`.
pub fn be_u128_at(bytes: &[u8], start: usize) -> (v: u128)
    requires
        start + 16 <= bytes@.len(),
    ensures
        v == be_value(bytes@.subrange(start as int, start + 16)),
{
    let mut acc: u128 = 0;
    let mut i: usize = 0;
    let n = bytes.len();
    proof {
        lemma_pow256_16();
    }
    while i < 16
        invariant
            n == bytes@.len(),
            start + 16 <= bytes@.len(),
            i <= 16,
            acc == be_value(bytes@.subrange(start as int, start + i)),
            acc < pow256(i as nat),
            pow256(16) == 0x1_0000_0000_0000_0000_0000_0000_0000_0000int,
        decreases 16 - i,
    {
        proof {
            assert(pow256((i + 1) as nat) == 256 * pow256(i as nat));
            if i < 15 {
                lemma_pow256_mono((i + 1) as nat, 16);
            }
        }
        let b = bytes[start + i];
        assert(acc * 256 + b < pow256((i + 1) as nat)) by (nonlinear_arith)
            requires
                acc < pow256(i as nat),
                b < 256,
                pow256((i + 1) as nat) == 256 * pow256(i as nat),
        ;
        acc = acc * 256 + b as u128;
        assert(bytes@.subrange(start as int, start + i + 1).drop_last() =~= bytes@.subrange(
            start as int,
            start + i,
        ));
        i = i + 1;
    }
    acc
}

proof fn lemma_pow256_mono(a: nat, b: nat)
    requires
        a <= b,
    ensures
        pow256(a) <= pow256(b),
    decreases b,
{
    if a < b {
        lemma_pow256_mono(a, (b - 1) as nat);
    }
}

/// Reads 8 bytes starting at `offset` as a little-endian `u64`; `None`
/// when they are not all present.
pub fn read_u64_le(data: &[u8], offset: usize) -> (r: Option<u64>)
    requires
        offset + 8 <= usize::MAX,
    ensures
        (r is Some) <==> offset + 8 <= data@.len(),
        r matches Some(v) ==> v == le_value(data@.subrange(offset as int, offset + 8)),
{
    if offset + 8 > data.len() {
        return None;
    }
    proof {
        lemma_pow256_16();
    }
    let mut acc: u64 = 0;
    let mut i: usize = 8;
    let n = data.len();
    while i > 0
        invariant
            n == data@.len(),
            offset + 8 <= data@.len(),
            i <= 8,
            acc == le_value(data@.subrange(offset + i, offset + 8)),
            acc < pow256((8 - i) as nat),
            pow256(8) == 0x1_0000_0000_0000_0000int,
        decreases i,
    {
        proof {
            assert(pow256((9 - i) as nat) == 256 * pow256((8 - i) as nat));
            lemma_pow256_mono((9 - i) as nat, 8);
        }
        let b = data[offset + i - 1];
        assert(b + 256 * acc < pow256((9 - i) as nat)) by (nonlinear_arith)
            requires
                acc < pow256((8 - i) as nat),
                b < 256,
                pow256((9 - i) as nat) == 256 * pow256((8 - i) as nat),
        ;
        acc = b as u64 + 256 * acc;
        assert(data@.subrange(offset + i - 1, offset + 8).drop_first() =~= data@.subrange(
            offset + i,
            offset + 8,
        ));
        i = i - 1;
    }
    Some(acc)
}

/// Copies 20 bytes starting at `start` into an array.
pub fn array20_at(bytes: &[u8], start: usize) -> (a: [u8; 20])
    requires
        start + 20 <= bytes@.len(),
    ensures
        a@ == bytes@.subrange(start as int, start + 20),
{
    let mut a = [0u8; 20];
    let mut i: usize = 0;
    let n = bytes.len();
    while i < 20
        invariant
            n == bytes@.len(),
            start + 20 <= bytes@.len(),
            i <= 20,
            a@.len() == 20,
            forall|j: int| 0 <= j < i ==> a@[j] == bytes@[start + j],
        decreases 20 - i,
    {
        a.set(i, bytes[start + i]);
        i = i + 1;
    }
    assert(a@ =~= bytes@.subrange(start as int, start + 20));
    a
}

} // verus!
