//! Bit-level model shared by the bit-packed boolean containers: what it means
//! for a bit to be set in a byte, how a sequence of booleans is packed eight
//! per byte, and how the single-bit masking operations act on that packing.

use vstd::prelude::*;

verus! {

/// True when bit `k` of `byte` is set, counting from the least significant bit.
pub open spec fn bit_at(byte: u8, k: usize) -> bool {
    (byte >> k) & 1 == 1
}

/// The first `len` bits packed eight per byte, little-bit-first, in `bytes`:
/// bit `i` lives in byte `i / 8` at position `i % 8`.
pub open spec fn packed_bits(bytes: Seq<u8>, len: nat) -> Seq<bool> {
    Seq::new(len, |i: int| bit_at(bytes[i / 8], (i % 8) as usize))
}

/// Setting bit `k` of a byte with a bitwise `or` leaves every other bit alone.
pub proof fn lemma_or_bit(b: u8, k: usize, j: usize)
    by (bit_vector)
    requires
        k < 8,
        j < 8,
    ensures
        bit_at(b | (1u8 << k), k),
        j != k ==> bit_at(b | (1u8 << k), j) == bit_at(b, j),
{
}

/// Clearing bit `k` of a byte with a masked `and` leaves every other bit alone.
pub proof fn lemma_and_not_bit(b: u8, k: usize, j: usize)
    by (bit_vector)
    requires
        k < 8,
        j < 8,
    ensures
        !bit_at(b & !(1u8 << k), k),
        j != k ==> bit_at(b & !(1u8 << k), j) == bit_at(b, j),
{
}

/// Flipping bit `k` of a byte with an `xor` negates it and leaves every other
/// bit alone.
pub proof fn lemma_xor_bit(b: u8, k: usize, j: usize)
    by (bit_vector)
    requires
        k < 8,
        j < 8,
    ensures
        bit_at(b ^ (1u8 << k), k) == !bit_at(b, k),
        j != k ==> bit_at(b ^ (1u8 << k), j) == bit_at(b, j),
{
}

/// Reading bit `k` of a byte with a shift and a mask yields one exactly when
/// the bit is set, and zero otherwise.
pub proof fn lemma_read_bit(b: u8, k: usize)
    by (bit_vector)
    requires
        k < 8,
    ensures
        (b >> k) & 1 == if bit_at(b, k) { 1u8 } else { 0u8 },
{
}

/// How a bit index `i` inside a packing of `l` bits relates to its byte
/// index `i / 8` and the byte count `(l + 7) / 8` of the packing.
pub proof fn lemma_bit_index(i: int, l: int)
    requires
        0 <= i < l,
    ensures
        0 <= i / 8 <= l / 8,
        0 <= i % 8 < 8,
        i / 8 == l / 8 ==> i % 8 < l % 8,
        i / 8 < (l + 7) / 8,
{
}

/// How the byte count of a packing grows when one bit is appended: a fresh
/// byte is needed exactly when the new bit starts a byte boundary.
pub proof fn lemma_push_grows(l: int)
    requires
        0 <= l,
    ensures
        l % 8 == 0 ==> (l + 7) / 8 == l / 8 && (l + 1 + 7) / 8 == l / 8 + 1,
        l % 8 != 0 ==> (l + 1 + 7) / 8 == (l + 7) / 8 && l / 8 < (l + 7) / 8,
{
}

/// How the byte count of a packing shrinks when the last bit is removed: a
/// byte is freed exactly when the removed bit sat on a byte boundary.
pub proof fn lemma_pop_shrinks(l: int)
    requires
        1 <= l,
    ensures
        (l - 1) % 8 == 0 ==> (l - 1 + 7) / 8 == (l + 7) / 8 - 1 && (l - 1) / 8 == (l + 7) / 8 - 1,
        (l - 1) % 8 != 0 ==> (l - 1 + 7) / 8 == (l + 7) / 8,
        (l - 1) / 8 < (l + 7) / 8,
{
}

/// The push/pop inverse law. Pushing the bits of `s` in order onto a
/// sequence holding `v` leaves `v + s`, one appended bit at a time; each
/// following pop returns the last bit and drops it. So before the `j`-th of
/// those pops the sequence is `v + s` shortened by `j` bits, and that pop
/// returns `s[s.len() - 1 - j]`: the pushed bits come back in exact reverse
/// order, unwinding to the state before the pushes.
pub proof fn lemma_push_pop_inverse(v: Seq<bool>, s: Seq<bool>, j: int)
    requires
        0 <= j < s.len(),
    ensures
        (v + s).take(v.len() as int + s.len() as int) == v + s,
        (v + s).take(v.len() as int + s.len() as int - j).last() == s[s.len() - 1 - j],
        (v + s).take(v.len() as int + s.len() as int - j).drop_last() == (v + s).take(
            v.len() as int + s.len() as int - (j + 1),
        ),
{
    assert((v + s).take(v.len() as int + s.len() as int) =~= v + s);
    assert((v + s).take(v.len() as int + s.len() as int - j).drop_last() =~= (v + s).take(
        v.len() as int + s.len() as int - (j + 1),
    ));
}

/// The swap law: after exchanging the bits at `a` and `b`, position `a`
/// reads the old bit at `b` and position `b` the old bit at `a`, while
/// every other position is unchanged.
pub proof fn lemma_swap_law(pre: Seq<bool>, post: Seq<bool>, a: int, b: int)
    requires
        0 <= a < pre.len(),
        0 <= b < pre.len(),
        a != b,
        post == pre.update(a, pre[b]).update(b, pre[a]),
    ensures
        post.len() == pre.len(),
        post[a] == pre[b],
        post[b] == pre[a],
        forall|i: int| 0 <= i < pre.len() && i != a && i != b ==> post[i] == pre[i],
{
}

} // verus!
