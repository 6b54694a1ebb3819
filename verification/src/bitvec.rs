//! The validity-bitmap variant of the bit-packed boolean sequence: the same
//! packing as [`crate::bitmap`], plus a running count of `false` bits so that
//! null counts are answered without scanning, and a restartable forward
//! iterator reading straight from the packed buffer.

use vstd::prelude::*;

use crate::bitops::{
    bit_at, lemma_and_not_bit, lemma_bit_index, lemma_or_bit, lemma_pop_shrinks,
    lemma_push_grows, lemma_read_bit, lemma_xor_bit, packed_bits,
};

verus! {

/// The number of `false` bits in `s`: the null count of a validity bitmap.
pub open spec fn count_nulls(s: Seq<bool>) -> nat
    decreases s.len(),
{
    if s.len() == 0 {
        0
    } else {
        count_nulls(s.drop_last()) + if s.last() {
            0nat
        } else {
            1nat
        }
    }
}

/// Appending a bit raises the null count exactly when the bit is `false`.
pub proof fn lemma_count_nulls_push(s: Seq<bool>, b: bool)
    ensures
        count_nulls(s.push(b)) == count_nulls(s) + if b {
            0nat
        } else {
            1nat
        },
{
    assert(s.push(b).drop_last() =~= s);
    assert(s.push(b).last() == b);
}

/// The null count never exceeds the bit count.
pub proof fn lemma_count_nulls_le_len(s: Seq<bool>)
    ensures
        count_nulls(s) <= s.len(),
    decreases s.len(),
{
    if s.len() > 0 {
        lemma_count_nulls_le_len(s.drop_last());
    }
}

/// Overwriting one bit moves the null count by the difference between the
/// old and the new bit.
pub proof fn lemma_count_nulls_update(s: Seq<bool>, i: int, v: bool)
    requires
        0 <= i < s.len(),
    ensures
        count_nulls(s.update(i, v)) + (if s[i] {
            0nat
        } else {
            1nat
        }) == count_nulls(s) + (if v {
            0nat
        } else {
            1nat
        }),
    decreases s.len(),
{
    if i == s.len() - 1 {
        assert(s.update(i, v).drop_last() =~= s.drop_last());
        assert(s.update(i, v).last() == v);
        assert(s.last() == s[i]);
    } else {
        assert(s.update(i, v).drop_last() =~= s.drop_last().update(i, v));
        assert(s.update(i, v).last() == s.last());
        lemma_count_nulls_update(s.drop_last(), i, v);
        assert(s.drop_last()[i] == s[i]);
    }
}

/// The validity-bitmap form of the bit-packed boolean sequence, with a cached
/// count of its `false` bits.
#[derive(Debug)]
pub struct BitVec {
    inner: Vec<u8>,
    length: usize,
    null_count: usize,
}

impl View for BitVec {
    type V = Seq<bool>;

    closed spec fn view(&self) -> Seq<bool> {
        packed_bits(self.inner@, self.length as nat)
    }
}

impl Default for BitVec {
    fn default() -> (r: BitVec)
        ensures
            r@ == Seq::<bool>::empty(),
            r.wf(),
    {
        BitVec { inner: Vec::new(), length: 0, null_count: 0 }
    }
}

impl PartialEq for BitVec {
    /// Field-wise comparison: equal packing (don't-care bits of the last
    /// byte included), equal bit count and equal cached null count.
    fn eq(&self, other: &BitVec) -> (r: bool) {
        let r = self.inner == other.inner && self.length == other.length && self.null_count
            == other.null_count;
        proof {
            if self.inner@.len() == other.inner@.len() && (forall|i: int|
                0 <= i < self.inner@.len() ==> self.inner@[i] == other.inner@[i]) {
                assert(self.inner@ =~= other.inner@);
            }
        }
        r
    }
}

impl vstd::std_specs::cmp::PartialEqSpecImpl for BitVec {
    open spec fn obeys_eq_spec() -> bool {
        true
    }

    closed spec fn eq_spec(&self, other: &BitVec) -> bool {
        self.inner@ == other.inner@ && self.length == other.length && self.null_count
            == other.null_count
    }
}

impl Eq for BitVec {

}

impl BitVec {
    /// The backing buffer holds exactly enough bytes for the logical bit
    /// count, and the cached null count is the number of `false` bits.
    pub closed spec fn wf(&self) -> bool {
        self.inner@.len() == (self.length + 7) / 8 && self.null_count == count_nulls(self@)
    }

    pub fn new() -> (r: BitVec)
        ensures
            r@ == Seq::<bool>::empty(),
            r.wf(),
    {
        BitVec::default()
    }

    /// The number of bits held.
    pub fn len(&self) -> (r: usize)
        ensures
            r == self@.len(),
    {
        self.length
    }

    /// The number of `false` (null) bits, answered from the cached count.
    pub fn null_count(&self) -> (r: usize)
        requires
            self.wf(),
        ensures
            r == count_nulls(self@),
    {
        self.null_count
    }

    /// The packed backing bytes; bits past the logical end are don't-care.
    pub fn bytes(&self) -> (r: &Vec<u8>)
        requires
            self.wf(),
        ensures
            r@.len() == (self@.len() + 7) / 8,
            forall|i: int| 0 <= i < self@.len() ==> self@[i] == bit_at(r@[i / 8], (i % 8) as usize),
    {
        proof {
            assert forall|i: int| 0 <= i < self@.len() implies self@[i] == bit_at(
                self.inner@[i / 8],
                (i % 8) as usize,
            ) by {
                lemma_bit_index(i, self@.len() as int);
            }
        }
        &self.inner
    }

    /// Appends one bit at the logical end, allocating a fresh backing byte
    /// exactly when the new bit starts a byte boundary, and counting an
    /// appended `false` bit as one more null.
    pub fn push(&mut self, value: bool)
        requires
            old(self).wf(),
            old(self)@.len() < usize::MAX,
        ensures
            final(self).wf(),
            final(self)@ == old(self)@.push(value),
    {
        let byte: usize = self.length / 8;
        let bit: usize = self.length % 8;
        proof {
            lemma_push_grows(self.length as int);
        }
        if bit == 0 {
            // need to allocate a fresh byte
            self.inner.push(0);
        }

        self.length = self.length + 1;
        let b: u8 = self.inner[byte];
        if value {
            self.inner[byte] = b | (1u8 << bit);
        } else {
            self.inner[byte] = b & !(1u8 << bit);
        }

        proof {
            let l = old(self)@.len() as int;
            assert forall|i: int| 0 <= i < l + 1 implies self@[i] == old(self)@.push(value)[i] by {
                lemma_bit_index(i, l + 1);
                if value {
                    lemma_or_bit(b, bit, (i % 8) as usize);
                } else {
                    lemma_and_not_bit(b, bit, (i % 8) as usize);
                }
                if i < l {
                    lemma_bit_index(i, l);
                }
            }
            assert(self@ =~= old(self)@.push(value));
            lemma_count_nulls_push(old(self)@, value);
            lemma_count_nulls_le_len(old(self)@);
        }
        if !value {
            self.null_count = self.null_count + 1;
        }
    }

    /// Removes and returns the last bit, freeing a backing byte exactly when
    /// the removal crosses a byte boundary, and counting a removed `false`
    /// bit as one null fewer.
    pub fn pop(&mut self) -> (r: bool)
        requires
            old(self).wf(),
            old(self)@.len() > 0,
        ensures
            final(self).wf(),
            r == old(self)@.last(),
            final(self)@ == old(self)@.drop_last(),
    {
        let length: usize = self.length - 1;
        let bucket: usize = length / 8;
        let index: usize = length % 8;
        proof {
            lemma_pop_shrinks(self.length as int);
            lemma_read_bit(self.inner@[bucket as int], index);
        }
        let value: u8 = (self.inner[bucket] >> index) & 1;
        if index == 0 {
            self.inner.pop();
        }
        self.length = length;
        proof {
            let l = self.length as int;
            assert forall|i: int| 0 <= i < l implies self@[i] == old(self)@[i] by {
                lemma_bit_index(i, l + 1);
            }
            assert(self@ =~= old(self)@.drop_last());
        }
        if value == 0 {
            self.null_count = self.null_count - 1;
        }
        value == 1
    }

    /// Reads the bit at `index`, or `None` when `index` falls in an
    /// unallocated byte; indices between the logical length and the end of
    /// the last allocated byte still read a (don't-care) bit.
    pub fn get(&self, index: usize) -> (r: Option<bool>)
        requires
            self.wf(),
        ensures
            r is Some <==> (index as int) < 8 * ((self@.len() + 7) / 8),
            (index as int) < self@.len() ==> r == Some(self@[index as int]),
    {
        let bucket: usize = index / 8;
        if bucket >= self.inner.len() {
            return None;
        }
        let index: usize = index % 8;

        let value: u8 = (self.inner[bucket] >> index) & 1;
        Some(value == 1)
    }

    /// Exchanges the bits at `a` and `b` by flipping both exactly when they
    /// differ, leaving every other bit untouched; the null count is
    /// unaffected.
    pub fn swap(&mut self, a: usize, b: usize)
        requires
            old(self).wf(),
            a < old(self)@.len(),
            b < old(self)@.len(),
        ensures
            final(self).wf(),
            final(self)@ == old(self)@.update(a as int, old(self)@[b as int]).update(
                b as int,
                old(self)@[a as int],
            ),
    {
        let bucket_a: usize = a / 8;
        let index_a: usize = a % 8;
        let bucket_b: usize = b / 8;
        let index_b: usize = b % 8;
        proof {
            lemma_bit_index(a as int, self@.len() as int);
            lemma_bit_index(b as int, self@.len() as int);
            lemma_read_bit(self.inner@[bucket_a as int], index_a);
            lemma_read_bit(self.inner@[bucket_b as int], index_b);
        }

        let value_a: u8 = (self.inner[bucket_a] >> index_a) & 1;
        let value_b: u8 = (self.inner[bucket_b] >> index_b) & 1;

        // if the values differ, flipping both swaps them; the xor with a
        // one-bit mask leaves every other position of the byte unchanged
        if value_a != value_b {
            let byte_a: u8 = self.inner[bucket_a];
            self.inner[bucket_a] = byte_a ^ (1u8 << index_a);
            let byte_b: u8 = self.inner[bucket_b];
            self.inner[bucket_b] = byte_b ^ (1u8 << index_b);
            proof {
                let l = self@.len() as int;
                let pre = old(self)@;
                let post = pre.update(a as int, pre[b as int]).update(b as int, pre[a as int]);
                assert forall|i: int| 0 <= i < l implies self@[i] == post[i] by {
                    lemma_bit_index(i, l);
                    lemma_xor_bit(byte_a, index_a, (i % 8) as usize);
                    lemma_xor_bit(byte_b, index_b, (i % 8) as usize);
                }
                assert(self@ =~= post);
                lemma_count_nulls_update(pre, a as int, pre[b as int]);
                lemma_count_nulls_update(
                    pre.update(a as int, pre[b as int]),
                    b as int,
                    pre[a as int],
                );
            }
        } else {
            proof {
                let pre = old(self)@;
                let post = pre.update(a as int, pre[b as int]).update(b as int, pre[a as int]);
                assert(self@ =~= post);
                lemma_count_nulls_update(pre, a as int, pre[b as int]);
                lemma_count_nulls_update(
                    pre.update(a as int, pre[b as int]),
                    b as int,
                    pre[a as int],
                );
            }
        }
    }

    /// Overwrites the bit at `index` in place, moving the null count by the
    /// difference between the old and the new bit.
    #[inline]
    pub fn set(&mut self, index: usize, value: bool)
        requires
            old(self).wf(),
            index < old(self)@.len(),
        ensures
            final(self).wf(),
            final(self)@ == old(self)@.update(index as int, value),
    {
        let byte: usize = index / 8;
        let bit: usize = index % 8;
        proof {
            lemma_bit_index(index as int, self@.len() as int);
            lemma_read_bit(self.inner@[byte as int], bit);
        }
        let was: u8 = (self.inner[byte] >> bit) & 1;
        self._set(byte, bit, value);
        proof {
            let l = old(self)@.len() as int;
            assert forall|i: int| 0 <= i < l implies self@[i] == old(self)@.update(
                index as int,
                value,
            )[i] by {
                lemma_bit_index(i, l);
                if value {
                    lemma_or_bit(old(self).inner@[byte as int], bit, (i % 8) as usize);
                } else {
                    lemma_and_not_bit(old(self).inner@[byte as int], bit, (i % 8) as usize);
                }
            }
            assert(self@ =~= old(self)@.update(index as int, value));
            lemma_count_nulls_update(old(self)@, index as int, value);
            lemma_count_nulls_le_len(old(self)@.update(index as int, value));
        }
        if !value && was == 1 {
            self.null_count = self.null_count + 1;
        } else if value && was == 0 {
            self.null_count = self.null_count - 1;
        }
    }

    /// Writes bit `bit` of byte `byte` without touching length or count.
    #[inline]
    fn _set(&mut self, byte: usize, bit: usize, value: bool)
        requires
            bit < 8,
            (byte as int) < old(self).inner@.len(),
        ensures
            final(self).inner@ == old(self).inner@.update(
                byte as int,
                if value {
                    old(self).inner@[byte as int] | (1u8 << bit)
                } else {
                    old(self).inner@[byte as int] & !(1u8 << bit)
                },
            ),
            final(self).length == old(self).length,
            final(self).null_count == old(self).null_count,
    {
        let b: u8 = self.inner[byte];
        if value {
            self.inner[byte] = b | (1u8 << bit);
        } else {
            self.inner[byte] = b & !(1u8 << bit);
        }
    }

    /// A lazy, restartable forward reader of the bits, starting at bit 0.
    pub fn iter(&self) -> (r: Iter<'_>)
        requires
            self.wf(),
        ensures
            r.wf(),
            r.bits() == self@,
            r.pos() == 0,
    {
        Iter { ptr: self.inner.as_slice(), length: self.length, index: 0 }
    }
}

/// A forward reader over a packed bit buffer; yields each bit in order and
/// then `None`.
pub struct Iter<'a> {
    length: usize,
    index: usize,
    ptr: &'a [u8],
}

impl<'a> Iter<'a> {
    /// The borrowed buffer holds every byte the bit count needs.
    pub closed spec fn wf(&self) -> bool {
        (self.length + 7) / 8 <= self.ptr@.len()
    }

    /// The bits this reader walks.
    pub closed spec fn bits(&self) -> Seq<bool> {
        packed_bits(self.ptr@, self.length as nat)
    }

    /// The index of the next bit to yield.
    pub closed spec fn pos(&self) -> int {
        self.index as int
    }

    /// Yields the bit at the current position and advances, or `None` once
    /// every bit has been yielded.
    pub fn next(&mut self) -> (r: Option<bool>)
        requires
            old(self).wf(),
        ensures
            final(self).wf(),
            final(self).bits() == old(self).bits(),
            old(self).pos() >= old(self).bits().len() ==> r is None && final(self).pos() == old(
                self,
            ).pos(),
            old(self).pos() < old(self).bits().len() ==> r == Some(
                old(self).bits()[old(self).pos()],
            ) && final(self).pos() == old(self).pos() + 1,
    {
        if self.index >= self.length {
            return None;
        }
        proof {
            lemma_bit_index(self.index as int, self.length as int);
        }
        let byte: u8 = self.ptr[self.index / 8];
        let value: u8 = (byte >> (self.index % 8)) & 1;
        self.index = self.index + 1;
        Some(value == 1)
    }
}

} // verus!
