//! A bit-packed sequence of booleans, grown and shrunk one bit at a time and
//! mutated in place by index reads and pairwise swaps.

use vstd::prelude::*;

use crate::bitops::{
    bit_at, lemma_and_not_bit, lemma_bit_index, lemma_or_bit, lemma_pop_shrinks, lemma_read_bit,
    lemma_push_grows, lemma_xor_bit, packed_bits,
};

verus! {

/// An ordered sequence of bits stored packed eight per byte, little-bit-first:
/// bit `i` lives in byte `i / 8` at position `i % 8`.
pub struct BitVec {
    inner: Vec<u8>,
    length: usize,
}

impl View for BitVec {
    type V = Seq<bool>;

    closed spec fn view(&self) -> Seq<bool> {
        packed_bits(self.inner@, self.length as nat)
    }
}

impl Default for BitVec {
    fn default() -> (r: BitVec)
        ensures
            r@ == Seq::<bool>::empty(),
            r.wf(),
    {
        BitVec { inner: Vec::new(), length: 0 }
    }
}

impl BitVec {
    /// The backing buffer holds exactly enough bytes for the logical bit
    /// count; bits of the last byte past the logical end are don't-care.
    pub closed spec fn wf(&self) -> bool {
        self.inner@.len() == (self.length + 7) / 8
    }

    pub fn new() -> (r: BitVec)
        ensures
            r@ == Seq::<bool>::empty(),
            r.wf(),
    {
        BitVec::default()
    }

    /// The packed backing bytes; bits past the logical end are don't-care.
    pub fn bytes(&self) -> (r: &Vec<u8>)
        requires
            self.wf(),
        ensures
            r@.len() == (self@.len() + 7) / 8,
            forall|i: int| 0 <= i < self@.len() ==> self@[i] == bit_at(r@[i / 8], (i % 8) as usize),
    {
        proof {
            assert forall|i: int| 0 <= i < self@.len() implies self@[i] == bit_at(
                self.inner@[i / 8],
                (i % 8) as usize,
            ) by {
                lemma_bit_index(i, self@.len() as int);
            }
        }
        &self.inner
    }

    /// Appends one bit at the logical end, allocating a fresh backing byte
    /// exactly when the new bit starts a byte boundary.
    pub fn push(&mut self, value: bool)
        requires
            old(self).wf(),
            old(self)@.len() < usize::MAX,
        ensures
            final(self).wf(),
            final(self)@ == old(self)@.push(value),
    {
        let bucket: usize = self.length / 8;
        let index: usize = self.length % 8;
        proof {
            lemma_push_grows(self.length as int);
        }
        if index == 0 {
            // need to allocate a fresh byte
            self.inner.push(0);
        }

        self.length = self.length + 1;
        let byte: u8 = self.inner[bucket];
        if value {
            self.inner[bucket] = byte | (1u8 << index);
        } else {
            self.inner[bucket] = byte & !(1u8 << index);
        }

        proof {
            let l = old(self)@.len() as int;
            assert forall|i: int| 0 <= i < l + 1 implies self@[i] == old(self)@.push(value)[i] by {
                lemma_bit_index(i, l + 1);
                if value {
                    lemma_or_bit(byte, index, (i % 8) as usize);
                } else {
                    lemma_and_not_bit(byte, index, (i % 8) as usize);
                }
                if i < l {
                    lemma_bit_index(i, l);
                }
            }
            assert(self@ =~= old(self)@.push(value));
        }
    }

    /// Removes and returns the last bit, freeing a backing byte exactly when
    /// the removal crosses a byte boundary.
    pub fn pop(&mut self) -> (r: bool)
        requires
            old(self).wf(),
            old(self)@.len() > 0,
        ensures
            final(self).wf(),
            r == old(self)@.last(),
            final(self)@ == old(self)@.drop_last(),
    {
        let length: usize = self.length - 1;
        let bucket: usize = length / 8;
        let index: usize = length % 8;
        proof {
            lemma_pop_shrinks(self.length as int);
        }
        let value: u8 = (self.inner[bucket] >> index) & 1;
        if index == 0 {
            self.inner.pop();
        }
        self.length = length;
        proof {
            let l = self.length as int;
            assert forall|i: int| 0 <= i < l implies self@[i] == old(self)@[i] by {
                lemma_bit_index(i, l + 1);
            }
            assert(self@ =~= old(self)@.drop_last());
        }
        value == 1
    }

    /// Reads the bit at `index`, or `None` when `index` falls in an
    /// unallocated byte; indices between the logical length and the end of
    /// the last allocated byte still read a (don't-care) bit.
    pub fn get(&mut self, index: usize) -> (r: Option<bool>)
        requires
            old(self).wf(),
        ensures
            *final(self) == *old(self),
            r is Some <==> (index as int) < 8 * ((old(self)@.len() + 7) / 8),
            (index as int) < old(self)@.len() ==> r == Some(old(self)@[index as int]),
    {
        let bucket: usize = index / 8;
        if bucket >= self.inner.len() {
            return None;
        }
        let index: usize = index % 8;

        let value: u8 = (self.inner[bucket] >> index) & 1;
        Some(value == 1)
    }

    /// Exchanges the bits at `a` and `b` by flipping both exactly when they
    /// differ, leaving every other bit untouched.
    pub fn swap(&mut self, a: usize, b: usize)
        requires
            old(self).wf(),
            a < old(self)@.len(),
            b < old(self)@.len(),
        ensures
            final(self).wf(),
            final(self)@ == old(self)@.update(a as int, old(self)@[b as int]).update(
                b as int,
                old(self)@[a as int],
            ),
    {
        let bucket_a: usize = a / 8;
        let index_a: usize = a % 8;
        let bucket_b: usize = b / 8;
        let index_b: usize = b % 8;
        proof {
            lemma_bit_index(a as int, self@.len() as int);
            lemma_bit_index(b as int, self@.len() as int);
        }

        let value_a: u8 = (self.inner[bucket_a] >> index_a) & 1;
        let value_b: u8 = (self.inner[bucket_b] >> index_b) & 1;
        proof {
            lemma_read_bit(self.inner@[bucket_a as int], index_a);
            lemma_read_bit(self.inner@[bucket_b as int], index_b);
        }

        // if the values differ, flipping both swaps them; the xor with a
        // one-bit mask leaves every other position of the byte unchanged
        if value_a != value_b {
            let byte_a: u8 = self.inner[bucket_a];
            self.inner[bucket_a] = byte_a ^ (1u8 << index_a);
            let byte_b: u8 = self.inner[bucket_b];
            self.inner[bucket_b] = byte_b ^ (1u8 << index_b);
            proof {
                let l = self@.len() as int;
                let pre = old(self)@;
                assert forall|i: int| 0 <= i < l implies self@[i] == pre.update(
                    a as int,
                    pre[b as int],
                ).update(b as int, pre[a as int])[i] by {
                    lemma_bit_index(i, l);
                    lemma_xor_bit(byte_a, index_a, (i % 8) as usize);
                    lemma_xor_bit(byte_b, index_b, (i % 8) as usize);
                }
                assert(self@ =~= pre.update(a as int, pre[b as int]).update(
                    b as int,
                    pre[a as int],
                ));
            }
        } else {
            proof {
                let pre = old(self)@;
                assert(self@ =~= pre.update(a as int, pre[b as int]).update(
                    b as int,
                    pre[a as int],
                ));
            }
        }
    }
}

} // verus!
