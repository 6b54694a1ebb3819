//! A nullable, append-only column of variable-width values: a flat byte
//! buffer holding every encoded value back to back, an offset index
//! delimiting them, and a validity bitmap. Element `i` occupies
//! `data[offset[i]..offset[i + 1])`; reads hand out a zero-copy borrowed
//! view into that range.

use core::marker::PhantomData;

use vstd::prelude::*;
use vstd::slice::slice_subrange;
use vstd::utf8::{decode_utf8, decode_utf8_encode_utf8, encode_utf8, encode_utf8_valid_utf8,
    valid_utf8};

use crate::bitvec::BitVec;

verus! {

/// A value with a raw byte image.
pub trait ToBytesRef {
    /// The byte image of this value.
    spec fn bytes_spec(&self) -> Seq<u8>;

    /// Which byte sequences are the image of some value.
    spec fn wf_bytes(bytes: Seq<u8>) -> bool;

    /// The value's bytes.
    fn to_bytes(&self) -> (r: &[u8])
        ensures
            r@ == self.bytes_spec(),
            Self::wf_bytes(r@),
    ;
}

/// A value that can be read back, borrowed, from its byte image.
pub trait FromByteRef: ToBytesRef {
    /// Borrows the value whose image `bytes` is.
    fn from_bytes(bytes: &[u8]) -> (r: &Self)
        requires
            Self::wf_bytes(bytes@),
        ensures
            r.bytes_spec() == bytes@,
    ;
}

impl ToBytesRef for str {
    open spec fn bytes_spec(&self) -> Seq<u8> {
        encode_utf8(self@)
    }

    open spec fn wf_bytes(bytes: Seq<u8>) -> bool {
        valid_utf8(bytes)
    }

    fn to_bytes(&self) -> (r: &[u8]) {
        proof {
            encode_utf8_valid_utf8(self@);
        }
        self.as_bytes()
    }
}

/// Relies on `str::from_utf8`: on valid UTF-8 input it returns the borrowed
/// string those bytes decode to (and only invalid input makes it fail).
#[verifier::external_body]
fn bytes_as_str(v: &[u8]) -> (r: &str)
    requires
        valid_utf8(v@),
    ensures
        r@ == decode_utf8(v@),
{
    str::from_utf8(v).unwrap()
}

impl FromByteRef for str {
    fn from_bytes(bytes: &[u8]) -> (r: &Self) {
        let s = bytes_as_str(bytes);
        proof {
            decode_utf8_encode_utf8(bytes@);
        }
        s
    }
}

impl ToBytesRef for [u8] {
    open spec fn bytes_spec(&self) -> Seq<u8> {
        self@
    }

    open spec fn wf_bytes(bytes: Seq<u8>) -> bool {
        true
    }

    fn to_bytes(&self) -> (r: &[u8]) {
        self
    }
}

impl FromByteRef for [u8] {
    fn from_bytes(bytes: &[u8]) -> (r: &Self) {
        bytes
    }
}

/// A nullable, append-only column of variable-width values.
pub struct Variable<T: ?Sized> {
    data: Vec<u8>,
    offset: Vec<usize>,
    pub validity: BitVec,
    _phantom: PhantomData<T>,
}

impl<T: ?Sized> Variable<T> {
    /// The flat byte buffer holding every encoded value back to back.
    pub closed spec fn spec_data(&self) -> Seq<u8> {
        self.data@
    }

    /// The offset index: element `i` occupies the byte range from
    /// `spec_offsets()[i]` to `spec_offsets()[i + 1]`.
    pub closed spec fn spec_offsets(&self) -> Seq<usize> {
        self.offset@
    }

    /// The number of elements held.
    pub open spec fn spec_len(&self) -> int {
        self.spec_offsets().len() - 1
    }

    /// The validity bitmap as a sequence of bits.
    pub closed spec fn spec_validity(&self) -> Seq<bool> {
        self.validity@
    }

    /// The validity bitmap's own packing invariant holds.
    pub closed spec fn spec_validity_wf(&self) -> bool {
        self.validity.wf()
    }

    /// The byte image of element `i`.
    pub open spec fn elem_bytes(&self, i: int) -> Seq<u8> {
        self.spec_data().subrange(
            self.spec_offsets()[i] as int,
            self.spec_offsets()[i + 1] as int,
        )
    }
}

impl<T: ToBytesRef + ?Sized> Variable<T> {
    /// The offset index starts at zero, never decreases, ends at the data
    /// buffer's length, and delimits one byte image per validity bit.
    pub open spec fn wf(&self) -> bool {
        &&& self.spec_offsets().len() >= 1
        &&& self.spec_offsets()[0] == 0
        &&& forall|i: int|
            0 <= i < self.spec_len() ==> #[trigger] self.spec_offsets()[i]
                <= self.spec_offsets()[i + 1]
        &&& forall|i: int|
            0 <= i < self.spec_offsets().len() ==> #[trigger] self.spec_offsets()[i]
                <= self.spec_data().len()
        &&& self.spec_offsets().last() == self.spec_data().len()
        &&& self.spec_validity().len() == self.spec_len()
        &&& self.spec_validity_wf()
        &&& forall|i: int| 0 <= i < self.spec_len() ==> T::wf_bytes(#[trigger] self.elem_bytes(i))
    }
}

impl<T: ?Sized> Default for Variable<T> {
    fn default() -> (r: Variable<T>)
        ensures
            r.spec_data() == Seq::<u8>::empty(),
            r.spec_offsets() == seq![0usize],
            r.spec_validity() == Seq::<bool>::empty(),
            r.spec_validity_wf(),
    {
        let r = Variable {
            data: Vec::new(),
            offset: vec![0],  // position 0 is always there
            validity: BitVec::default(),
            _phantom: PhantomData,
        };
        proof {
            assert(r.offset@ =~= seq![0usize]);
        }
        r
    }
}

impl<T: ToBytesRef + ?Sized> Variable<T> {
    /// An empty column.
    pub fn new() -> (r: Variable<T>)
        ensures
            r.wf(),
            r.spec_len() == 0,
            r.spec_validity() == Seq::<bool>::empty(),
    {
        Variable::default()
    }

    /// The offset index; one more entry than there are elements.
    pub fn offsets(&self) -> (r: &Vec<usize>)
        ensures
            r@ == self.spec_offsets(),
    {
        &self.offset
    }

    /// Appends `item`: its byte image goes at the end of the data buffer,
    /// the offset index gains the new end position, and the element is
    /// marked valid.
    pub fn add(&mut self, item: &T)
        requires
            old(self).wf(),
            old(self).spec_data().len() + item.bytes_spec().len() <= usize::MAX,
            old(self).spec_offsets().len() < usize::MAX,
        ensures
            final(self).wf(),
            final(self).spec_data() == old(self).spec_data() + item.bytes_spec(),
            final(self).spec_offsets() == old(self).spec_offsets().push(
                (old(self).spec_data().len() + item.bytes_spec().len()) as usize,
            ),
            final(self).spec_validity() == old(self).spec_validity().push(true),
            final(self).spec_len() == old(self).spec_len() + 1,
            final(self).elem_bytes(old(self).spec_len()) == item.bytes_spec(),
    {
        let bytes: &[u8] = item.to_bytes();
        let last: usize = self.offset[self.offset.len() - 1];
        let length: usize = bytes.len() + last;

        self.data.extend_from_slice(bytes);
        self.offset.push(length);
        self.validity.push(true);

        proof {
            let pre = old(self);
            let n = pre.spec_len();
            assert forall|i: int| 0 <= i < n implies self.elem_bytes(i) == pre.elem_bytes(i) by {
                assert(pre.spec_offsets()[i] <= pre.spec_offsets()[i + 1]);
                assert(self.elem_bytes(i) =~= pre.elem_bytes(i));
            }
            assert(self.elem_bytes(n) =~= item.bytes_spec());
        }
    }
}

impl<T: FromByteRef + ?Sized> Variable<T> {
    /// Reads element `index`: `None` when no such element exists,
    /// `Some(None)` when it exists but is null, and otherwise a zero-copy
    /// borrowed view of its bytes.
    pub fn get(&self, index: usize) -> (r: Option<Option<&T>>)
        requires
            self.wf(),
        ensures
            r is None <==> (index as int) >= self.spec_len(),
            (index as int) < self.spec_len() && !self.spec_validity()[index as int] ==> (r matches Some(
                inner,
            ) && inner is None),
            (index as int) < self.spec_len() && self.spec_validity()[index as int] ==> (r matches Some(
                inner,
            ) && inner matches Some(v) && v.bytes_spec() == self.elem_bytes(index as int)),
    {
        if index >= self.offset.len() - 1 {
            return None;
        }
        // check validity first: a null slot's byte range must not be trusted
        let not_null: bool = self.validity.get(index).unwrap();
        if !not_null {
            return Some(None);
        }

        let start: usize = self.offset[index];
        let end: usize = self.offset[index + 1];
        let part: &[u8] = slice_subrange(self.data.as_slice(), start, end);
        proof {
            assert(part@ == self.elem_bytes(index as int));
            assert(T::wf_bytes(self.elem_bytes(index as int)));
        }
        let item: &T = T::from_bytes(part);
        Some(Some(item))
    }
}

/// The offset invariant of every well-formed column: offsets begin at zero
/// and never decrease. That reads beyond the element count yield `None` is
/// stated by `get` itself.
pub proof fn lemma_offset_invariant<T: ToBytesRef + ?Sized>(col: &Variable<T>, i: int)
    requires
        col.wf(),
        0 <= i < col.spec_len(),
    ensures
        col.spec_offsets()[0] == 0,
        col.spec_offsets()[i] <= col.spec_offsets()[i + 1],
{
}

} // verus!
