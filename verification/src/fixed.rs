//! A nullable column of fixed-width values: a value buffer paired with a
//! validity bitmap of equal length. A `false` validity bit means the slot is
//! semantically null; the value bytes kept there are unspecified garbage and
//! are never handed out. Deletion swaps with the last element and truncates,
//! which is O(1) but does not preserve the relative order of the remainder.

use vstd::prelude::*;

use crate::bitvec::BitVec;

verus! {

/// Why a column mutation was refused.
#[derive(Clone, Copy, Debug, PartialEq, Eq, Structural)]
pub enum ColumnError {
    /// The record id does not name an existing element.
    IndexOutOfBounds,
}

/// A named, nullable column of fixed-width values.
pub struct Fixed<T> {
    name: String,
    data: Vec<T>,
    nulls: BitVec,
}

impl<T> Fixed<T> {
    /// The column's name.
    pub closed spec fn spec_name(&self) -> Seq<char> {
        self.name@
    }

    /// The stored values; slots whose validity bit is `false` hold garbage.
    pub closed spec fn spec_data(&self) -> Seq<T> {
        self.data@
    }

    /// The validity bitmap: `true` where the slot holds a live value.
    pub closed spec fn spec_nulls(&self) -> Seq<bool> {
        self.nulls@
    }

    /// The value buffer and the validity bitmap always have the same length.
    pub closed spec fn wf(&self) -> bool {
        self.data@.len() == self.nulls@.len() && self.nulls.wf()
    }

    /// The column as read out: `None` where the validity bit is `false`,
    /// the stored value otherwise.
    pub open spec fn records(&self) -> Seq<Option<T>> {
        Seq::new(
            self.spec_data().len(),
            |i: int|
                if self.spec_nulls()[i] {
                    Some(self.spec_data()[i])
                } else {
                    None
                },
        )
    }
}

impl<T> Default for Fixed<T> {
    fn default() -> (r: Fixed<T>)
        ensures
            r.wf(),
            r.spec_name() == Seq::<char>::empty(),
            r.spec_data() == Seq::<T>::empty(),
            r.spec_nulls() == Seq::<bool>::empty(),
    {
        Fixed { name: String::default(), data: vec![], nulls: BitVec::default() }
    }
}

impl Fixed<i32> {
    /// A small pre-filled column used by examples and tests.
    pub fn test_new() -> (r: Fixed<i32>)
        ensures
            r.wf(),
            r.spec_name() == "test col"@,
            r.spec_data() == seq![1i32, 2, 3, 0, 0, 0, 4, 5, 0, 6],
            r.spec_nulls() == seq![true, true, true, false, false, false, true, true, true, true],
    {
        let mut nulls = BitVec::new();
        nulls.push(true);
        nulls.push(true);
        nulls.push(true);
        nulls.push(false);
        nulls.push(false);
        nulls.push(false);
        nulls.push(true);
        nulls.push(true);
        nulls.push(true);
        nulls.push(true);
        let r = Fixed {
            name: "test col".to_owned(),
            data: vec![1, 2, 3, 0, 0, 0, 4, 5, 0, 6],
            nulls,
        };
        proof {
            assert(r.spec_data() =~= seq![1i32, 2, 3, 0, 0, 0, 4, 5, 0, 6]);
            assert(r.spec_nulls() =~= seq![
                true,
                true,
                true,
                false,
                false,
                false,
                true,
                true,
                true,
                true,
            ]);
        }
        r
    }
}

impl<T> Fixed<T> {
    /// An empty column with the given name.
    pub fn new(name: String) -> (r: Fixed<T>)
        ensures
            r.wf(),
            r.spec_name() == name@,
            r.spec_data() == Seq::<T>::empty(),
            r.spec_nulls() == Seq::<bool>::empty(),
    {
        Fixed { name, data: vec![], nulls: BitVec::default() }
    }

    /// The column's name.
    pub fn name(&self) -> (r: &str)
        ensures
            r@ == self.spec_name(),
    {
        self.name.as_str()
    }

    /// Appends `record` at the tail and marks it valid. Always succeeds.
    pub fn add_record(&mut self, record: T)
        requires
            old(self).wf(),
            old(self).spec_data().len() < usize::MAX,
        ensures
            final(self).wf(),
            final(self).spec_name() == old(self).spec_name(),
            final(self).spec_data() == old(self).spec_data().push(record),
            final(self).spec_nulls() == old(self).spec_nulls().push(true),
    {
        self.data.push(record);
        self.nulls.push(true);
    }

    /// A lazy, restartable reader of the records, starting at index 0.
    pub fn get_records(&self) -> (r: FixedViewer<'_, T>)
        requires
            self.wf(),
        ensures
            r.wf(),
            r.records() == self.records(),
            r.pos() == 0,
    {
        FixedViewer { inner: self, index: 0 }
    }

    /// Overwrites the record at `id`: a value marks the slot valid and
    /// stores the value; `None` clears the validity bit only, leaving the
    /// stale value bytes in place. Fails when `id` names no element.
    pub fn update_record(&mut self, id: usize, record: Option<T>) -> (r: Result<
        (),
        ColumnError,
    >)
        requires
            old(self).wf(),
        ensures
            final(self).wf(),
            final(self).spec_name() == old(self).spec_name(),
            r is Ok <==> (id as int) < old(self).spec_data().len(),
            r is Err ==> r == Err::<(), ColumnError>(ColumnError::IndexOutOfBounds) && *final(self)
                == *old(self),
            r is Ok ==> match record {
                Some(v) => final(self).spec_data() == old(self).spec_data().update(id as int, v)
                    && final(self).spec_nulls() == old(self).spec_nulls().update(id as int, true),
                None => final(self).spec_data() == old(self).spec_data()
                    && final(self).spec_nulls() == old(self).spec_nulls().update(
                    id as int,
                    false,
                ),
            },
    {
        if id >= self.data.len() {
            return Err(ColumnError::IndexOutOfBounds);
        }

        if let Some(record) = record {
            self.data[id] = record;
            self.nulls.set(id, true);
        } else {
            // the stale value stays; only the validity bit is cleared
            self.nulls.set(id, false);
        }
        Ok(())
    }

    /// Removes the record at `id` by swapping it (and its validity bit) with
    /// the last element and truncating by one: O(1), order-destroying.
    /// Fails when `id` names no element.
    pub fn delete_record(&mut self, id: usize) -> (r: Result<(), ColumnError>)
        requires
            old(self).wf(),
        ensures
            final(self).wf(),
            final(self).spec_name() == old(self).spec_name(),
            r is Ok <==> (id as int) < old(self).spec_data().len(),
            r is Err ==> r == Err::<(), ColumnError>(ColumnError::IndexOutOfBounds) && *final(self)
                == *old(self),
            r is Ok ==> final(self).spec_data() == old(self).spec_data().update(
                id as int,
                old(self).spec_data().last(),
            ).drop_last() && final(self).spec_nulls() == old(self).spec_nulls().update(
                id as int,
                old(self).spec_nulls().last(),
            ).drop_last(),
    {
        if id >= self.data.len() {
            return Err(ColumnError::IndexOutOfBounds);
        }
        let last_index: usize = self.data.len() - 1;
        self.data.swap_remove(id);
        self.nulls.swap(id, last_index);
        self.nulls.pop();
        proof {
            let n = old(self).spec_nulls();
            assert(n.update(id as int, n[last_index as int]).update(
                last_index as int,
                n[id as int],
            ).drop_last() =~= n.update(id as int, n.last()).drop_last());
        }

        Ok(())
    }
}

/// The delete law: removing the record at `id` from a column of `n`
/// elements — by swapping value and validity with the last slot and
/// truncating, as `delete_record` states — leaves `n - 1` elements; the
/// element formerly at `n - 1` now reads at `id`; every other position
/// keeps its prior value and validity.
pub proof fn lemma_delete_law<T>(
    data: Seq<T>,
    nulls: Seq<bool>,
    post_data: Seq<T>,
    post_nulls: Seq<bool>,
    id: int,
)
    requires
        data.len() == nulls.len(),
        0 <= id < data.len(),
        post_data == data.update(id, data.last()).drop_last(),
        post_nulls == nulls.update(id, nulls.last()).drop_last(),
    ensures
        post_data.len() == data.len() - 1,
        post_nulls.len() == nulls.len() - 1,
        id < post_data.len() ==> post_data[id] == data.last() && post_nulls[id] == nulls.last(),
        forall|i: int|
            0 <= i < post_data.len() && i != id ==> post_data[i] == data[i] && post_nulls[i]
                == nulls[i],
{
}

/// A lazy reader over a [`Fixed`] column: yields `None` for null slots and
/// the stored value otherwise, in current physical order, and supports
/// direct-index resumption without re-scanning.
pub struct FixedViewer<'a, T> {
    inner: &'a Fixed<T>,
    index: usize,
}

impl<'a, T> FixedViewer<'a, T> {
    /// The column read is well-formed.
    pub closed spec fn wf(&self) -> bool {
        self.inner.wf()
    }

    /// The records this reader walks.
    pub closed spec fn records(&self) -> Seq<Option<T>> {
        self.inner.records()
    }

    /// The index of the next record to yield.
    pub closed spec fn pos(&self) -> int {
        self.index as int
    }
}

impl<'a, T: Copy> FixedViewer<'a, T> {
    /// Yields the record at the current position and advances, or `None`
    /// once every record has been yielded.
    pub fn next(&mut self) -> (r: Option<Option<T>>)
        requires
            old(self).wf(),
        ensures
            final(self).wf(),
            final(self).records() == old(self).records(),
            old(self).pos() >= old(self).records().len() ==> r is None
                && final(self).pos() == old(self).pos(),
            old(self).pos() < old(self).records().len() ==> r == Some(
                old(self).records()[old(self).pos()],
            ) && final(self).pos() == old(self).pos() + 1,
    {
        if self.index >= self.inner.data.len() {
            return None;
        }

        let not_null: bool = self.inner.nulls.get(self.index).unwrap();
        let value: Option<T> = if not_null {
            Some(self.inner.data[self.index])
        } else {
            None
        };
        self.index = self.index + 1;
        Some(value)
    }

    /// Jumps straight to index `n` and yields the record there, if any.
    pub fn nth(&mut self, n: usize) -> (r: Option<Option<T>>)
        requires
            old(self).wf(),
        ensures
            final(self).wf(),
            final(self).records() == old(self).records(),
            (n as int) >= old(self).records().len() ==> r is None && final(self).pos() == n as int,
            (n as int) < old(self).records().len() ==> r == Some(old(self).records()[n as int])
                && final(self).pos() == n + 1,
    {
        self.index = n;
        self.next()
    }
}

} // verus!
