use vstd::prelude::*;

verus! {

/// A vector whose first index is `offset` instead of zero: valid indices
/// range from `offset` (included) to `len()` (excluded).
pub struct ShiftVec<T> {
    offset: usize,
    items: Vec<T>,
}

impl<T> ShiftVec<T> {
    /// The index of the first element.
    pub closed spec fn offset(&self) -> nat {
        self.offset as nat
    }

    /// The elements, in order, the first standing at index `offset()`.
    pub closed spec fn items(&self) -> Seq<T> {
        self.items@
    }

    /// The index one past the last element.
    pub open spec fn spec_len(&self) -> nat {
        self.offset() + self.items().len()
    }

    /// The element at `index`, for `offset() <= index < spec_len()`.
    pub open spec fn at(&self, index: int) -> T {
        self.items()[index - self.offset()]
    }

    /// `len()` fits in a `usize`.
    pub open spec fn wf(&self) -> bool {
        self.spec_len() <= usize::MAX
    }

    /// A shift vector made by `new(offset)` and then pushes of the items of
    /// `pushed`, in order, holds `offset + pushed.len()` as its length and the
    /// `k`-th item pushed at index `offset + k`; `new` and `push` state that
    /// such a vector has `offset` as offset and `pushed` as items.
    pub proof fn lemma_run_of_pushes(&self, offset: nat, pushed: Seq<T>)
        requires
            self.offset() == offset,
            self.items() == pushed,
        ensures
            self.spec_len() == offset + pushed.len(),
            forall|k: int| 0 <= k < pushed.len() ==> #[trigger] self.at(offset + k) == pushed[k],
    {
        assert forall|k: int| 0 <= k < pushed.len() implies #[trigger] self.at(offset + k) == pushed[k] by {
            assert(offset + k - self.offset() == k);
        }
    }

    pub fn new(offset: usize) -> (result: Self)
        ensures
            result.offset() == offset,
            result.items() == Seq::<T>::empty(),
            result.wf(),
    {
        ShiftVec { offset, items: Vec::new() }
    }

    pub fn len(&self) -> (result: usize)
        requires
            self.wf(),
        ensures
            result == self.spec_len(),
    {
        self.offset + self.items.len()
    }

    pub fn push(&mut self, item: T)
        requires
            old(self).spec_len() < usize::MAX,
        ensures
            final(self).offset() == old(self).offset(),
            final(self).items() == old(self).items().push(item),
            final(self).wf(),
            final(self).spec_len() == old(self).spec_len() + 1,
            final(self).at(old(self).spec_len() as int) == item,
            forall|i: int|
                old(self).offset() <= i < old(self).spec_len() ==> #[trigger] final(self).at(i)
                    == old(self).at(i),
    {
        self.items.push(item)
    }

    /// The element at `index`; the index must lie between `offset()` and `len()`.
    pub fn index(&self, index: usize) -> (result: &T)
        requires
            self.offset() <= index < self.spec_len(),
        ensures
            *result == self.at(index as int),
    {
        &self.items[index - self.offset]
    }

    /// A mutable reference to the element at `index`; the index must lie
    /// between `offset()` and `len()`.
    pub fn index_mut(&mut self, index: usize) -> (result: &mut T)
        requires
            old(self).offset() <= index < old(self).spec_len(),
        ensures
            *result == old(self).at(index as int),
            final(self).offset() == old(self).offset(),
            final(self).items() == old(self).items().update(
                index - old(self).offset(),
                *final(result),
            ),
    {
        let position = index - self.offset;
        &mut self.items[position]
    }
}

} // verus!
