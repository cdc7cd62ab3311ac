//! A growable store of model parameters, addressed by the order they were added.

use vstd::prelude::*;

verus! {

/// Holds values (tensors of a model) and hands out their addresses: the n-th
/// value pushed lives at address n.
pub struct Memory<T> {
    size: usize,
    values: Vec<T>,
}

impl<T> Memory<T> {
    /// The recorded size is the number of values held.
    pub closed spec fn wf(self) -> bool {
        self.size == self.values@.len()
    }

    /// The values held, by address.
    pub closed spec fn contents(self) -> Seq<T> {
        self.values@
    }

    /// An empty store.
    pub fn new() -> (m: Self)
        ensures
            m.wf(),
            m.contents() == Seq::<T>::empty(),
    {
        let v = Vec::new();
        Self { size: 0, values: v }
    }

    /// The number of values held.
    pub fn len(&self) -> (n: usize)
        requires
            self.wf(),
        ensures
            n == self.contents().len(),
    {
        self.size
    }

    /// Adds `value` and returns its address: the number of values held before.
    ///
    /// A store already holding `usize::MAX` values cannot count one more; that
    /// input is left out by `requires`.
    pub fn push(&mut self, value: T) -> (addr: usize)
        requires
            old(self).wf(),
            old(self).contents().len() < usize::MAX,
        ensures
            final(self).wf(),
            final(self).contents() == old(self).contents().push(value),
            addr == old(self).contents().len(),
    {
        self.values.push(value);
        self.size += 1;
        self.size - 1
    }

    /// The value at `addr`.
    ///
    /// An address past the end holds nothing; that input is left out by
    /// `requires`.
    pub fn get(&self, addr: &usize) -> (value: &T)
        requires
            *addr < self.contents().len(),
        ensures
            *value == self.contents()[*addr as int],
    {
        &self.values[*addr]
    }
}

/// Reading back the address that `push` returned gives the value pushed, and
/// leaves the values held before where they were.
pub proof fn lemma_push_then_get<T>(before: Memory<T>, after: Memory<T>, value: T)
    requires
        after.contents() == before.contents().push(value),
    ensures
        after.contents()[before.contents().len() as int] == value,
        forall|a: int|
            0 <= a < before.contents().len() ==> #[trigger] after.contents()[a]
                == before.contents()[a],
{
}

} // verus!
