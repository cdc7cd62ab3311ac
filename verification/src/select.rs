use vstd::prelude::*;

verus! {

/// Resolves an end index that may count from the back: a negative `end`
/// stands for `len + end`.
pub open spec fn resolve_end(len: int, end: int) -> int {
    if end < 0 {
        len + end
    } else {
        end
    }
}

/// Copies `items[start_idx..end]`, where a negative `end_idx` counts from the
/// back of `items` (`-1` leaves out the last item).
///
/// A resolved range that does not lie inside `items` has no copy; that input
/// is left out by `requires`.
pub fn col_select<T: Clone>(items: &[T], start_idx: usize, end_idx: isize) -> (selected: Vec<T>)
    requires
        items@.len() <= isize::MAX,
        start_idx <= resolve_end(items@.len() as int, end_idx as int) <= items@.len(),
    ensures
        selected@.len() == resolve_end(items@.len() as int, end_idx as int) - start_idx,
        forall|k: int|
            0 <= k < selected@.len() ==> cloned(items@[start_idx + k], #[trigger] selected@[k]),
{
    let mut resolved = end_idx;
    if resolved < 0 {
        resolved = items.len() as isize + resolved;
    }
    let end: usize = resolved as usize;
    let mut selected: Vec<T> = Vec::new();
    let mut i: usize = start_idx;
    while i < end
        invariant
            start_idx <= i <= end <= items@.len(),
            selected@.len() == i - start_idx,
            forall|k: int|
                0 <= k < selected@.len() ==> cloned(items@[start_idx + k], #[trigger] selected@[k]),
        decreases end - i,
    {
        let item = items[i].clone();
        selected.push(item);
        i = i + 1;
    }
    selected
}

} // verus!
