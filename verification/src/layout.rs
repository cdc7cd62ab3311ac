//! Laying the cells of a table out row after row, as a flat buffer that a
//! tensor of shape (rows, columns) reads.

use vstd::prelude::*;

verus! {

proof fn lemma_row_major_index(r: int, c: int, rows: int, width: int)
    requires
        0 <= r < rows,
        0 <= c < width,
    ensures
        0 <= r * width + c < rows * width,
        r * width + c < (r + 1) * width,
        (r + 1) * width == r * width + width,
{
    assert(0 <= r * width) by (nonlinear_arith)
        requires
            0 <= r,
            0 <= width,
    ;
    assert((r + 1) * width <= rows * width) by (nonlinear_arith)
        requires
            r + 1 <= rows,
            0 <= width,
    ;
    assert((r + 1) * width == r * width + width) by (nonlinear_arith);
}

/// The cells of `columns` (each `num_rows` long) row after row: the cell of
/// row `r` and column `c` lands at `r * width + c`.
///
/// A buffer of more than `usize::MAX` cells cannot be sized; that input is
/// left out by `requires`.
pub fn row_major<T: Copy>(columns: &Vec<Vec<T>>, num_rows: usize) -> (flat: Vec<T>)
    requires
        forall|c: int| 0 <= c < columns@.len() ==> (#[trigger] columns@[c])@.len() == num_rows,
        num_rows * columns@.len() <= usize::MAX,
    ensures
        flat@.len() == num_rows * columns@.len(),
        forall|r: int, c: int|
            0 <= r < num_rows && 0 <= c < columns@.len() ==> flat@[r * columns@.len() + c]
                == #[trigger] columns@[c]@[r],
{
    let width = columns.len();
    let mut flat: Vec<T> = Vec::new();
    let mut i: usize = 0;
    while i < num_rows
        invariant
            width == columns@.len(),
            i <= num_rows,
            forall|c: int| 0 <= c < columns@.len() ==> (#[trigger] columns@[c])@.len() == num_rows,
            num_rows * width <= usize::MAX,
            flat@.len() == i * width,
            forall|r: int, c: int|
                0 <= r < i && 0 <= c < width ==> flat@[r * width + c] == #[trigger] columns@[c]@[r],
        decreases num_rows - i,
    {
        let mut j: usize = 0;
        while j < width
            invariant
                width == columns@.len(),
                i < num_rows,
                j <= width,
                forall|c: int| 0 <= c < columns@.len() ==> (#[trigger] columns@[c])@.len() == num_rows,
                num_rows * width <= usize::MAX,
                flat@.len() == i * width + j,
                forall|r: int, c: int|
                    0 <= r < i && 0 <= c < width ==> flat@[r * width + c] == #[trigger] columns@[c]@[r],
                forall|c: int| 0 <= c < j ==> flat@[i * width + c] == #[trigger] columns@[c]@[i as int],
            decreases width - j,
        {
            proof {
                lemma_row_major_index(i as int, j as int, num_rows as int, width as int);
            }
            let value = columns[j][i];
            flat.push(value);
            proof {
                assert forall|r: int, c: int|
                    0 <= r < i && 0 <= c < width implies flat@[r * width + c]
                    == #[trigger] columns@[c]@[r] by {
                    lemma_row_major_index(r, c, i as int, width as int);
                }
            }
            j = j + 1;
        }
        proof {
            assert((i + 1) * width == i * width + width) by (nonlinear_arith);
            assert forall|r: int, c: int|
                0 <= r < i + 1 && 0 <= c < width implies flat@[r * width + c]
                == #[trigger] columns@[c]@[r] by {
                lemma_row_major_index(r, c, i + 1, width as int);
            }
        }
        i = i + 1;
    }
    flat
}

} // verus!
