//! Mini-batch planning: which rows each mini-batch of an epoch covers.

use vstd::prelude::*;

verus! {

/// How many mini-batches of `batch_size` rows cover `num_rows` rows.
pub open spec fn batch_count(num_rows: int, batch_size: int) -> int {
    if num_rows <= 0 {
        0
    } else {
        (num_rows + batch_size - 1) / batch_size
    }
}

/// Mini-batch `i` as (first row, number of rows): from `i * batch_size`, at
/// most `batch_size` rows, cut at `num_rows`.
pub open spec fn batch_at(num_rows: int, batch_size: int, i: int) -> (int, int) {
    let start = i * batch_size;
    let end = if start + batch_size < num_rows { start + batch_size } else { num_rows };
    (start, end - start)
}

proof fn lemma_batch_start_bounds(num_rows: int, batch_size: int, i: int)
    requires
        num_rows > 0,
        batch_size > 0,
        0 <= i < batch_count(num_rows, batch_size),
    ensures
        0 <= i * batch_size < num_rows,
        (i + 1) * batch_size == i * batch_size + batch_size,
{
    let q = (num_rows + batch_size - 1) / batch_size;
    assert(q * batch_size <= num_rows + batch_size - 1) by (nonlinear_arith)
        requires
            q == (num_rows + batch_size - 1) / batch_size,
            batch_size > 0,
    ;
    assert(i * batch_size <= (q - 1) * batch_size) by (nonlinear_arith)
        requires
            i <= q - 1,
            batch_size > 0,
    ;
    assert((q - 1) * batch_size == q * batch_size - batch_size) by (nonlinear_arith);
    assert(0 <= i * batch_size) by (nonlinear_arith)
        requires
            0 <= i,
            batch_size > 0,
    ;
    assert((i + 1) * batch_size == i * batch_size + batch_size) by (nonlinear_arith);
}

/// The mini-batches that cover `num_rows` rows in order, each as (first row,
/// number of rows): every one holds `batch_size` rows but the last, which
/// holds what is left.
///
/// A batch size of 0, or a row count that overflows when the batch size is
/// added, has no plan; those inputs are left out by `requires`.
pub fn batch_ranges(num_rows: i64, batch_size: i64) -> (ranges: Vec<(i64, i64)>)
    requires
        batch_size > 0,
        num_rows + batch_size <= i64::MAX,
    ensures
        ranges@.len() == batch_count(num_rows as int, batch_size as int),
        forall|i: int|
            0 <= i < ranges@.len() ==> (#[trigger] ranges@[i]).0 == batch_at(
                num_rows as int,
                batch_size as int,
                i,
            ).0 && ranges@[i].1 == batch_at(num_rows as int, batch_size as int, i).1,
{
    let mut ranges: Vec<(i64, i64)> = Vec::new();
    if num_rows <= 0 {
        return ranges;
    }
    let num_batches = (num_rows + batch_size - 1) / batch_size;
    let mut i: i64 = 0;
    while i < num_batches
        invariant
            num_rows > 0,
            batch_size > 0,
            num_rows + batch_size <= i64::MAX,
            num_batches == batch_count(num_rows as int, batch_size as int),
            0 <= i <= num_batches,
            ranges@.len() == i,
            forall|k: int|
                0 <= k < i ==> (#[trigger] ranges@[k]).0 == batch_at(
                    num_rows as int,
                    batch_size as int,
                    k,
                ).0 && ranges@[k].1 == batch_at(num_rows as int, batch_size as int, k).1,
        decreases num_batches - i,
    {
        proof {
            lemma_batch_start_bounds(num_rows as int, batch_size as int, i as int);
        }
        let start = i * batch_size;
        let end = if start + batch_size < num_rows { start + batch_size } else { num_rows };
        ranges.push((start, end - start));
        i = i + 1;
    }
    ranges
}

/// The mini-batches partition the rows: the first starts at row 0, each
/// starts where the one before ended, the last ends at `num_rows`, and every
/// one but the last holds exactly `batch_size` rows (the last at least one).
pub proof fn lemma_batches_partition_rows(num_rows: int, batch_size: int)
    requires
        num_rows > 0,
        batch_size > 0,
    ensures
        batch_count(num_rows, batch_size) >= 1,
        batch_at(num_rows, batch_size, 0).0 == 0,
        forall|i: int|
            0 <= i < batch_count(num_rows, batch_size) - 1 ==> #[trigger] batch_at(
                num_rows,
                batch_size,
                i,
            ).1 == batch_size && batch_at(num_rows, batch_size, i).0 + batch_size == batch_at(
                num_rows,
                batch_size,
                i + 1,
            ).0,
        ({
            let last = batch_at(num_rows, batch_size, batch_count(num_rows, batch_size) - 1);
            last.0 + last.1 == num_rows && 1 <= last.1 <= batch_size
        }),
{
    let q = batch_count(num_rows, batch_size);
    assert(q >= 1) by (nonlinear_arith)
        requires
            q == (num_rows + batch_size - 1) / batch_size,
            num_rows > 0,
            batch_size > 0,
    ;
    assert((q - 1) * batch_size < num_rows && num_rows <= q * batch_size) by (nonlinear_arith)
        requires
            q == (num_rows + batch_size - 1) / batch_size,
            num_rows > 0,
            batch_size > 0,
    ;
    assert forall|i: int| 0 <= i < q - 1 implies #[trigger] batch_at(num_rows, batch_size, i).1
        == batch_size && batch_at(num_rows, batch_size, i).0 + batch_size == batch_at(
        num_rows,
        batch_size,
        i + 1,
    ).0 by {
        assert((i + 1) * batch_size == i * batch_size + batch_size) by (nonlinear_arith);
        assert((i + 1) * batch_size <= (q - 1) * batch_size) by (nonlinear_arith)
            requires
                i + 1 <= q - 1,
                batch_size > 0,
        ;
    }
    assert(q * batch_size == (q - 1) * batch_size + batch_size) by (nonlinear_arith);
}

} // verus!
