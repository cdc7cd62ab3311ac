//! Splitting the rows of a frame into a training part and a test part.

use polars::prelude::DataFrame;
use vstd::prelude::*;
use vstd::set_lib::{lemma_int_range, lemma_subset_equality, set_int_range};

use crate::frame::{
    frame_columns, frame_height, frame_sample_all, frame_slice, frame_wf, height, is_permutation,
    pick_rows, rows_reordered, slice_bounds, slice_column, slice_frame, ColumnView,
};

verus! {

/// The columns of `cols` cut to the rows listed in `rows`, in that order.
pub open spec fn frame_rows(cols: Seq<ColumnView>, rows: Seq<int>) -> Seq<ColumnView> {
    cols.map_values(|c: ColumnView| pick_rows(c, rows))
}

/// `train` holds the first `height - test_rows` rows of some order of the rows
/// of `cols`, and `test` the last `test_rows`; the order is the rows' own
/// unless `shuffled`.
pub open spec fn split_of(
    cols: Seq<ColumnView>,
    test_rows: int,
    shuffled: bool,
    train: Seq<ColumnView>,
    test: Seq<ColumnView>,
) -> bool {
    let n = height(cols);
    exists|p: Seq<int>|
        #![trigger is_permutation(p, n)]
        is_permutation(p, n) && (!shuffled ==> p == Seq::new(n as nat, |i: int| i)) && train
            == frame_rows(cols, p.subrange(0, n - test_rows)) && test == frame_rows(
            cols,
            p.subrange(n - test_rows, n),
        )
}

/// Slicing rows `start..start + len` of a frame whose columns are all `n` rows
/// long gives those rows.
proof fn lemma_slice_picked(cols: Seq<ColumnView>, p: Seq<int>, start: int, len: int)
    requires
        frame_wf(cols),
        p.len() == height(cols),
        0 <= start,
        0 <= len,
        start + len <= height(cols),
        forall|i: int| 0 <= i < p.len() ==> 0 <= #[trigger] p[i] < height(cols),
    ensures
        slice_frame(frame_rows(cols, p), start as i64, len) == frame_rows(
            cols,
            p.subrange(start, start + len),
        ),
{
    let n = height(cols);
    let picked = frame_rows(cols, p);
    assert(height(picked) == (if cols.len() == 0 { 0 } else { n }));
    assert(slice_bounds(start as i64, len, n) == (start, len));
    if start == 0 && len == height(picked) {
        assert forall|c: int| 0 <= c < cols.len() implies #[trigger] picked[c] == frame_rows(
            cols,
            p.subrange(start, start + len),
        )[c] by {
            assert(p.subrange(start, start + len) =~= p);
        }
        assert(picked =~= frame_rows(cols, p.subrange(start, start + len)));
    } else {
        let sliced = picked.map_values(|c: ColumnView| slice_column(c, start as i64, len));
        assert forall|c: int| 0 <= c < cols.len() implies #[trigger] sliced[c] == frame_rows(
            cols,
            p.subrange(start, start + len),
        )[c] by {
            assert(picked[c].cells.len() == n);
            assert(sliced[c].cells =~= frame_rows(cols, p.subrange(start, start + len))[c].cells);
        }
        assert(sliced =~= frame_rows(cols, p.subrange(start, start + len)));
    }
}

/// Splits the rows of `df` into a training frame and a test frame of
/// `test_rows` rows: the rows are first put in an order (shuffled by polars'
/// sampler seeded with `seed` when `is_shuffle`, else their own), then the
/// first `height - test_rows` go to training and the rest to test.
///
/// More test rows than the frame holds cannot be taken; that input is left
/// out by `requires`.
pub fn train_test_split_rows(df: DataFrame, test_rows: usize, is_shuffle: bool, seed: u64) -> (parts: (
    DataFrame,
    DataFrame,
))
    requires
        frame_wf(frame_columns(df)),
        test_rows <= height(frame_columns(df)),
    ensures
        split_of(
            frame_columns(df),
            test_rows as int,
            is_shuffle,
            frame_columns(parts.0),
            frame_columns(parts.1),
        ),
{
    let ghost cols = frame_columns(df);
    let num_rows = frame_height(&df);
    let shuffled_df = frame_sample_all(&df, num_rows, is_shuffle, seed).unwrap();
    let ghost n = num_rows as int;
    let ghost p = choose|p: Seq<int>|
        #![trigger is_permutation(p, n)]
        is_permutation(p, n) && (!is_shuffle ==> p == Seq::new(n as nat, |i: int| i))
            && frame_columns(shuffled_df) == cols.map_values(|c: ColumnView| pick_rows(c, p));
    assert(rows_reordered(cols, frame_columns(shuffled_df), is_shuffle));
    let df_train = frame_slice(&shuffled_df, 0, num_rows - test_rows);
    let offset: i64 = (num_rows - test_rows) as i64;
    let df_test = frame_slice(&shuffled_df, offset, test_rows);
    proof {
        lemma_slice_picked(cols, p, 0, n - test_rows);
        lemma_slice_picked(cols, p, n - test_rows, test_rows as int);
        assert(split_of(cols, test_rows as int, is_shuffle, frame_columns(df_train), frame_columns(df_test)));
    }
    (df_train, df_test)
}

/// Every index below `n` occurs in a permutation of `0..n`.
pub proof fn lemma_permutation_covers(p: Seq<int>, n: int)
    requires
        is_permutation(p, n),
    ensures
        forall|x: int| 0 <= x < n ==> #[trigger] p.contains(x),
{
    p.unique_seq_to_set();
    lemma_int_range(0, n);
    assert(p.to_set().subset_of(set_int_range(0, n))) by {
        assert forall|x: int| p.to_set().contains(x) implies set_int_range(0, n).contains(x) by {
            let i = choose|i: int| 0 <= i < p.len() && p[i] == x;
            assert(0 <= p[i] < n);
        }
    }
    lemma_subset_equality(p.to_set(), set_int_range(0, n));
    assert forall|x: int| 0 <= x < n implies #[trigger] p.contains(x) by {
        assert(set_int_range(0, n).contains(x));
        assert(p.to_set().contains(x));
    }
}

/// A split puts every row in exactly one of its two parts: the positions
/// listed for training and for test together name each row once.
pub proof fn lemma_split_places_each_row_once(p: Seq<int>, n: int, test_rows: int)
    requires
        is_permutation(p, n),
        0 <= test_rows <= n,
    ensures
        forall|x: int|
            0 <= x < n ==> (#[trigger] p.subrange(0, n - test_rows).contains(x) <==> !p.subrange(
                n - test_rows,
                n,
            ).contains(x)),
{
    lemma_permutation_covers(p, n);
    let train = p.subrange(0, n - test_rows);
    let test = p.subrange(n - test_rows, n);
    assert forall|x: int| 0 <= x < n implies (#[trigger] train.contains(x) <==> !test.contains(x)) by {
        assert(p.contains(x));
        let i = choose|i: int| 0 <= i < p.len() && p[i] == x;
        if i < n - test_rows {
            assert(train[i] == x);
            if test.contains(x) {
                let j = choose|j: int| 0 <= j < test.len() && test[j] == x;
                assert(p[n - test_rows + j] == x);
            }
        } else {
            assert(test[i - (n - test_rows)] == x);
            if train.contains(x) {
                let j = choose|j: int| 0 <= j < train.len() && train[j] == x;
                assert(p[j] == x);
            }
        }
    }
}

} // verus!
