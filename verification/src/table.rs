//! Frame-level operations: unwrapping polars results, positional selection
//! (`iloc`), and the distinct values of a column.

use polars::prelude::{DataFrame, PolarsError, Series};
use vstd::prelude::*;

use crate::frame::{
    column_names,
    column_named, default_series_name, first_named, frame_column_names, frame_columns, frame_default, frame_select,
    frame_column, frame_slice, frame_wf, has_column, height, lists_values_of, names_distinct, slice_column, series_column,
    series_default, series_len, series_unique, slice_frame, ColumnView, frame_height,
};
use crate::select::{col_select, resolve_end};

verus! {

/// The frame held by `Ok`; a frame without columns for an error.
pub fn get_df_result(new_df: Result<DataFrame, PolarsError>) -> (df: DataFrame)
    ensures
        new_df matches Ok(d) ==> df == d,
        new_df is Err ==> frame_columns(df) == Seq::<ColumnView>::empty(),
{
    match new_df {
        Ok(df) => df,
        Err(_) => frame_default(),
    }
}

/// The series held by `Ok`; polars' empty default series for an error.
pub fn get_sr_result(new_sr: Result<Series, PolarsError>) -> (sr: Series)
    ensures
        new_sr matches Ok(s) ==> sr == s,
        new_sr is Err ==> series_column(sr) == (ColumnView {
            name: default_series_name(),
            dtype: "Null"@,
            cells: Seq::empty(),
        }),
{
    match new_sr {
        Ok(sr) => sr,
        Err(_) => series_default(),
    }
}

/// The column range that `pandas_iloc` keeps ends here: a negative end counts
/// from the back, and a result still negative counts from the back once more.
pub open spec fn iloc_col_end(width: int, col_end_idx: int) -> int {
    resolve_end(width, resolve_end(width, col_end_idx))
}

/// What `pandas_iloc` gives: columns `col_start..col_end` (see
/// `iloc_col_end`), each cut to the rows that polars' slice at offset
/// `row_start` of length `row_end - row_start` keeps.
pub open spec fn iloc(
    cols: Seq<ColumnView>,
    col_start: int,
    col_end_idx: int,
    row_start: usize,
    row_end: usize,
) -> Seq<ColumnView> {
    let picked = cols.subrange(col_start, iloc_col_end(cols.len() as int, col_end_idx));
    slice_frame(picked, row_start as i64, row_end - row_start)
}

/// The cells of `c` from row `lo` to row `hi`.
pub open spec fn cut_rows(c: ColumnView, lo: int, hi: int) -> ColumnView {
    ColumnView { name: c.name, dtype: c.dtype, cells: c.cells.subrange(lo, hi) }
}

/// For a row start that `i64` holds, `iloc` keeps rows `row_start..row_end`
/// cut at the frame's height.
pub proof fn lemma_iloc_rows(
    cols: Seq<ColumnView>,
    col_start: int,
    col_end_idx: int,
    row_start: usize,
    row_end: usize,
)
    requires
        frame_wf(cols),
        0 <= col_start <= iloc_col_end(cols.len() as int, col_end_idx) <= cols.len(),
        row_start <= row_end,
        row_start <= i64::MAX,
    ensures
        ({
            let h = height(cols);
            let lo = if row_start < h { row_start as int } else { h };
            let hi = if row_end < h { row_end as int } else { h };
            iloc(cols, col_start, col_end_idx, row_start, row_end) == cols.subrange(
                col_start,
                iloc_col_end(cols.len() as int, col_end_idx),
            ).map_values(|c: ColumnView| cut_rows(c, lo, hi))
        }),
{
    let h = height(cols);
    let lo = if row_start < h { row_start as int } else { h };
    let hi = if row_end < h { row_end as int } else { h };
    let picked = cols.subrange(col_start, iloc_col_end(cols.len() as int, col_end_idx));
    let expected = picked.map_values(|c: ColumnView| cut_rows(c, lo, hi));
    assert(row_start as i64 as int == row_start as int);
    assert forall|k: int| 0 <= k < picked.len() implies #[trigger] picked[k].cells.len() == h by {
        assert(picked[k] == cols[col_start + k]);
    }
    if row_start as i64 == 0 && row_end - row_start == height(picked) {
        assert forall|k: int| 0 <= k < picked.len() implies #[trigger] picked[k] == expected[k] by {
            assert(picked[k].cells.subrange(lo, hi) =~= picked[k].cells);
        }
        assert(picked =~= expected);
    } else {
        let sliced = picked.map_values(
            |c: ColumnView| slice_column(c, row_start as i64, row_end - row_start),
        );
        assert forall|k: int| 0 <= k < picked.len() implies #[trigger] sliced[k] == expected[k] by {
            assert(sliced[k].cells =~= expected[k].cells);
        }
        assert(sliced =~= expected);
    }
}

/// In a frame with distinct names, the column found by name is the one at that
/// position.
pub proof fn lemma_column_named_at(cols: Seq<ColumnView>, k: int)
    requires
        names_distinct(cols),
        0 <= k < cols.len(),
    ensures
        first_named(cols, cols[k].name, k),
        column_named(cols, cols[k].name) == cols[k],
        has_column(cols, cols[k].name),
{
    let p = choose|p: int| first_named(cols, cols[k].name, p);
    assert(first_named(cols, cols[k].name, k));
    assert(p == k);
}

/// Selects columns by position and rows by position, like pandas' `iloc`:
/// columns `col_start_idx..col_end_idx` (a negative end counts from the back)
/// and rows `row_start_idx..row_end_idx` (cut at the frame's height).
///
/// It is not defined when the column range does not lie inside the frame or
/// the row range is reversed; those inputs are left out by `requires`.
pub fn pandas_iloc(
    df: &DataFrame,
    col_start_idx: usize,
    col_end_idx: isize,
    row_start_idx: usize,
    row_end_idx: usize,
) -> (out: DataFrame)
    requires
        frame_wf(frame_columns(*df)),
        frame_columns(*df).len() <= isize::MAX,
        col_start_idx <= iloc_col_end(frame_columns(*df).len() as int, col_end_idx as int)
            <= frame_columns(*df).len(),
        row_start_idx <= row_end_idx,
    ensures
        frame_columns(out) == iloc(
            frame_columns(*df),
            col_start_idx as int,
            col_end_idx as int,
            row_start_idx,
            row_end_idx,
        ),
{
    let ghost cols = frame_columns(*df);
    let column_names = frame_column_names(df);
    proof {
        assert(column_names@.len() == cols.len()) by {
            assert(column_names@.map_values(|s: String| s@).len() == column_names@.len());
        }
    }
    let mut col_end_idx = col_end_idx;
    if col_end_idx < 0 {
        col_end_idx = column_names.len() as isize + col_end_idx;
    }
    let new_cols = col_select(column_names.as_slice(), col_start_idx, col_end_idx);
    let ghost end = iloc_col_end(cols.len() as int, col_end_idx as int);
    proof {
        assert forall|k: int| 0 <= k < new_cols@.len() implies #[trigger] new_cols@[k]@ == cols[
            col_start_idx + k].name by {
            assert(cloned(column_names@[col_start_idx + k], new_cols@[k]));
            assert(column_names@.map_values(|s: String| s@)[col_start_idx + k] == cols.map_values(
                |c: ColumnView| c.name,
            )[col_start_idx + k]);
        }
        let sel = new_cols@.map_values(|s: String| s@);
        assert forall|a: int, b: int| 0 <= a < sel.len() && 0 <= b < sel.len() && a != b implies sel[a]
            != sel[b] by {
            assert(sel[a] == cols[col_start_idx + a].name);
            assert(sel[b] == cols[col_start_idx + b].name);
        }
        assert forall|k: int| 0 <= k < new_cols@.len() implies has_column(
            cols,
            #[trigger] new_cols@[k]@,
        ) by {
            lemma_column_named_at(cols, col_start_idx + k);
        }
    }
    let selected = frame_select(df, &new_cols);
    let new_df = get_df_result(selected);
    proof {
        let picked = cols.subrange(col_start_idx as int, end);
        assert(frame_columns(new_df) =~= picked) by {
            assert forall|k: int| 0 <= k < picked.len() implies #[trigger] frame_columns(new_df)[k]
                == picked[k] by {
                lemma_column_named_at(cols, col_start_idx + k);
            }
        }
    }
    frame_slice(&new_df, row_start_idx as i64, row_end_idx - row_start_idx)
}

/// Whether `df` has a column named `name`.
pub fn has_column_named(df: &DataFrame, name: &str) -> (found: bool)
    ensures
        found == has_column(frame_columns(*df), name@),
{
    frame_column(df, name).is_ok()
}

/// Whether `df` is well formed: distinct names, columns of one length, and no
/// more rows than polars' `u32` row index counts.
pub fn frame_is_well_formed(df: &DataFrame) -> (wf: bool)
    ensures
        wf == frame_wf(frame_columns(*df)),
{
    let ghost cols = frame_columns(*df);
    let names = frame_column_names(df);
    let ghost texts = names@.map_values(|s: String| s@);
    assert(texts.len() == names@.len());
    assert(column_names(cols).len() == cols.len());
    let h = frame_height(df);
    if h as u64 > 4294967295u64 {
        return false;
    }
    let mut i: usize = 0;
    while i < names.len()
        invariant
            i <= names@.len(),
            names@.len() == cols.len(),
            cols == frame_columns(*df),
            texts == names@.map_values(|s: String| s@),
            texts == column_names(cols),
            forall|a: int, b: int| 0 <= a < i && 0 <= b < i && a != b ==> cols[a].name != cols[b].name,
        decreases names@.len() - i,
    {
        let mut j: usize = 0;
        while j < i
            invariant
                i < names@.len(),
                j <= i,
                names@.len() == cols.len(),
                cols == frame_columns(*df),
                texts == names@.map_values(|s: String| s@),
                texts == column_names(cols),
                forall|a: int, b: int| 0 <= a < i && 0 <= b < i && a != b ==> cols[a].name != cols[b].name,
                forall|b: int| 0 <= b < j ==> cols[i as int].name != cols[b].name,
            decreases i - j,
        {
            assert(texts[i as int] == names@[i as int]@ && texts[j as int] == names@[j as int]@);
            assert(texts[i as int] == cols[i as int].name && texts[j as int] == cols[j as int].name);
            if names[i] == names[j] {
                assert(!names_distinct(cols));
                return false;
            }
            j = j + 1;
        }
        i = i + 1;
    }
    assert(names_distinct(cols));
    let mut k: usize = 0;
    while k < names.len()
        invariant
            k <= names@.len(),
            names@.len() == cols.len(),
            cols == frame_columns(*df),
            texts == names@.map_values(|s: String| s@),
            texts == column_names(cols),
            names_distinct(cols),
            h == height(cols),
            h <= u32::MAX,
            forall|m: int| 0 <= m < k ==> #[trigger] cols[m].cells.len() == h,
        decreases names@.len() - k,
    {
        assert(texts[k as int] == names@[k as int]@);
        assert(texts[k as int] == cols[k as int].name);
        proof {
            lemma_column_named_at(cols, k as int);
        }
        let name: &str = names[k].as_str();
        assert(name@ == cols[k as int].name);
        let column = frame_column(df, name).unwrap();
        proof {
            let p = choose|p: int| first_named(cols, cols[k as int].name, p) && series_column(column) == cols[p];
            assert(p == k);
        }
        if series_len(&column) != h {
            return false;
        }
        k = k + 1;
    }
    true
}

/// The distinct values of the column named `column_name`, each once (for a
/// string column in the order of polars' hash set).
///
/// It is not defined when no column has that name, or when the column holds
/// lists, for which polars refuses `unique` (see `unique_values_if_supported`);
/// those inputs are left out by `requires`.
pub fn get_unique_values(df: &mut DataFrame, column_name: &str) -> (r: Result<Series, PolarsError>)
    requires
        has_column(frame_columns(*old(df)), column_name@),
        !column_named(frame_columns(*old(df)), column_name@).is_list(),
    ensures
        *final(df) == *old(df),
        r matches Ok(u) && lists_values_of(
            series_column(u),
            column_named(frame_columns(*old(df)), column_name@),
        ),
{
    let column = frame_column(df, column_name).unwrap();
    proof {
        let cols = frame_columns(*df);
        let p = choose|p: int| first_named(cols, column_name@, p) && series_column(column) == cols[p];
        let q = choose|q: int| first_named(cols, column_name@, q);
        assert(p == q);
    }
    series_unique(&column)
}

/// Asks polars for the distinct values of the column named `column_name`
/// and, where it does not refuse them (a column of lists), answers as
/// `get_unique_values`; `None` where it refuses.
///
/// It is not defined when no column has that name; that input is left out by
/// `requires`.
pub fn unique_values_if_supported(df: &mut DataFrame, column_name: &str) -> (r: Option<Series>)
    requires
        has_column(frame_columns(*old(df)), column_name@),
    ensures
        *final(df) == *old(df),
        r is None <==> column_named(frame_columns(*old(df)), column_name@).is_list(),
        r matches Some(u) ==> lists_values_of(
            series_column(u),
            column_named(frame_columns(*old(df)), column_name@),
        ),
{
    let column = frame_column(df, column_name).unwrap();
    proof {
        let cols = frame_columns(*df);
        let p = choose|p: int| first_named(cols, column_name@, p) && series_column(column) == cols[p];
        let q = choose|q: int| first_named(cols, column_name@, q);
        assert(p == q);
    }
    match series_unique(&column) {
        Err(_) => None,
        Ok(_) => {
            let values = get_unique_values(df, column_name);
            Some(values.unwrap())
        },
    }
}

} // verus!
