//! The boundary with polars: the declared polars types, the model of what a
//! data frame holds, and one trusted wrapper per polars function the logic calls.

use polars::prelude::{AnyValue, DataFrame, NamedFrom, PolarsError, Series};
use vstd::prelude::*;

verus! {

#[verifier::external_type_specification]
#[verifier::external_body]
pub struct ExDataFrame(DataFrame);

#[verifier::external_type_specification]
#[verifier::external_body]
pub struct ExSeries(Series);

#[verifier::external_type_specification]
#[verifier::external_body]
pub struct ExPolarsError(PolarsError);

/// One cell of a column, as `Series::get` hands it out.
pub enum CellView {
    /// `AnyValue::String`: a value of a string column.
    Text(Seq<char>),
    /// `AnyValue::Null`: a missing value.
    Null,
    /// `AnyValue::Boolean`.
    Boolean(bool),
    /// `AnyValue::UInt8`.
    UInt8(u8),
    /// `AnyValue::UInt16`.
    UInt16(u16),
    /// `AnyValue::UInt32`.
    UInt32(u32),
    /// `AnyValue::UInt64`.
    UInt64(u64),
    /// `AnyValue::Int8`.
    Int8(i8),
    /// `AnyValue::Int16`.
    Int16(i16),
    /// `AnyValue::Int32`.
    Int32(i32),
    /// `AnyValue::Int64`.
    Int64(i64),
    /// `AnyValue::Float32`, held by the bits of the value.
    Float32(u32),
    /// `AnyValue::Float64`, held by the bits of the value.
    Float64(u64),
    /// `AnyValue::Binary`.
    Binary(Seq<u8>),
    /// `AnyValue::Date`: days since the epoch.
    Date(i32),
    /// `AnyValue::Datetime`: the count in the column's time unit.
    Datetime(i64),
    /// `AnyValue::Duration`: the count in the column's time unit.
    Duration(i64),
    /// `AnyValue::Time`: nanoseconds since midnight.
    Time(i64),
    /// Any other value (in the polars built here, a list); the model does not
    /// tell such values apart.
    Other,
}

/// A column: its name, its dtype (as `{:?}` writes polars' `DataType`), and
/// its cells in row order.
pub struct ColumnView {
    pub name: Seq<char>,
    pub dtype: Seq<char>,
    pub cells: Seq<CellView>,
}

impl ColumnView {
    /// A column of dtype `String`.
    pub open spec fn is_text(self) -> bool {
        self.dtype == "String"@
    }
}

/// What a polars `DataFrame` holds: its columns, left to right, each cell as
/// `Series::get` hands it out.
pub uninterp spec fn frame_columns(df: DataFrame) -> Seq<ColumnView>;

/// What a polars `Series` holds: its name, whether its dtype is `String`, and
/// each cell as `Series::get` hands it out.
pub uninterp spec fn series_column(s: Series) -> ColumnView;

impl ColumnView {
    /// A column of lists (dtype `List(..)`).
    pub open spec fn is_list(self) -> bool {
        "List("@.is_prefix_of(self.dtype)
    }
}

/// The decimal digits of `n`.
pub open spec fn digits(n: nat) -> Seq<char>
    decreases n,
{
    let d = seq!['0', '1', '2', '3', '4', '5', '6', '7', '8', '9'];
    if n < 10 {
        seq![d[n as int]]
    } else {
        digits(n / 10).push(d[(n % 10) as int])
    }
}

/// How `{:?}` writes an integer.
pub open spec fn decimal(v: int) -> Seq<char> {
    if v < 0 {
        seq!['-'] + digits((-v) as nat)
    } else {
        digits(v as nat)
    }
}

/// Whether the model holds the text of a cell: strings, missing values,
/// booleans, 32- and 64-bit integers.
pub open spec fn has_known_text(cell: CellView) -> bool {
    cell is Text || cell is Null || cell is Boolean || cell is Int32 || cell is Int64
}

/// The text of a cell: the string itself for a string value, the `Debug`
/// rendering of the value otherwise (left empty where the model does not hold
/// it).
pub open spec fn render(cell: CellView) -> Seq<char> {
    match cell {
        CellView::Text(s) => s,
        CellView::Null => seq!['N', 'u', 'l', 'l'],
        CellView::Boolean(b) => seq!['B', 'o', 'o', 'l', 'e', 'a', 'n', '('] + (if b {
            seq!['t', 'r', 'u', 'e']
        } else {
            seq!['f', 'a', 'l', 's', 'e']
        }) + seq![')'],
        CellView::Int32(v) => seq!['I', 'n', 't', '3', '2', '('] + decimal(v as int) + seq![')'],
        CellView::Int64(v) => seq!['I', 'n', 't', '6', '4', '('] + decimal(v as int) + seq![')'],
        _ => Seq::empty(),
    }
}

/// The number of rows: the length of the first column, 0 without columns.
pub open spec fn height(cols: Seq<ColumnView>) -> int {
    if cols.len() == 0 {
        0
    } else {
        cols[0].cells.len() as int
    }
}

pub open spec fn column_names(cols: Seq<ColumnView>) -> Seq<Seq<char>> {
    cols.map_values(|c: ColumnView| c.name)
}

pub open spec fn names_distinct(cols: Seq<ColumnView>) -> bool {
    forall|i: int, j: int|
        0 <= i < cols.len() && 0 <= j < cols.len() && i != j ==> cols[i].name != cols[j].name
}

/// What every polars data frame keeps: distinct names, columns of one length,
/// and no more rows than polars' `u32` row index can count.
pub open spec fn frame_wf(cols: Seq<ColumnView>) -> bool {
    &&& names_distinct(cols)
    &&& forall|i: int| 0 <= i < cols.len() ==> #[trigger] cols[i].cells.len() == height(cols)
    &&& height(cols) <= u32::MAX
}

/// `p` is the position of the first column named `name`.
pub open spec fn first_named(cols: Seq<ColumnView>, name: Seq<char>, p: int) -> bool {
    &&& 0 <= p < cols.len()
    &&& cols[p].name == name
    &&& forall|q: int| 0 <= q < p ==> cols[q].name != name
}

pub open spec fn has_column(cols: Seq<ColumnView>, name: Seq<char>) -> bool {
    exists|p: int| 0 <= p < cols.len() && cols[p].name == name
}

/// The column named `name` (meaningful where it exists and names are distinct).
pub open spec fn column_named(cols: Seq<ColumnView>, name: Seq<char>) -> ColumnView {
    cols[choose|p: int| first_named(cols, name, p)]
}

/// polars' `slice_offsets`: where a slice of `length` rows at `offset` starts,
/// and how many rows it keeps, in a column of `n` rows.
pub open spec fn slice_bounds(offset: i64, length: int, n: int) -> (int, int) {
    let abs = (if offset < 0 { -(offset as int) } else { offset as int }) as usize as int;
    if offset < 0 {
        if abs <= n {
            (n - abs, if length < abs { length } else { abs })
        } else {
            (0, if length < n { length } else { n })
        }
    } else if abs <= n {
        (abs, if length < n - abs { length } else { n - abs })
    } else {
        (n, 0)
    }
}

pub open spec fn slice_column(c: ColumnView, offset: i64, length: int) -> ColumnView {
    let (start, len) = slice_bounds(offset, length, c.cells.len() as int);
    ColumnView { name: c.name, dtype: c.dtype, cells: c.cells.subrange(start, start + len) }
}

/// polars' `DataFrame::slice`.
pub open spec fn slice_frame(cols: Seq<ColumnView>, offset: i64, length: int) -> Seq<ColumnView> {
    if offset == 0 && length == height(cols) {
        cols
    } else {
        cols.map_values(|c: ColumnView| slice_column(c, offset, length))
    }
}

/// polars' `with_column`: replace the column of that name, or append it.
pub open spec fn add_or_replace(cols: Seq<ColumnView>, c: ColumnView) -> Seq<ColumnView> {
    if has_column(cols, c.name) {
        cols.update(choose|p: int| first_named(cols, c.name, p), c)
    } else {
        cols.push(c)
    }
}

/// `p` lists each of `0..n` once.
pub open spec fn is_permutation(p: Seq<int>, n: int) -> bool {
    &&& p.len() == n
    &&& forall|i: int| 0 <= i < n ==> 0 <= #[trigger] p[i] < n
    &&& p.no_duplicates()
}

/// The rows of `c` at the positions `p`, in that order.
pub open spec fn pick_rows(c: ColumnView, p: Seq<int>) -> ColumnView {
    ColumnView { name: c.name, dtype: c.dtype, cells: Seq::new(p.len(), |i: int| c.cells[p[i]]) }
}

/// `out` holds the rows of `cols` in some order: in their own order unless
/// `shuffled`.
pub open spec fn rows_reordered(cols: Seq<ColumnView>, out: Seq<ColumnView>, shuffled: bool) -> bool {
    exists|p: Seq<int>|
        #![trigger is_permutation(p, height(cols))]
        is_permutation(p, height(cols)) && (!shuffled ==> p == Seq::new(height(cols) as nat, |i: int| i))
            && out == cols.map_values(|c: ColumnView| pick_rows(c, p))
}

/// `u` holds each value of `c` exactly once (a missing value too), under the
/// same name and dtype.
pub open spec fn lists_values_of(u: ColumnView, c: ColumnView) -> bool {
    &&& u.cells.to_set() == c.cells.to_set()
    &&& u.cells.no_duplicates()
    &&& u.name == c.name
    &&& u.dtype == c.dtype
}

/// The text of an optional string.
pub open spec fn option_text(v: Option<String>) -> Option<Seq<char>> {
    match v {
        Some(t) => Some(t@),
        None => None,
    }
}

pub open spec fn text_values(cells: Seq<CellView>) -> Seq<Option<Seq<char>>> {
    cells.map_values(
        |cell: CellView|
            match cell {
                CellView::Text(s) => Some(s),
                _ => None,
            },
    )
}

pub open spec fn int32_column(name: Seq<char>, values: Seq<i32>) -> ColumnView {
    ColumnView {
        name,
        dtype: "Int32"@,
        cells: values.map_values(|v: i32| CellView::Int32(v)),
    }
}

/// Wraps `DataFrame::get_column_names`: the names, left to right.
#[verifier::external_body]
pub(crate) fn frame_column_names(df: &DataFrame) -> (names: Vec<String>)
    ensures
        names@.map_values(|s: String| s@) == column_names(frame_columns(*df)),
{
    let mut names = Vec::new();
    for name in df.get_column_names() {
        names.push(name.to_string());
    }
    names
}

/// Wraps `DataFrame::height`: the length of the first column, 0 without columns.
#[verifier::external_body]
pub(crate) fn frame_height(df: &DataFrame) -> (h: usize)
    ensures
        h == height(frame_columns(*df)),
{
    df.height()
}

/// Wraps `DataFrame::default`: a frame without columns.
#[verifier::external_body]
pub(crate) fn frame_default() -> (df: DataFrame)
    ensures
        frame_columns(df) == Seq::<ColumnView>::empty(),
{
    DataFrame::default()
}

/// The name polars gives a default series.
pub open spec fn default_series_name() -> Seq<char> {
    seq!['d', 'e', 'f', 'a', 'u', 'l', 't']
}

/// Wraps `Series::default`: an empty series named "default", whose dtype
/// polars records as `Null`.
#[verifier::external_body]
pub(crate) fn series_default() -> (s: Series)
    ensures
        series_column(s) == (ColumnView {
            name: default_series_name(),
            dtype: "Null"@,
            cells: Seq::empty(),
        }),
{
    Series::default()
}

/// Wraps `DataFrame::column`: found when some column has that name, and then
/// a copy of the first such column.
#[verifier::external_body]
pub(crate) fn frame_column(df: &DataFrame, name: &str) -> (r: Result<Series, PolarsError>)
    ensures
        r is Ok <==> has_column(frame_columns(*df), name@),
        r matches Ok(s) ==> exists|p: int|
            first_named(frame_columns(*df), name@, p) && series_column(s) == frame_columns(*df)[p],
{
    df.column(name).cloned()
}

/// Wraps `DataFrame::select`. Where the frame's names are distinct, it
/// succeeds exactly when the selection names existing columns, none twice,
/// and then holds those columns in the selection's order.
#[verifier::external_body]
pub(crate) fn frame_select(df: &DataFrame, selection: &Vec<String>) -> (r: Result<DataFrame, PolarsError>)
    ensures
        names_distinct(frame_columns(*df)) ==> {
            &&& (r is Ok <==> (selection@.map_values(|s: String| s@).no_duplicates() && forall|k: int|
                0 <= k < selection@.len() ==> has_column(frame_columns(*df), #[trigger] selection@[k]@)))
            &&& (r matches Ok(out) ==> frame_columns(out) == selection@.map_values(
                |s: String| column_named(frame_columns(*df), s@)))
        },
{
    df.select(selection)
}

/// Wraps `DataFrame::slice`.
#[verifier::external_body]
pub(crate) fn frame_slice(df: &DataFrame, offset: i64, length: usize) -> (out: DataFrame)
    ensures
        frame_columns(out) == slice_frame(frame_columns(*df), offset, length as int),
{
    df.slice(offset, length)
}

/// Wraps `DataFrame::with_column` for a column of the frame's height: it
/// replaces the column of that name, or appends it.
#[verifier::external_body]
pub(crate) fn frame_with_column(df: &mut DataFrame, column: Series) -> (r: Result<(), PolarsError>)
    requires
        series_column(column).cells.len() == height(frame_columns(*old(df))),
    ensures
        r is Ok,
        frame_columns(*final(df)) == add_or_replace(frame_columns(*old(df)), series_column(column)),
{
    match df.with_column(column) {
        Ok(_) => Ok(()),
        Err(e) => Err(e),
    }
}

/// Wraps `DataFrame::sample_n_literal` taking every row once, without
/// replacement: the rows come back in some order, in their own order when
/// `shuffle` is false. Which order the shuffle picks rests on polars' seeded
/// generator, whose stream differs between 32- and 64-bit machines; it is left unsaid.
#[verifier::external_body]
pub(crate) fn frame_sample_all(df: &DataFrame, n: usize, shuffle: bool, seed: u64) -> (r: Result<DataFrame, PolarsError>)
    requires
        frame_wf(frame_columns(*df)),
        n == height(frame_columns(*df)),
    ensures
        r is Ok,
        r matches Ok(out) ==> rows_reordered(frame_columns(*df), frame_columns(out), shuffle),
{
    df.sample_n_literal(n, false, shuffle, Some(seed))
}

/// Wraps `Series::unique`: the distinct values, each once, under the same name
/// and dtype (in an order of polars' hash set for strings and binaries). The
/// polars built here has no `group_by_list`, categorical, struct, array,
/// object or decimal support, so a list column is the one kind that it
/// refuses (by the trait's default `unique`), and every other dtype goes
/// through a `unique` that keeps each value.
#[verifier::external_body]
pub(crate) fn series_unique(s: &Series) -> (r: Result<Series, PolarsError>)
    ensures
        r is Err <==> series_column(*s).is_list(),
        r matches Ok(u) ==> lists_values_of(series_column(u), series_column(*s)),
{
    s.unique()
}

/// Wraps `Series::str` and reads the values out: refused unless the series
/// holds strings; then each string, `None` for a missing value.
#[verifier::external_body]
pub(crate) fn series_text_values(s: &Series) -> (r: Result<Vec<Option<String>>, PolarsError>)
    ensures
        r is Ok <==> series_column(*s).is_text(),
        r matches Ok(values) ==> values@.map_values(|v: Option<String>| option_text(v))
            == text_values(series_column(*s).cells),
{
    match s.str() {
        Ok(ca) => {
            let mut values = Vec::new();
            for v in ca.into_iter() {
                values.push(v.map(|t| t.to_string()));
            }
            Ok(values)
        },
        Err(e) => Err(e),
    }
}

/// Wraps `Series::get` and writes the value as text: a string as itself,
/// anything else by its `Debug` rendering. The text of a float or of a value
/// the model does not tell apart is left unsaid.
#[verifier::external_body]
pub(crate) fn series_cell_text(s: &Series, i: usize) -> (text: String)
    requires
        i < series_column(*s).cells.len(),
    ensures
        has_known_text(series_column(*s).cells[i as int]) ==> text@ == render(
            series_column(*s).cells[i as int],
        ),
{
    match s.get(i).unwrap() {
        AnyValue::String(t) => t.to_string(),
        other => format!("{:?}", other),
    }
}

/// Wraps `Series::len`: the number of values.
#[verifier::external_body]
pub(crate) fn series_len(s: &Series) -> (n: usize)
    ensures
        n == series_column(*s).cells.len(),
{
    s.len()
}

/// Wraps `Series::new` on `i32` values: an `Int32` column of those values.
#[verifier::external_body]
pub(crate) fn series_from_i32(name: &str, values: &Vec<i32>) -> (s: Series)
    ensures
        series_column(s) == int32_column(name@, values@),
{
    Series::new(name, values)
}

} // verus!
