//! One-hot encoding: one 0/1 column per category of a string column.

use polars::prelude::DataFrame;
use vstd::prelude::*;

use crate::frame::{
    add_or_replace, column_named, column_names, first_named, frame_column, frame_column_names,
    frame_columns, frame_height, frame_select, frame_wf, frame_with_column, has_column, height,
    has_known_text, int32_column, lists_values_of, names_distinct, option_text, render, series_cell_text,
    series_column, series_from_i32, series_text_values, series_unique, text_values, CellView,
    ColumnView,
};
use crate::table::lemma_column_named_at;

verus! {

/// 1 for the rows whose text is `category`, 0 for the others.
pub open spec fn indicator(texts: Seq<Seq<char>>, category: Seq<char>) -> Seq<i32> {
    texts.map_values(|t: Seq<char>| if t == category { 1i32 } else { 0i32 })
}

/// The texts of the column named `name`.
pub open spec fn rendered(cols: Seq<ColumnView>, name: Seq<char>) -> Seq<Seq<char>> {
    column_named(cols, name).cells.map_values(|c| render(c))
}

/// The frame after the indicator column of `category`, marking the rows of
/// the column named `name` whose text is `category`, is added or replaced.
pub open spec fn encode_step(cols: Seq<ColumnView>, name: Seq<char>, category: Seq<char>) -> Seq<
    ColumnView,
> {
    add_or_replace(cols, int32_column(category, indicator(rendered(cols, name), category)))
}

/// The frame after the indicator columns of `categories` are added in turn.
/// A category named like the encoded column replaces it, and later categories
/// are then compared with the text of that indicator column.
pub open spec fn encode_all(cols: Seq<ColumnView>, name: Seq<char>, categories: Seq<Seq<char>>) -> Seq<
    ColumnView,
>
    decreases categories.len(),
{
    if categories.len() == 0 {
        cols
    } else {
        encode_step(encode_all(cols, name, categories.drop_last()), name, categories.last())
    }
}

/// The one-hot encoding of the column named `name` by `categories`: the
/// indicator columns whose names no column of `cols` has, in category order.
pub open spec fn one_hot_columns(cols: Seq<ColumnView>, name: Seq<char>, categories: Seq<Seq<char>>) -> Seq<
    ColumnView,
> {
    encode_all(cols, name, categories).filter(|c: ColumnView| !column_names(cols).contains(c.name))
}

/// Adding or replacing a column of the frame's height keeps the frame well
/// formed, its height, and the columns it had by name.
pub proof fn lemma_add_or_replace_wf(cols: Seq<ColumnView>, c: ColumnView)
    requires
        frame_wf(cols),
        cols.len() > 0,
        c.cells.len() == height(cols),
    ensures
        frame_wf(add_or_replace(cols, c)),
        height(add_or_replace(cols, c)) == height(cols),
        forall|n: Seq<char>| has_column(cols, n) ==> has_column(add_or_replace(cols, c), n),
{
    let out = add_or_replace(cols, c);
    if has_column(cols, c.name) {
        let p = choose|p: int| first_named(cols, c.name, p);
        let k = choose|k: int| 0 <= k < cols.len() && cols[k].name == c.name;
        lemma_column_named_at(cols, k);
        assert(out == cols.update(p, c));
        assert forall|n: Seq<char>| has_column(cols, n) implies has_column(out, n) by {
            let m = choose|m: int| 0 <= m < cols.len() && cols[m].name == n;
            assert(out[m].name == n);
        }
    } else {
        assert(out == cols.push(c));
        assert forall|n: Seq<char>| has_column(cols, n) implies has_column(out, n) by {
            let m = choose|m: int| 0 <= m < cols.len() && cols[m].name == n;
            assert(out[m].name == n);
        }
        assert forall|i: int, j: int|
            0 <= i < out.len() && 0 <= j < out.len() && i != j implies out[i].name != out[j].name by {
            if i == cols.len() as int {
                assert(!(0 <= j < cols.len() && cols[j].name == c.name));
            } else if j == cols.len() as int {
                assert(!(0 <= i < cols.len() && cols[i].name == c.name));
            }
        }
    }
}

/// Every cell of the column named `name` has a text the model holds.
pub open spec fn known_texts(cols: Seq<ColumnView>, name: Seq<char>) -> bool {
    forall|i: int|
        0 <= i < column_named(cols, name).cells.len() ==> has_known_text(
            #[trigger] column_named(cols, name).cells[i],
        )
}

/// Adding an `Int32` column keeps the texts of the column named `name` known.
proof fn lemma_known_texts_kept(cols: Seq<ColumnView>, name: Seq<char>, c: ColumnView)
    requires
        names_distinct(cols),
        has_column(cols, name),
        known_texts(cols, name),
        forall|i: int| 0 <= i < c.cells.len() ==> #[trigger] c.cells[i] is Int32,
    ensures
        known_texts(add_or_replace(cols, c), name),
{
    let out = add_or_replace(cols, c);
    let p = choose|p: int| 0 <= p < cols.len() && cols[p].name == name;
    lemma_column_named_at(cols, p);
    let q = choose|q: int| first_named(out, name, q);
    if has_column(cols, c.name) {
        let k = choose|k: int| 0 <= k < cols.len() && cols[k].name == c.name;
        lemma_column_named_at(cols, k);
        let r = choose|r: int| first_named(cols, c.name, r);
        assert(r == k);
        assert(out == cols.update(r, c));
        assert(first_named(out, name, p)) by {
            assert forall|m: int| 0 <= m < p implies out[m].name != name by {
                assert(out[m].name == cols[m].name);
            }
        }
        assert(q == p);
        if r == p {
            assert(column_named(out, name) == c);
        } else {
            assert(column_named(out, name) == cols[p]);
        }
    } else {
        assert(out == cols.push(c));
        assert(first_named(out, name, p));
        assert(q == p);
        assert(column_named(out, name) == cols[p]);
    }
}

/// Whether `name` is among `names`.
fn contains_name(names: &Vec<String>, name: &String) -> (found: bool)
    ensures
        found == names@.map_values(|s: String| s@).contains(name@),
{
    let ghost texts = names@.map_values(|s: String| s@);
    let mut i: usize = 0;
    while i < names.len()
        invariant
            i <= names@.len(),
            texts == names@.map_values(|s: String| s@),
            forall|k: int| 0 <= k < i ==> texts[k] != name@,
        decreases names@.len() - i,
    {
        if names[i] == *name {
            assert(texts[i as int] == name@);
            return true;
        }
        i = i + 1;
    }
    false
}

/// One-hot encodes the column `col_name` by the given categories: for each
/// category an `Int32` column named after it, 1 where the column's text is the
/// category and 0 elsewhere. Only the new columns are kept; a category named
/// like a column of `df` is dropped. The column holds values whose text the
/// model knows (strings, missing values, booleans, 32- and 64-bit integers).
///
/// It is not defined when no column has that name; that input is left out
/// by `requires`.
pub fn one_hot_with_categories(df: DataFrame, col_name: &str, categories: &Vec<String>) -> (out: DataFrame)
    requires
        frame_wf(frame_columns(df)),
        has_column(frame_columns(df), col_name@),
        known_texts(frame_columns(df), col_name@),
    ensures
        frame_columns(out) == one_hot_columns(
            frame_columns(df),
            col_name@,
            categories@.map_values(|s: String| s@),
        ),
        categories@.map_values(|s: String| s@).no_duplicates() && (forall|k: int|
            0 <= k < categories@.len() ==> !column_names(frame_columns(df)).contains(
                #[trigger] categories@[k]@,
            )) ==> {
            &&& frame_columns(out).len() == categories@.len()
            &&& forall|k: int|
                0 <= k < categories@.len() ==> (#[trigger] frame_columns(out)[k]).name == categories@[k]@
                    && frame_columns(out)[k].cells.len() == height(frame_columns(df))
            &&& forall|k: int, i: int|
                0 <= k < categories@.len() && 0 <= i < height(frame_columns(df)) ==> #[trigger] frame_columns(
                    out,
                )[k].cells[i] == (if render(column_named(frame_columns(df), col_name@).cells[i])
                    == categories@[k]@ {
                    CellView::Int32(1)
                } else {
                    CellView::Int32(0)
                })
        },
{
    let ghost cols = frame_columns(df);
    let ghost cats = categories@.map_values(|s: String| s@);
    let drop_cols_vec = frame_column_names(&df);
    let mut df_encode = df;
    let h = frame_height(&df_encode);
    let mut j: usize = 0;
    assert(cats.subrange(0, 0) =~= Seq::<Seq<char>>::empty());
    while j < categories.len()
        invariant
            j <= categories@.len(),
            cats == categories@.map_values(|s: String| s@),
            cols == frame_columns(df),
            frame_wf(cols),
            has_column(cols, col_name@),
            drop_cols_vec@.map_values(|s: String| s@) == column_names(cols),
            frame_columns(df_encode) == encode_all(cols, col_name@, cats.subrange(0, j as int)),
            frame_wf(frame_columns(df_encode)),
            has_column(frame_columns(df_encode), col_name@),
            known_texts(frame_columns(df_encode), col_name@),
            h == height(frame_columns(df_encode)),
        decreases categories@.len() - j,
    {
        let ghost before = frame_columns(df_encode);
        let column = frame_column(&df_encode, col_name).unwrap();
        proof {
            let p = choose|p: int|
                first_named(before, col_name@, p) && series_column(column) == before[p];
            let q = choose|q: int| first_named(before, col_name@, q);
            assert(p == q);
        }
        let ghost texts = rendered(before, col_name@);
        let mut the_vec: Vec<i32> = Vec::new();
        let mut i: usize = 0;
        while i < h
            invariant
                i <= h,
                h == series_column(column).cells.len(),
                texts == series_column(column).cells.map_values(|c| render(c)),
                forall|m: int|
                    0 <= m < series_column(column).cells.len() ==> has_known_text(
                        #[trigger] series_column(column).cells[m],
                    ),
                j < categories@.len(),
                cats == categories@.map_values(|s: String| s@),
                the_vec@ == indicator(texts, cats[j as int]).subrange(0, i as int),
            decreases h - i,
        {
            let text = series_cell_text(&column, i);
            if text == categories[j] {
                the_vec.push(1);
            } else {
                the_vec.push(0);
            }
            assert(the_vec@ =~= indicator(texts, cats[j as int]).subrange(0, i + 1));
            i = i + 1;
        }
        assert(the_vec@ =~= indicator(texts, cats[j as int]));
        let the_new_series = series_from_i32(categories[j].as_str(), &the_vec);
        let _ = frame_with_column(&mut df_encode, the_new_series);
        proof {
            assert(cats.subrange(0, j + 1).drop_last() =~= cats.subrange(0, j as int));
            assert(cats.subrange(0, j + 1).last() == cats[j as int]);
            lemma_add_or_replace_wf(before, series_column(the_new_series));
            lemma_known_texts_kept(before, col_name@, series_column(the_new_series));
        }
        j = j + 1;
    }
    assert(cats.subrange(0, categories@.len() as int) =~= cats);
    let ghost encoded = frame_columns(df_encode);
    let ghost keep_new = |c: ColumnView| !column_names(cols).contains(c.name);
    let encoded_names = frame_column_names(&df_encode);
    proof {
        assert(encoded_names@.map_values(|s: String| s@).len() == encoded_names@.len());
        assert(column_names(encoded).len() == encoded.len());
    }
    let mut columns_to_keep: Vec<String> = Vec::new();
    let ghost mut kept: Seq<ColumnView> = Seq::empty();
    let ghost mut kept_at: Seq<int> = Seq::empty();
    let mut k: usize = 0;
    assert(encoded.subrange(0, 0) =~= Seq::<ColumnView>::empty());
    proof {
        reveal(Seq::filter);
    }
    while k < encoded_names.len()
        invariant
            k <= encoded_names@.len(),
            encoded_names@.len() == encoded.len(),
            names_distinct(encoded),
            encoded_names@.map_values(|s: String| s@) == column_names(encoded),
            drop_cols_vec@.map_values(|s: String| s@) == column_names(cols),
            keep_new == (|c: ColumnView| !column_names(cols).contains(c.name)),
            kept == encoded.subrange(0, k as int).filter(keep_new),
            kept.len() == kept_at.len(),
            kept.len() == columns_to_keep@.len(),
            forall|m: int| 0 <= m < kept.len() ==> 0 <= #[trigger] kept_at[m] < k,
            forall|m: int| 0 <= m < kept.len() ==> kept[m] == encoded[#[trigger] kept_at[m]],
            forall|m: int, n: int| 0 <= m < n < kept.len() ==> kept_at[m] < kept_at[n],
            forall|m: int| 0 <= m < kept.len() ==> #[trigger] columns_to_keep@[m]@ == kept[m].name,
        decreases encoded_names@.len() - k,
    {
        proof {
            reveal(Seq::filter);
            assert(encoded.subrange(0, k + 1).drop_last() =~= encoded.subrange(0, k as int));
            assert(encoded_names@.map_values(|s: String| s@)[k as int] == encoded[k as int].name);
        }
        if !contains_name(&drop_cols_vec, &encoded_names[k]) {
            let name = encoded_names[k].clone();
            columns_to_keep.push(name);
            proof {
                kept = kept.push(encoded[k as int]);
                kept_at = kept_at.push(k as int);
            }
        }
        k = k + 1;
    }
    assert(encoded.subrange(0, encoded_names@.len() as int) =~= encoded);
    proof {
        let sel = columns_to_keep@.map_values(|s: String| s@);
        assert forall|a: int, b: int| 0 <= a < sel.len() && 0 <= b < sel.len() && a != b implies sel[a]
            != sel[b] by {
            assert(sel[a] == kept[a].name);
            assert(sel[b] == kept[b].name);
            if a < b {
                assert(kept_at[a] < kept_at[b]);
            } else {
                assert(kept_at[b] < kept_at[a]);
            }
        }
        assert forall|m: int| 0 <= m < columns_to_keep@.len() implies has_column(
            encoded,
            #[trigger] columns_to_keep@[m]@,
        ) by {
            lemma_column_named_at(encoded, kept_at[m]);
        }
    }
    let selected = frame_select(&df_encode, &columns_to_keep);
    let out = selected.unwrap();
    proof {
        assert(frame_columns(out) =~= kept) by {
            assert forall|m: int| 0 <= m < kept.len() implies #[trigger] frame_columns(out)[m]
                == kept[m] by {
                lemma_column_named_at(encoded, kept_at[m]);
            }
        }
        if cats.no_duplicates() && (forall|k: int|
            0 <= k < categories@.len() ==> !column_names(cols).contains(#[trigger] categories@[k]@)) {
            assert forall|k: int| 0 <= k < cats.len() implies !column_names(cols).contains(
                #[trigger] cats[k],
            ) by {
                assert(cats[k] == categories@[k]@);
            }
            lemma_one_hot_indicators(cols, col_name@, cats);
        }
    }
    out
}

/// Every value of `column` is a string: a string column without missing values.
pub open spec fn all_text(column: ColumnView) -> bool {
    &&& column.is_text()
    &&& forall|i: int| 0 <= i < column.cells.len() ==> #[trigger] column.cells[i] is Text
}

/// `categories` lists each string of `column` exactly once.
pub open spec fn categories_of(categories: Seq<Seq<char>>, column: ColumnView) -> bool {
    &&& categories.no_duplicates()
    &&& forall|t: Seq<char>| #[trigger]
        categories.contains(t) <==> column.cells.contains(CellView::Text(t))
}

/// One-hot encodes the string column `col_name` of `df`: one `Int32` column
/// per distinct string of the column, named after it, 1 where the column holds
/// that string and 0 elsewhere. The categories come in the order of polars'
/// `unique`; a category named like a column of `df` is dropped. An empty
/// column of any dtype but a list has no categories and gives a frame without
/// columns.
///
/// It is not defined when no column has that name, or when the column holds
/// anything but strings (a missing value too) and is not such an empty column;
/// those inputs are left out by `requires`.
pub fn one_hot_encoding(df: DataFrame, col_name: &str) -> (out: DataFrame)
    requires
        frame_wf(frame_columns(df)),
        has_column(frame_columns(df), col_name@),
        all_text(column_named(frame_columns(df), col_name@)) || (column_named(
            frame_columns(df),
            col_name@,
        ).cells.len() == 0 && !column_named(frame_columns(df), col_name@).is_list()),
    ensures
        exists|categories: Seq<Seq<char>>|
            categories_of(categories, column_named(frame_columns(df), col_name@))
                && frame_columns(out) == one_hot_columns(frame_columns(df), col_name@, categories),
        (forall|t: Seq<char>|
            #[trigger] column_named(frame_columns(df), col_name@).cells.contains(CellView::Text(t))
                ==> !column_names(frame_columns(df)).contains(t)) ==> {
            &&& categories_of(
                column_names(frame_columns(out)),
                column_named(frame_columns(df), col_name@),
            )
            &&& forall|k: int|
                0 <= k < frame_columns(out).len() ==> (#[trigger] frame_columns(out)[k]).cells.len()
                    == height(frame_columns(df))
            &&& forall|k: int, i: int|
                0 <= k < frame_columns(out).len() && 0 <= i < height(frame_columns(df))
                    ==> #[trigger] frame_columns(out)[k].cells[i] == (if column_named(
                    frame_columns(df),
                    col_name@,
                ).cells[i] == CellView::Text(frame_columns(out)[k].name) {
                    CellView::Int32(1)
                } else {
                    CellView::Int32(0)
                })
        },
{
    let ghost cols = frame_columns(df);
    let ghost target = column_named(cols, col_name@);
    let column = frame_column(&df, col_name).unwrap();
    proof {
        let p = choose|p: int| first_named(cols, col_name@, p) && series_column(column) == cols[p];
        let q = choose|q: int| first_named(cols, col_name@, q);
        assert(p == q);
    }
    proof {
        if all_text(target) {
            reveal_strlit("String");
            reveal_strlit("List(");
            if target.is_list() {
                assert("List("@[0] == "List("@.subrange(0, 5)[0]);
                assert(target.dtype.subrange(0, 5)[0] == target.dtype[0]);
                assert(false);
            }
        }
    }
    let unique = series_unique(&column).unwrap();
    let ghost ucells = series_column(unique).cells;
    proof {
        assert(lists_values_of(series_column(unique), target));
        assert forall|i: int| 0 <= i < ucells.len() implies #[trigger] ucells[i] is Text by {
            assert(ucells.to_set().contains(ucells[i]));
            assert(target.cells.to_set().contains(ucells[i]));
            let k = choose|k: int| 0 <= k < target.cells.len() && target.cells[k] == ucells[i];
            assert(target.cells[k] is Text);
        }
    }
    let values = match series_text_values(&unique) {
        Ok(v) => v,
        Err(_) => {
            proof {
                assert(!all_text(target));
                assert(target.cells.to_set() =~= Set::<CellView>::empty());
                if ucells.len() > 0 {
                    assert(ucells.to_set().contains(ucells[0]));
                }
                assert(text_values(ucells) =~= Seq::<Option<Seq<char>>>::empty());
            }
            Vec::new()
        },
    };
    let ghost vtexts = values@.map_values(|v: Option<String>| option_text(v));
    assert(vtexts == text_values(ucells));
    assert(vtexts.len() == values@.len() && text_values(ucells).len() == ucells.len());
    let mut categories: Vec<String> = Vec::new();
    let mut i: usize = 0;
    while i < values.len()
        invariant
            i <= values@.len(),
            values@.len() == ucells.len(),
            vtexts == values@.map_values(|v: Option<String>| option_text(v)),
            vtexts == text_values(ucells),
            forall|m: int| 0 <= m < ucells.len() ==> #[trigger] ucells[m] is Text,
            categories@.len() == i,
            forall|m: int| 0 <= m < i ==> CellView::Text(#[trigger] categories@[m]@) == ucells[m],
        decreases values@.len() - i,
    {
        assert(vtexts[i as int] == option_text(values@[i as int]));
        assert(text_values(ucells)[i as int] == match ucells[i as int] {
            CellView::Text(s) => Some(s),
            _ => None,
        });
        match &values[i] {
            Some(t) => {
                let category = t.clone();
                categories.push(category);
            },
            None => {
                proof {
                    assert(ucells[i as int] is Text);
                    assert(false);
                }
            },
        }
        i = i + 1;
    }
    let ghost cats = categories@.map_values(|s: String| s@);
    proof {
        assert(ucells.len() == values@.len());
        assert forall|a: int, b: int| 0 <= a < cats.len() && 0 <= b < cats.len() && a != b implies cats[a]
            != cats[b] by {
            assert(CellView::Text(categories@[a]@) == ucells[a]);
            assert(CellView::Text(categories@[b]@) == ucells[b]);
        }
        assert forall|t: Seq<char>| #[trigger]
            cats.contains(t) <==> target.cells.contains(CellView::Text(t)) by {
            if cats.contains(t) {
                let a = choose|a: int| 0 <= a < cats.len() && cats[a] == t;
                assert(CellView::Text(categories@[a]@) == ucells[a]);
                assert(ucells.to_set().contains(ucells[a]));
                assert(target.cells.to_set().contains(CellView::Text(t)));
            }
            if target.cells.contains(CellView::Text(t)) {
                assert(target.cells.to_set().contains(CellView::Text(t)));
                assert(ucells.to_set().contains(CellView::Text(t)));
                let a = choose|a: int| 0 <= a < ucells.len() && ucells[a] == CellView::Text(t);
                assert(CellView::Text(categories@[a]@) == ucells[a]);
                assert(cats[a] == t);
            }
        }
        assert(categories_of(cats, target));
    }
    let out = one_hot_with_categories(df, col_name, &categories);
    proof {
        if forall|t: Seq<char>| #[trigger] target.cells.contains(CellView::Text(t)) ==> !column_names(
            cols,
        ).contains(t) {
            assert forall|k: int| 0 <= k < cats.len() implies !column_names(cols).contains(
                #[trigger] cats[k],
            ) by {
                assert(cats.contains(cats[k]));
                assert(target.cells.contains(CellView::Text(cats[k])));
            }
            let p = choose|p: int| 0 <= p < cols.len() && cols[p].name == col_name@;
            lemma_column_named_at(cols, p);
            assert(target.cells.len() == height(cols));
            lemma_one_hot_indicators(cols, col_name@, cats);
            let outc = frame_columns(out);
            assert(column_names(outc) =~= cats) by {
                assert forall|k: int| 0 <= k < cats.len() implies #[trigger] column_names(outc)[k]
                    == cats[k] by {
                    assert(outc[k].name == cats[k]);
                }
            }
            if target.cells.len() > 0 {
                assert(all_text(target));
                assert forall|k: int, i: int| 0 <= k < outc.len() && 0 <= i < height(cols) implies #[trigger] outc[k].cells[i]
                    == (if target.cells[i] == CellView::Text(outc[k].name) {
                    CellView::Int32(1)
                } else {
                    CellView::Int32(0)
                }) by {
                    assert(target.cells[i] is Text);
                    assert(render(target.cells[i]) == target.cells[i]->Text_0);
                    assert(outc[k].name == cats[k]);
                }
            }
        }
    }
    out
}

proof fn lemma_filter_none<A>(s: Seq<A>, pred: spec_fn(A) -> bool)
    requires
        forall|i: int| 0 <= i < s.len() ==> !pred(#[trigger] s[i]),
    ensures
        s.filter(pred) == Seq::<A>::empty(),
    decreases s.len(),
{
    reveal(Seq::filter);
    if s.len() > 0 {
        lemma_filter_none(s.drop_last(), pred);
        assert(!pred(s[s.len() - 1]));
    }
}

proof fn lemma_filter_all<A>(s: Seq<A>, pred: spec_fn(A) -> bool)
    requires
        forall|i: int| 0 <= i < s.len() ==> pred(#[trigger] s[i]),
    ensures
        s.filter(pred) == s,
    decreases s.len(),
{
    reveal(Seq::filter);
    if s.len() > 0 {
        lemma_filter_all(s.drop_last(), pred);
        assert(pred(s[s.len() - 1]));
        assert(s.drop_last().push(s.last()) =~= s);
    }
}

/// The indicator columns of `categories`, marking the rows of the column
/// named `name` of `cols`.
pub open spec fn indicator_columns(cols: Seq<ColumnView>, name: Seq<char>, categories: Seq<Seq<char>>) -> Seq<
    ColumnView,
> {
    categories.map_values(
        |c: Seq<char>| int32_column(c, indicator(rendered(cols, name), c)),
    )
}

/// Categories named unlike every column, each once: every indicator column is
/// appended, and the encoded column stays as it was.
proof fn lemma_encode_all_appends(cols: Seq<ColumnView>, name: Seq<char>, categories: Seq<Seq<char>>)
    requires
        frame_wf(cols),
        has_column(cols, name),
        categories.no_duplicates(),
        forall|k: int|
            0 <= k < categories.len() ==> !column_names(cols).contains(#[trigger] categories[k]),
    ensures
        encode_all(cols, name, categories) == cols + indicator_columns(cols, name, categories),
    decreases categories.len(),
{
    if categories.len() > 0 {
        let rest = categories.drop_last();
        let last = categories.last();
        assert forall|k: int| 0 <= k < rest.len() implies !column_names(cols).contains(
            #[trigger] rest[k],
        ) by {
            assert(rest[k] == categories[k]);
        }
        lemma_encode_all_appends(cols, name, rest);
        let before = encode_all(cols, name, rest);
        let added = indicator_columns(cols, name, rest);
        assert(before == cols + added);
        let p = choose|p: int| 0 <= p < cols.len() && cols[p].name == name;
        lemma_column_named_at(cols, p);
        assert(first_named(before, name, p)) by {
            assert(before[p] == cols[p]);
            assert forall|q: int| 0 <= q < p implies before[q].name != name by {
                assert(before[q] == cols[q]);
            }
        }
        assert(column_named(before, name) == cols[p]) by {
            let r = choose|r: int| first_named(before, name, r);
            assert(r == p);
        }
        assert(rendered(before, name) == rendered(cols, name));
        assert(!has_column(before, last)) by {
            if has_column(before, last) {
                let m = choose|m: int| 0 <= m < before.len() && before[m].name == last;
                if m < cols.len() {
                    assert(before[m] == cols[m]);
                    assert(column_names(cols)[m] == last);
                    assert(column_names(cols).contains(last));
                    assert(!column_names(cols).contains(categories[categories.len() - 1]));
                } else {
                    assert(before[m] == added[m - cols.len()]);
                    assert(added[m - cols.len()].name == rest[m - cols.len()]);
                    assert(rest[m - cols.len()] == categories[m - cols.len()]);
                    assert(categories[m - cols.len()] != categories[categories.len() - 1]);
                }
            }
        }
        assert(encode_all(cols, name, categories) == encode_step(before, name, last));
        assert(cols + indicator_columns(cols, name, categories) =~= before.push(
            int32_column(last, indicator(rendered(cols, name), last)),
        ));
    }
}

/// One-hot encoding by distinct categories, none named like a column of the
/// frame, keeps exactly the indicator columns, in category order.
proof fn lemma_one_hot_keeps_indicators(cols: Seq<ColumnView>, name: Seq<char>, categories: Seq<Seq<char>>)
    requires
        frame_wf(cols),
        has_column(cols, name),
        categories.no_duplicates(),
        forall|k: int|
            0 <= k < categories.len() ==> !column_names(cols).contains(#[trigger] categories[k]),
    ensures
        one_hot_columns(cols, name, categories) == indicator_columns(cols, name, categories),
{
    let keep_new = |c: ColumnView| !column_names(cols).contains(c.name);
    let added = indicator_columns(cols, name, categories);
    lemma_encode_all_appends(cols, name, categories);
    broadcast use Seq::filter_distributes_over_add;
    assert((cols + added).filter(keep_new) == cols.filter(keep_new) + added.filter(keep_new));
    assert forall|i: int| 0 <= i < cols.len() implies !keep_new(#[trigger] cols[i]) by {
        assert(column_names(cols)[i] == cols[i].name);
    }
    lemma_filter_none(cols, keep_new);
    assert forall|i: int| 0 <= i < added.len() implies keep_new(#[trigger] added[i]) by {
        assert(added[i].name == categories[i]);
    }
    lemma_filter_all(added, keep_new);
    assert(one_hot_columns(cols, name, categories) =~= added);
}

/// One-hot encoding by distinct categories, none named like a column of the
/// frame, gives one column per category, named after it and as long as the
/// frame, holding 1 in each row whose text is that category and 0 in every
/// other row.
pub proof fn lemma_one_hot_indicators(cols: Seq<ColumnView>, name: Seq<char>, categories: Seq<Seq<char>>)
    requires
        frame_wf(cols),
        has_column(cols, name),
        categories.no_duplicates(),
        forall|k: int|
            0 <= k < categories.len() ==> !column_names(cols).contains(#[trigger] categories[k]),
    ensures
        one_hot_columns(cols, name, categories).len() == categories.len(),
        forall|k: int|
            0 <= k < categories.len() ==> (#[trigger] one_hot_columns(cols, name, categories)[k]).name
                == categories[k] && one_hot_columns(cols, name, categories)[k].cells.len() == height(
                cols,
            ),
        forall|k: int, i: int|
            0 <= k < categories.len() && 0 <= i < height(cols) ==> #[trigger] one_hot_columns(
                cols,
                name,
                categories,
            )[k].cells[i] == (if render(column_named(cols, name).cells[i]) == categories[k] {
                CellView::Int32(1)
            } else {
                CellView::Int32(0)
            }),
{
    lemma_one_hot_keeps_indicators(cols, name, categories);
    let out = one_hot_columns(cols, name, categories);
    let p = choose|p: int| 0 <= p < cols.len() && cols[p].name == name;
    lemma_column_named_at(cols, p);
    assert(column_named(cols, name).cells.len() == height(cols));
    assert forall|k: int, i: int| 0 <= k < categories.len() && 0 <= i < height(cols) implies #[trigger] out[k].cells[i]
        == (if render(column_named(cols, name).cells[i]) == categories[k] {
        CellView::Int32(1)
    } else {
        CellView::Int32(0)
    }) by {
        assert(rendered(cols, name)[i] == render(column_named(cols, name).cells[i]));
        assert(out[k].cells[i] == CellView::Int32(indicator(rendered(cols, name), categories[k])[i]));
    }
}

/// Row `i` holds 1 in exactly one of `columns` and 0 in all the others.
pub open spec fn marked_once(columns: Seq<ColumnView>, i: int) -> bool {
    exists|k: int|
        0 <= k < columns.len() && #[trigger] columns[k].cells[i] == CellView::Int32(1) && forall|m: int|
            0 <= m < columns.len() && m != k ==> columns[m].cells[i] == CellView::Int32(0)
}

/// One-hot encoding a string column by its own categories, none named like a
/// column of the frame, gives one indicator column per category, in category
/// order: in the column of a category, a row holds 1 where the column holds
/// that string and 0 elsewhere, so each row is marked in exactly one of them.
pub proof fn lemma_one_hot_marks_each_row_once(
    cols: Seq<ColumnView>,
    name: Seq<char>,
    categories: Seq<Seq<char>>,
)
    requires
        frame_wf(cols),
        has_column(cols, name),
        all_text(column_named(cols, name)),
        categories_of(categories, column_named(cols, name)),
        forall|k: int|
            0 <= k < categories.len() ==> !column_names(cols).contains(#[trigger] categories[k]),
    ensures
        one_hot_columns(cols, name, categories) == indicator_columns(cols, name, categories),
        forall|k: int, i: int|
            0 <= k < categories.len() && 0 <= i < height(cols) ==> #[trigger] one_hot_columns(
                cols,
                name,
                categories,
            )[k].cells[i] == (if column_named(cols, name).cells[i] == CellView::Text(categories[k]) {
                CellView::Int32(1)
            } else {
                CellView::Int32(0)
            }),
        forall|i: int|
            0 <= i < height(cols) ==> #[trigger] marked_once(one_hot_columns(cols, name, categories), i),
{
    lemma_one_hot_keeps_indicators(cols, name, categories);
    lemma_one_hot_indicators(cols, name, categories);
    let out = one_hot_columns(cols, name, categories);
    let target = column_named(cols, name);
    let p = choose|p: int| 0 <= p < cols.len() && cols[p].name == name;
    lemma_column_named_at(cols, p);
    assert(target.cells.len() == height(cols));
    assert forall|k: int, i: int| 0 <= k < categories.len() && 0 <= i < height(cols) implies #[trigger] out[k].cells[i]
        == (if target.cells[i] == CellView::Text(categories[k]) {
        CellView::Int32(1)
    } else {
        CellView::Int32(0)
    }) by {
        assert(target.cells[i] is Text);
        assert(render(target.cells[i]) == target.cells[i]->Text_0);
    }
    assert forall|i: int| 0 <= i < height(cols) implies #[trigger] marked_once(out, i) by {
        let cell = target.cells[i];
        assert(cell is Text);
        let t = cell->Text_0;
        assert(target.cells.contains(CellView::Text(t)));
        assert(categories.contains(t));
        let k = choose|k: int| 0 <= k < categories.len() && categories[k] == t;
        assert(out[k].cells[i] == CellView::Int32(1));
        assert forall|m: int| 0 <= m < out.len() && m != k implies out[m].cells[i]
            == CellView::Int32(0) by {
            assert(categories[m] != categories[k]);
            assert(out[m].cells[i] == (if target.cells[i] == CellView::Text(categories[m]) {
                CellView::Int32(1)
            } else {
                CellView::Int32(0)
            }));
        }
    }
}

} // verus!
