//! Label encoding: each value of a string column becomes the code that a
//! category list assigns to it.

use polars::prelude::{DataFrame, PolarsError, Series};
use vstd::prelude::*;

use crate::frame::{
    column_named, first_named, frame_column, frame_columns, has_column, option_text,
    series_column, series_text_values, text_values,
};

verus! {

/// The position of the last `key` in `keys`, or -1 when `key` is absent: what
/// a map filled from `keys` in order keeps for `key`.
pub open spec fn last_position<K>(keys: Seq<K>, key: K) -> int
    decreases keys.len(),
{
    if keys.len() == 0 {
        -1
    } else if keys.last() == key {
        keys.len() - 1
    } else {
        last_position(keys.drop_last(), key)
    }
}

pub proof fn lemma_last_position<K>(keys: Seq<K>, key: K)
    ensures
        -1 <= last_position(keys, key) < keys.len(),
        keys.contains(key) <==> last_position(keys, key) >= 0,
        last_position(keys, key) >= 0 ==> keys[last_position(keys, key)] == key,
        forall|j: int| last_position(keys, key) < j < keys.len() ==> keys[j] != key,
    decreases keys.len(),
{
    if keys.len() > 0 {
        lemma_last_position(keys.drop_last(), key);
        if keys.last() != key {
            assert forall|j: int| last_position(keys, key) < j < keys.len() implies keys[j] != key by {
                if j < keys.len() - 1 {
                    assert(keys[j] == keys.drop_last()[j]);
                }
            }
            if keys.contains(key) {
                let i = choose|i: int| 0 <= i < keys.len() && keys[i] == key;
                assert(keys.drop_last()[i] == key);
            }
            if keys.drop_last().contains(key) {
                let i = choose|i: int| 0 <= i < keys.len() - 1 && keys.drop_last()[i] == key;
                assert(keys[i] == key);
            }
        } else {
            assert(keys[keys.len() - 1] == key);
        }
    }
}

/// Whether two optional strings are the same.
fn same_text(a: &Option<String>, b: &Option<String>) -> (same: bool)
    ensures
        same == (option_text(*a) == option_text(*b)),
{
    match (a, b) {
        (Some(x), Some(y)) => *x == *y,
        (None, None) => true,
        (Some(_), None) => false,
        (None, Some(_)) => false,
    }
}

/// The position of the last key equal to `value`.
fn last_position_of(keys: &Vec<Option<String>>, value: &Option<String>) -> (pos: usize)
    requires
        keys@.map_values(|v: Option<String>| option_text(v)).contains(option_text(*value)),
    ensures
        pos as int == last_position(
            keys@.map_values(|v: Option<String>| option_text(v)),
            option_text(*value),
        ),
{
    let ghost texts = keys@.map_values(|v: Option<String>| option_text(v));
    let ghost target = option_text(*value);
    proof {
        lemma_last_position(texts, target);
    }
    let mut i: usize = keys.len();
    while i > 0
        invariant
            i <= keys@.len(),
            texts == keys@.map_values(|v: Option<String>| option_text(v)),
            target == option_text(*value),
            texts.contains(target),
            last_position(texts, target) < i,
            -1 <= last_position(texts, target) < texts.len(),
            last_position(texts, target) >= 0 ==> texts[last_position(texts, target)] == target,
            forall|j: int| last_position(texts, target) < j < texts.len() ==> texts[j] != target,
        decreases i,
    {
        if same_text(&keys[i - 1], value) {
            assert(texts[i - 1] == target);
            return i - 1;
        }
        i = i - 1;
    }
    proof {
        let k = choose|k: int| 0 <= k < texts.len() && texts[k] == target;
        assert(false);
    }
    0
}

/// The codes a category list gives the values of a column: each value gets
/// the position of its last occurrence among `keys`, as `u32`.
pub open spec fn label_codes(keys: Seq<Option<Seq<char>>>, values: Seq<Option<Seq<char>>>) -> Seq<
    u32,
> {
    values.map_values(|v: Option<Seq<char>>| last_position(keys, v) as u32)
}

/// Coding values by their positions in a list that holds them all, and reading
/// the list at those codes, gives the values back (for a list that `u32` can
/// index).
pub proof fn lemma_codes_decode(keys: Seq<Option<Seq<char>>>, values: Seq<Option<Seq<char>>>)
    requires
        keys.len() <= u32::MAX + 1,
        forall|i: int| 0 <= i < values.len() ==> keys.contains(#[trigger] values[i]),
    ensures
        label_codes(keys, values).len() == values.len(),
        forall|i: int|
            0 <= i < values.len() ==> keys[#[trigger] label_codes(keys, values)[i] as int] == values[i],
{
    assert forall|i: int| 0 <= i < values.len() implies keys[#[trigger] label_codes(keys, values)[i] as int]
        == values[i] by {
        lemma_last_position(keys, values[i]);
        assert(keys.contains(values[i]));
    }
}

/// `p` is the last position of `keys` that holds `key`.
pub open spec fn is_last_position<K>(keys: Seq<K>, key: K, p: int) -> bool {
    &&& 0 <= p < keys.len()
    &&& keys[p] == key
    &&& forall|q: int| p < q < keys.len() ==> keys[q] != key
}

/// Each value is coded by the last position of `keys` that holds it (as
/// `u32`): that key is the value, and no later key is.
pub proof fn lemma_label_codes_take_last_position(keys: Seq<Option<Seq<char>>>, values: Seq<Option<Seq<char>>>)
    requires
        forall|i: int| 0 <= i < values.len() ==> keys.contains(#[trigger] values[i]),
    ensures
        label_codes(keys, values).len() == values.len(),
        forall|i: int|
            0 <= i < values.len() ==> #[trigger] is_last_position(keys, values[i], last_position(keys, values[i])),
        forall|i: int|
            0 <= i < values.len() ==> #[trigger] label_codes(keys, values)[i] == last_position(keys, values[i]) as u32,
{
    assert forall|i: int|
        0 <= i < values.len() implies #[trigger] is_last_position(keys, values[i], last_position(keys, values[i])) by {
        lemma_last_position(keys, values[i]);
        assert(keys.contains(values[i]));
    }
}

/// Codes each value of `values` by its last position among `keys`.
fn encode_by_position(keys: &Vec<Option<String>>, values: &Vec<Option<String>>) -> (codes: Vec<u32>)
    requires
        forall|i: int|
            0 <= i < values@.len() ==> keys@.map_values(|v: Option<String>| option_text(v)).contains(
                #[trigger] option_text(values@[i]),
            ),
    ensures
        codes@ == label_codes(
            keys@.map_values(|v: Option<String>| option_text(v)),
            values@.map_values(|v: Option<String>| option_text(v)),
        ),
{
    let ghost key_texts = keys@.map_values(|v: Option<String>| option_text(v));
    let ghost value_texts = values@.map_values(|v: Option<String>| option_text(v));
    let mut codes: Vec<u32> = Vec::new();
    let mut i: usize = 0;
    while i < values.len()
        invariant
            i <= values@.len(),
            key_texts == keys@.map_values(|v: Option<String>| option_text(v)),
            value_texts == values@.map_values(|v: Option<String>| option_text(v)),
            forall|j: int|
                0 <= j < values@.len() ==> key_texts.contains(#[trigger] option_text(values@[j])),
            codes@ == label_codes(key_texts, value_texts).subrange(0, i as int),
        decreases values@.len() - i,
    {
        let pos = last_position_of(keys, &values[i]);
        let code: u32 = #[verifier::truncate] (pos as u32);
        codes.push(code);
        assert(codes@ =~= label_codes(key_texts, value_texts).subrange(0, i + 1));
        i = i + 1;
    }
    assert(codes@ =~= label_codes(key_texts, value_texts));
    codes
}

/// The string values of the column named `name` (meaningful where it exists).
pub open spec fn column_texts(df: DataFrame, name: Seq<char>) -> Seq<Option<Seq<char>>> {
    text_values(column_named(frame_columns(df), name).cells)
}

/// Encodes the column named `column_name` by the values of `series`: each
/// value of the column becomes the position of its last occurrence in
/// `series`. Refused, with polars' error, unless both hold strings.
///
/// It is not defined when `series` holds strings and no column has that name,
/// or when a value of the column does not occur in `series`; those inputs are
/// left out by `requires`.
pub fn get_encoded_column(series: Series, column_name: &str, df: DataFrame) -> (r: Result<Vec<u32>, PolarsError>)
    requires
        series_column(series).is_text() ==> has_column(frame_columns(df), column_name@),
        series_column(series).is_text() && column_named(frame_columns(df), column_name@).is_text()
            ==> forall|i: int|
            0 <= i < column_texts(df, column_name@).len() ==> text_values(
                series_column(series).cells,
            ).contains(#[trigger] column_texts(df, column_name@)[i]),
    ensures
        r is Ok <==> (series_column(series).is_text() && column_named(
            frame_columns(df),
            column_name@,
        ).is_text()),
        r matches Ok(codes) ==> codes@ == label_codes(
            text_values(series_column(series).cells),
            column_texts(df, column_name@),
        ),
        r matches Ok(codes) ==> codes@.len() == column_texts(df, column_name@).len() && forall|i: int|
            0 <= i < codes@.len() ==> #[trigger] codes@[i] == last_position(
                text_values(series_column(series).cells),
                column_texts(df, column_name@)[i],
            ) as u32 && is_last_position(
                text_values(series_column(series).cells),
                column_texts(df, column_name@)[i],
                last_position(text_values(series_column(series).cells), column_texts(df, column_name@)[i]),
            ),
{
    let keys = match series_text_values(&series) {
        Ok(k) => k,
        Err(e) => return Err(e),
    };
    let column = frame_column(&df, column_name).unwrap();
    proof {
        let cols = frame_columns(df);
        let p = choose|p: int| first_named(cols, column_name@, p) && series_column(column) == cols[p];
        let q = choose|q: int| first_named(cols, column_name@, q);
        assert(p == q);
    }
    let values = match series_text_values(&column) {
        Ok(v) => v,
        Err(e) => return Err(e),
    };
    proof {
        let value_texts = values@.map_values(|v: Option<String>| option_text(v));
        assert(value_texts == column_texts(df, column_name@));
        assert forall|i: int| 0 <= i < values@.len() implies keys@.map_values(
            |v: Option<String>| option_text(v),
        ).contains(#[trigger] option_text(values@[i])) by {
            assert(value_texts[i] == option_text(values@[i]));
        }
    }
    let codes = encode_by_position(&keys, &values);
    proof {
        let key_texts = keys@.map_values(|v: Option<String>| option_text(v));
        let value_texts = values@.map_values(|v: Option<String>| option_text(v));
        assert forall|i: int| 0 <= i < value_texts.len() implies key_texts.contains(#[trigger] value_texts[i]) by {
            assert(value_texts[i] == option_text(values@[i]));
        }
        lemma_label_codes_take_last_position(key_texts, value_texts);
    }
    Ok(codes)
}

/// The keys that a list of (category, label) pairs sets: each category.
pub open spec fn category_keys(label_vec: Seq<(&str, i32)>) -> Seq<Option<Seq<char>>> {
    label_vec.map_values(|pair: (&str, i32)| Some(pair.0@))
}

/// The codes that a list of (category, label) pairs gives the values of a
/// column: the label of the last pair naming the value, as `u32`.
pub open spec fn labelled_codes(label_vec: Seq<(&str, i32)>, values: Seq<Option<Seq<char>>>) -> Seq<
    u32,
> {
    values.map_values(
        |v: Option<Seq<char>>| label_vec[last_position(category_keys(label_vec), v)].1 as u32,
    )
}

/// Each value gets the label (as `u32`) of a pair whose category is that
/// value, the last such pair: no later pair names it.
pub proof fn lemma_labelled_codes_take_last_pair(label_vec: Seq<(&str, i32)>, values: Seq<Option<Seq<char>>>)
    requires
        forall|i: int|
            #![trigger values[i]]
            0 <= i < values.len() ==> exists|p: int|
                0 <= p < label_vec.len() && values[i] == Some(#[trigger] label_vec[p].0@),
    ensures
        labelled_codes(label_vec, values).len() == values.len(),
        forall|i: int|
            0 <= i < values.len() ==> exists|p: int|
                #![trigger label_vec[p]]
                0 <= p < label_vec.len() && values[i] == Some(label_vec[p].0@)
                    && #[trigger] labelled_codes(label_vec, values)[i] == label_vec[p].1 as u32
                    && forall|q: int| p < q < label_vec.len() ==> values[i] != Some(label_vec[q].0@),
{
    let keys = category_keys(label_vec);
    assert forall|i: int| 0 <= i < values.len() implies exists|p: int|
        #![trigger label_vec[p]]
        0 <= p < label_vec.len() && values[i] == Some(label_vec[p].0@)
            && #[trigger] labelled_codes(label_vec, values)[i] == label_vec[p].1 as u32
            && forall|q: int| p < q < label_vec.len() ==> values[i] != Some(label_vec[q].0@) by {
        let w = choose|p: int| 0 <= p < label_vec.len() && values[i] == Some(#[trigger] label_vec[p].0@);
        assert(keys[w] == values[i]);
        lemma_last_position(keys, values[i]);
        let p = last_position(keys, values[i]);
        assert(keys[p] == Some(label_vec[p].0@));
        assert forall|q: int| p < q < label_vec.len() implies values[i] != Some(label_vec[q].0@) by {
            assert(keys[q] == Some(label_vec[q].0@));
        }
    }
}

/// Encodes the column named `column_name` by the labels that `label_vec`
/// gives its categories (the last pair wins for a category named twice; a
/// negative label wraps to `u32`). Refused, with polars' error, unless the
/// column holds strings.
///
/// It is not defined when no column has that name, or when a value of the
/// column (a missing value too) has no label; those inputs are left out by
/// `requires`.
pub fn get_encoded_column_vec(label_vec: Vec<(&str, i32)>, column_name: &str, df: DataFrame) -> (r:
    Result<Vec<u32>, PolarsError>)
    requires
        has_column(frame_columns(df), column_name@),
        column_named(frame_columns(df), column_name@).is_text() ==> forall|i: int|
            0 <= i < column_texts(df, column_name@).len() ==> category_keys(label_vec@).contains(
                #[trigger] column_texts(df, column_name@)[i],
            ),
    ensures
        r is Ok <==> column_named(frame_columns(df), column_name@).is_text(),
        r matches Ok(codes) ==> codes@ == labelled_codes(label_vec@, column_texts(df, column_name@)),
        r matches Ok(codes) ==> codes@.len() == column_texts(df, column_name@).len() && forall|i: int|
            0 <= i < codes@.len() ==> exists|p: int|
                #![trigger label_vec@[p]]
                0 <= p < label_vec@.len() && column_texts(df, column_name@)[i] == Some(label_vec@[p].0@)
                    && #[trigger] codes@[i] == label_vec@[p].1 as u32 && forall|q: int|
                    p < q < label_vec@.len() ==> column_texts(df, column_name@)[i] != Some(
                        label_vec@[q].0@,
                    ),
{
    let mut keys: Vec<Option<String>> = Vec::new();
    let mut i: usize = 0;
    while i < label_vec.len()
        invariant
            i <= label_vec@.len(),
            keys@.len() == i,
            keys@.map_values(|v: Option<String>| option_text(v)) == category_keys(
                label_vec@,
            ).subrange(0, i as int),
        decreases label_vec@.len() - i,
    {
        let category = label_vec[i].0.to_owned();
        keys.push(Some(category));
        assert(keys@.map_values(|v: Option<String>| option_text(v)) =~= category_keys(
            label_vec@,
        ).subrange(0, i + 1));
        i = i + 1;
    }
    let ghost key_texts = keys@.map_values(|v: Option<String>| option_text(v));
    assert(key_texts =~= category_keys(label_vec@));
    let column = frame_column(&df, column_name).unwrap();
    proof {
        let cols = frame_columns(df);
        let p = choose|p: int| first_named(cols, column_name@, p) && series_column(column) == cols[p];
        let q = choose|q: int| first_named(cols, column_name@, q);
        assert(p == q);
    }
    let values = match series_text_values(&column) {
        Ok(v) => v,
        Err(e) => return Err(e),
    };
    let ghost value_texts = values@.map_values(|v: Option<String>| option_text(v));
    assert(value_texts == column_texts(df, column_name@));
    let mut codes: Vec<u32> = Vec::new();
    let mut j: usize = 0;
    while j < values.len()
        invariant
            j <= values@.len(),
            key_texts == keys@.map_values(|v: Option<String>| option_text(v)),
            key_texts == category_keys(label_vec@),
            keys@.len() == label_vec@.len(),
            value_texts == values@.map_values(|v: Option<String>| option_text(v)),
            forall|k: int| 0 <= k < value_texts.len() ==> key_texts.contains(#[trigger] value_texts[k]),
            codes@ == labelled_codes(label_vec@, value_texts).subrange(0, j as int),
        decreases values@.len() - j,
    {
        assert(value_texts[j as int] == option_text(values@[j as int]));
        let pos = last_position_of(&keys, &values[j]);
        proof {
            lemma_last_position(key_texts, value_texts[j as int]);
        }
        let label = label_vec[pos].1;
        let code: u32 = #[verifier::truncate] (label as u32);
        codes.push(code);
        assert(codes@ =~= labelled_codes(label_vec@, value_texts).subrange(0, j + 1));
        j = j + 1;
    }
    assert(codes@ =~= labelled_codes(label_vec@, value_texts));
    proof {
        assert forall|k: int|
            #![trigger value_texts[k]]
            0 <= k < value_texts.len() implies exists|p: int|
            0 <= p < label_vec@.len() && value_texts[k] == Some(#[trigger] label_vec@[p].0@) by {
            assert(key_texts.contains(value_texts[k]));
            let p = choose|p: int| 0 <= p < key_texts.len() && key_texts[p] == value_texts[k];
            assert(key_texts[p] == Some(label_vec@[p].0@));
        }
        lemma_labelled_codes_take_last_pair(label_vec@, value_texts);
    }
    Ok(codes)
}

} // verus!
