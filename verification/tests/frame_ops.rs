use polars::prelude::{AnyValue, DataFrame, NamedFrom, Series};
use rust_ds::select::col_select;
use rust_ds::table::{
    frame_is_well_formed, get_df_result, get_sr_result, get_unique_values, has_column_named, pandas_iloc,
    unique_values_if_supported,
};

fn sample_frame() -> DataFrame {
    DataFrame::new(vec![
        Series::new("a", &[1, 2, 3, 4, 5]),
        Series::new("b", &["p", "q", "r", "s", "t"]),
        Series::new("c", &[10, 20, 30, 40, 50]),
        Series::new("d", &[true, false, true, false, true]),
    ])
    .unwrap()
}

fn int_values(df: &DataFrame, name: &str) -> Vec<i32> {
    df.column(name)
        .unwrap()
        .i32()
        .unwrap()
        .into_iter()
        .map(|v| v.unwrap())
        .collect()
}

#[test]
fn col_select_counts_a_negative_end_from_the_back() {
    let items = vec!["a", "b", "c", "d", "e"];
    assert_eq!(col_select(&items, 1, -1), vec!["b", "c", "d"]);
    assert_eq!(col_select(&items, 3, -1), vec!["d"]);
}

#[test]
fn col_select_takes_a_plain_range() {
    let items = vec![10, 20, 30, 40];
    assert_eq!(col_select(&items, 1, 3), vec![20, 30]);
    assert_eq!(col_select(&items, 2, 2), Vec::<i32>::new());
    assert_eq!(col_select(&items, 0, -4), Vec::<i32>::new());
}

#[test]
fn pandas_iloc_keeps_the_column_and_row_ranges() {
    let df = sample_frame();
    let out = pandas_iloc(&df, 0, 3, 1, 3);
    assert_eq!(out.get_column_names(), vec!["a", "b", "c"]);
    assert_eq!(out.height(), 2);
    assert_eq!(int_values(&out, "a"), vec![2, 3]);
    assert_eq!(int_values(&out, "c"), vec![20, 30]);
}

#[test]
fn pandas_iloc_with_negative_end_and_rows_past_the_end() {
    let df = sample_frame();
    let out = pandas_iloc(&df, 2, -1, 3, 100);
    assert_eq!(out.get_column_names(), vec!["c"]);
    assert_eq!(int_values(&out, "c"), vec![40, 50]);
}

#[test]
fn pandas_iloc_negative_end_wraps_twice() {
    // -6 on 4 columns resolves to -2, then once more to 2.
    let df = sample_frame();
    let out = pandas_iloc(&df, 0, -6, 0, 5);
    assert_eq!(out.get_column_names(), vec!["a", "b"]);
    assert_eq!(out.height(), 5);
}

#[test]
fn pandas_iloc_whole_frame() {
    let df = sample_frame();
    let out = pandas_iloc(&df, 0, 4, 0, 5);
    assert_eq!(out.get_column_names(), vec!["a", "b", "c", "d"]);
    assert_eq!(out.height(), 5);
    assert_eq!(int_values(&out, "a"), vec![1, 2, 3, 4, 5]);
}

#[test]
fn pandas_iloc_row_start_past_the_end_is_empty() {
    let df = sample_frame();
    let out = pandas_iloc(&df, 1, 2, 7, 9);
    assert_eq!(out.get_column_names(), vec!["b"]);
    assert_eq!(out.height(), 0);
}

#[test]
fn get_df_result_passes_a_frame_through() {
    let df = sample_frame();
    let out = get_df_result(Ok(df));
    assert_eq!(out.shape(), (5, 4));
}

#[test]
fn get_df_result_gives_an_empty_frame_for_an_error() {
    let df = sample_frame();
    let missing = df.select(["nope"]);
    assert!(missing.is_err());
    let out = get_df_result(missing);
    assert_eq!(out.shape(), (0, 0));
}

#[test]
fn get_sr_result_passes_a_series_through() {
    let s = Series::new("x", &[1, 2, 3]);
    let out = get_sr_result(Ok(s));
    assert_eq!(out.name(), "x");
    assert_eq!(out.len(), 3);
}

#[test]
fn get_sr_result_gives_the_default_series_for_an_error() {
    let df = sample_frame();
    let out = get_sr_result(df.column("nope").cloned());
    assert_eq!(out.name(), "default");
    assert_eq!(out.len(), 0);
}

#[test]
fn get_unique_values_lists_each_string_once() {
    let mut df = DataFrame::new(vec![Series::new(
        "Gender",
        &["Male", "Female", "Female", "Male", "Male"],
    )])
    .unwrap();
    let unique = get_unique_values(&mut df, "Gender").unwrap();
    assert_eq!(unique.name(), "Gender");
    let mut values: Vec<String> = unique
        .str()
        .unwrap()
        .into_iter()
        .map(|v| v.unwrap().to_string())
        .collect();
    values.sort();
    assert_eq!(values, vec!["Female".to_string(), "Male".to_string()]);
    assert_eq!(df.height(), 5);
}

#[test]
fn get_unique_values_of_an_integer_column() {
    let mut df = sample_frame();
    let unique = get_unique_values(&mut df, "a").unwrap();
    assert_eq!(unique.len(), 5);
    assert_eq!(unique.get(0).unwrap(), AnyValue::Int32(1));
}

#[test]
fn get_unique_values_of_repeated_integers() {
    let mut df = DataFrame::new(vec![Series::new("n", &[3i64, 1, 3, 2, 1])]).unwrap();
    let unique = get_unique_values(&mut df, "n").unwrap();
    assert_eq!(unique.name(), "n");
    let mut values: Vec<i64> = unique.i64().unwrap().into_iter().map(|v| v.unwrap()).collect();
    values.sort();
    assert_eq!(values, vec![1, 2, 3]);
}

#[test]
fn unique_values_if_supported_answers_for_a_string_column() {
    let mut df = DataFrame::new(vec![Series::new("g", &["x", "y", "x"])]).unwrap();
    let unique = unique_values_if_supported(&mut df, "g").unwrap();
    assert_eq!(unique.len(), 2);
    assert_eq!(unique.name(), "g");
}

#[test]
fn unique_values_if_supported_is_none_for_a_list_of_strings() {
    let lists = vec![
        Series::new("", &["a", "b"]),
        Series::new("", &["c"]),
        Series::new("", &["a", "b"]),
    ];
    let mut df = DataFrame::new(vec![Series::new("l", &lists)]).unwrap();
    assert!(unique_values_if_supported(&mut df, "l").is_none());
    assert_eq!(df.height(), 3);
}

#[test]
fn get_unique_values_of_unsigned_integers() {
    let mut df = DataFrame::new(vec![Series::new("u", &[7u32, 7, 9])]).unwrap();
    let unique = get_unique_values(&mut df, "u").unwrap();
    let mut values: Vec<u32> = unique.u32().unwrap().into_iter().map(|v| v.unwrap()).collect();
    values.sort();
    assert_eq!(values, vec![7, 9]);
}

#[test]
fn unique_values_if_supported_is_none_for_a_list_of_integers() {
    let lists = vec![Series::new("", &[1i64, 2]), Series::new("", &[3i64]), Series::new("", &[1i64, 2])];
    let mut df = DataFrame::new(vec![Series::new("l", &lists)]).unwrap();
    assert!(unique_values_if_supported(&mut df, "l").is_none());
}

#[test]
fn has_column_named_finds_existing_columns_only() {
    let df = sample_frame();
    assert!(has_column_named(&df, "c"));
    assert!(!has_column_named(&df, "z"));
}

#[test]
fn frame_is_well_formed_accepts_a_built_frame() {
    assert!(frame_is_well_formed(&sample_frame()));
    assert!(frame_is_well_formed(&DataFrame::default()));
}

#[test]
fn frame_is_well_formed_refuses_duplicate_names_and_ragged_columns() {
    let twice = DataFrame::new_no_checks(vec![Series::new("a", &[1, 2]), Series::new("a", &[3, 4])]);
    assert!(!frame_is_well_formed(&twice));
    let ragged = DataFrame::new_no_checks(vec![Series::new("a", &[1, 2]), Series::new("b", &[3])]);
    assert!(!frame_is_well_formed(&ragged));
}
