use polars::prelude::{DataFrame, NamedFrom, Series};
use rust_ds::encoding::{get_encoded_column, get_encoded_column_vec};
use rust_ds::onehot::{one_hot_encoding, one_hot_with_categories};
use rust_ds::table::get_unique_values;

fn people() -> DataFrame {
    DataFrame::new(vec![
        Series::new("Id", &[1, 2, 3, 4, 5]),
        Series::new("Gender", &["Female", "Male", "Male", "Female", "Male"]),
    ])
    .unwrap()
}

fn location_frame() -> DataFrame {
    DataFrame::new(vec![
        Series::new("location", &["A", "B", "C", "A", "B"]),
        Series::new("value", &[1, 2, 3, 4, 5]),
    ])
    .unwrap()
}

fn column_i32(df: &DataFrame, name: &str) -> Vec<i32> {
    df.column(name)
        .unwrap()
        .i32()
        .unwrap()
        .into_iter()
        .map(|v| v.unwrap())
        .collect()
}

fn strings(s: &Series) -> Vec<String> {
    s.str().unwrap().into_iter().map(|v| v.unwrap().to_string()).collect()
}

#[test]
fn encoded_column_decodes_back_to_the_values() {
    let df = people();
    let mut df_for_unique = df.clone();
    let unique = get_unique_values(&mut df_for_unique, "Gender").unwrap();
    let categories = strings(&unique);
    let codes = get_encoded_column(unique, "Gender", df.clone()).unwrap();
    assert_eq!(codes.len(), 5);
    let decoded: Vec<String> = codes.iter().map(|c| categories[*c as usize].clone()).collect();
    assert_eq!(decoded, vec!["Female", "Male", "Male", "Female", "Male"]);
}

#[test]
fn encoded_column_uses_positions_in_the_given_series() {
    let df = people();
    let series = Series::new("cats", &["Male", "Female"]);
    let codes = get_encoded_column(series, "Gender", df).unwrap();
    assert_eq!(codes, vec![1, 0, 0, 1, 0]);
}

#[test]
fn encoded_column_last_duplicate_wins() {
    let df = people();
    let series = Series::new("cats", &["Male", "Female", "Male"]);
    let codes = get_encoded_column(series, "Gender", df).unwrap();
    assert_eq!(codes, vec![1, 2, 2, 1, 2]);
}

#[test]
fn encoded_column_refuses_a_non_string_series() {
    let df = people();
    let series = Series::new("cats", &[1, 2]);
    assert!(get_encoded_column(series, "Gender", df).is_err());
}

#[test]
fn encoded_column_refuses_a_non_string_column() {
    let df = people();
    let series = Series::new("cats", &["1", "2"]);
    assert!(get_encoded_column(series, "Id", df).is_err());
}

#[test]
fn encoded_column_vec_uses_the_given_labels() {
    let df = people();
    let labels = vec![("Female", 3), ("Male", 2)];
    let codes = get_encoded_column_vec(labels, "Gender", df).unwrap();
    assert_eq!(codes, vec![3, 2, 2, 3, 2]);
}

#[test]
fn encoded_column_vec_last_label_wins_and_negative_wraps() {
    let df = people();
    let labels = vec![("Female", 3), ("Male", 2), ("Female", -1)];
    let codes = get_encoded_column_vec(labels, "Gender", df).unwrap();
    assert_eq!(codes, vec![u32::MAX, 2, 2, u32::MAX, 2]);
}

#[test]
fn encoded_column_vec_refuses_a_non_string_column() {
    let df = people();
    let labels = vec![("1", 1)];
    assert!(get_encoded_column_vec(labels, "Id", df).is_err());
}

#[test]
fn one_hot_marks_each_row_once() {
    let df = location_frame();
    let encoded = one_hot_encoding(df, "location");
    let mut names: Vec<String> = encoded.get_column_names().iter().map(|s| s.to_string()).collect();
    names.sort();
    assert_eq!(names, vec!["A", "B", "C"]);
    assert_eq!(encoded.height(), 5);
    assert_eq!(column_i32(&encoded, "A"), vec![1, 0, 0, 1, 0]);
    assert_eq!(column_i32(&encoded, "B"), vec![0, 1, 0, 0, 1]);
    assert_eq!(column_i32(&encoded, "C"), vec![0, 0, 1, 0, 0]);
    for row in 0..5 {
        let total: i32 = ["A", "B", "C"].iter().map(|n| column_i32(&encoded, n)[row]).sum();
        assert_eq!(total, 1);
    }
}

#[test]
fn one_hot_with_categories_keeps_their_order() {
    let df = location_frame();
    let categories = vec!["C".to_string(), "A".to_string(), "Z".to_string()];
    let encoded = one_hot_with_categories(df, "location", &categories);
    assert_eq!(encoded.get_column_names(), vec!["C", "A", "Z"]);
    assert_eq!(column_i32(&encoded, "C"), vec![0, 0, 1, 0, 0]);
    assert_eq!(column_i32(&encoded, "A"), vec![1, 0, 0, 1, 0]);
    assert_eq!(column_i32(&encoded, "Z"), vec![0, 0, 0, 0, 0]);
}

#[test]
fn one_hot_drops_a_category_named_like_a_column() {
    let df = DataFrame::new(vec![
        Series::new("location", &["A", "value", "A"]),
        Series::new("value", &[1, 2, 3]),
    ])
    .unwrap();
    let categories = vec!["value".to_string(), "A".to_string()];
    let encoded = one_hot_with_categories(df, "location", &categories);
    assert_eq!(encoded.get_column_names(), vec!["A"]);
    assert_eq!(column_i32(&encoded, "A"), vec![1, 0, 1]);
}

#[test]
fn one_hot_after_the_encoded_column_is_replaced() {
    // The category "location" replaces the encoded column with its
    // indicator; later categories are compared with that column's text.
    let df = DataFrame::new(vec![Series::new("location", &["location", "Int32(1)", "B"])]).unwrap();
    let categories = vec!["location".to_string(), "Int32(1)".to_string(), "Int32(0)".to_string()];
    let encoded = one_hot_with_categories(df, "location", &categories);
    assert_eq!(encoded.get_column_names(), vec!["Int32(1)", "Int32(0)"]);
    assert_eq!(column_i32(&encoded, "Int32(1)"), vec![1, 0, 0]);
    assert_eq!(column_i32(&encoded, "Int32(0)"), vec![0, 1, 1]);
}

#[test]
fn encoded_column_refuses_a_non_string_series_before_looking_up_the_column() {
    let df = people();
    let series = Series::new("cats", &[1, 2]);
    assert!(get_encoded_column(series, "NoSuchColumn", df).is_err());
}

#[test]
fn one_hot_of_an_empty_integer_column_has_no_columns() {
    let df = DataFrame::new(vec![
        Series::new("n", &Vec::<i64>::new()),
        Series::new("m", &Vec::<i64>::new()),
    ])
    .unwrap();
    let encoded = one_hot_encoding(df, "n");
    assert_eq!(encoded.width(), 0);
}
