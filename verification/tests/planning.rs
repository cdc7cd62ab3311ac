use polars::prelude::{DataFrame, NamedFrom, Series};
use rust_ds::batches::batch_ranges;
use rust_ds::layout::row_major;
use rust_ds::memory::Memory;
use rust_ds::split::train_test_split_rows;

fn numbered(n: i32) -> DataFrame {
    let a: Vec<i32> = (0..n).collect();
    let b: Vec<i32> = (0..n).map(|v| v * 10).collect();
    DataFrame::new(vec![Series::new("a", &a), Series::new("b", &b)]).unwrap()
}

fn values(df: &DataFrame, name: &str) -> Vec<i32> {
    df.column(name).unwrap().i32().unwrap().into_iter().map(|v| v.unwrap()).collect()
}

#[test]
fn split_without_shuffle_keeps_the_row_order() {
    let (train, test) = train_test_split_rows(numbered(10), 3, false, 1);
    assert_eq!(values(&train, "a"), vec![0, 1, 2, 3, 4, 5, 6]);
    assert_eq!(values(&test, "a"), vec![7, 8, 9]);
    assert_eq!(values(&test, "b"), vec![70, 80, 90]);
}

#[test]
fn split_with_shuffle_places_each_row_once() {
    let (train, test) = train_test_split_rows(numbered(10), 4, true, 1);
    assert_eq!(train.height(), 6);
    assert_eq!(test.height(), 4);
    let mut all: Vec<i32> = values(&train, "a");
    all.extend(values(&test, "a"));
    assert_ne!(all, (0..10).collect::<Vec<i32>>());
    let pairs_train: Vec<(i32, i32)> =
        values(&train, "a").into_iter().zip(values(&train, "b")).collect();
    for (a, b) in pairs_train {
        assert_eq!(b, a * 10);
    }
    all.sort();
    assert_eq!(all, (0..10).collect::<Vec<i32>>());
}

#[test]
fn split_with_no_test_rows_and_all_test_rows() {
    let (train, test) = train_test_split_rows(numbered(4), 0, false, 7);
    assert_eq!(values(&train, "a"), vec![0, 1, 2, 3]);
    assert_eq!(test.height(), 0);
    let (train, test) = train_test_split_rows(numbered(4), 4, false, 7);
    assert_eq!(train.height(), 0);
    assert_eq!(values(&test, "a"), vec![0, 1, 2, 3]);
}

#[test]
fn batches_cover_the_rows_in_order() {
    assert_eq!(batch_ranges(10, 3), vec![(0, 3), (3, 3), (6, 3), (9, 1)]);
    assert_eq!(batch_ranges(9, 3), vec![(0, 3), (3, 3), (6, 3)]);
    assert_eq!(batch_ranges(2, 32), vec![(0, 2)]);
}

#[test]
fn batches_of_no_rows() {
    assert_eq!(batch_ranges(0, 4), Vec::<(i64, i64)>::new());
    assert_eq!(batch_ranges(-5, 4), Vec::<(i64, i64)>::new());
}

#[test]
fn memory_hands_out_consecutive_addresses() {
    let mut mem: Memory<String> = Memory::new();
    assert_eq!(mem.len(), 0);
    let w = mem.push("weights".to_string());
    let b = mem.push("bias".to_string());
    assert_eq!((w, b), (0, 1));
    assert_eq!(mem.get(&w), "weights");
    assert_eq!(mem.get(&b), "bias");
    assert_eq!(mem.len(), 2);
}

#[test]
fn row_major_lays_rows_out_one_after_another() {
    let columns = vec![vec![1, 2, 3], vec![4, 5, 6]];
    assert_eq!(row_major(&columns, 3), vec![1, 4, 2, 5, 3, 6]);
    let no_columns: Vec<Vec<i32>> = vec![];
    assert_eq!(row_major(&no_columns, 5), Vec::<i32>::new());
}
