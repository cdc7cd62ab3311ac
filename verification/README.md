# rust_ds

Data-frame preparation for small machine-learning workflows, verified with
Verus on top of polars.

- `src/` is the verified library. `frame.rs` is the boundary with polars: the
  declared polars types, the model of what a frame holds (`ColumnView`,
  `CellView`) and one trusted wrapper per polars call. On that model the
  library states and proves positional selection (`select.rs`, `table.rs`),
  label encoding (`encoding.rs`), one-hot encoding (`onehot.rs`), the
  training/test row split (`split.rs`), mini-batch planning (`batches.rs`),
  the row-major layout of a table (`layout.rs`) and a parameter store
  (`memory.rs`).
- `app/` holds what stays outside the proofs: reading CSV files, printing,
  floating-point feature scaling, and the neural networks (ndarray, tch).
- `tests/` runs the library on concrete frames.
