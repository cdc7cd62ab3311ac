//! Data-frame helpers for small machine-learning workflows: positional column
//! selection, label and one-hot encoding, row splitting, mini-batch planning.

pub mod select;
pub mod frame;
pub mod table;
pub mod encoding;
pub mod onehot;
pub mod split;
pub mod batches;
pub mod memory;
pub mod layout;
