//! A growable string-to-id label dictionary and a sparse one-hot encoder
//! built on it.  Batches of categorical labels are turned into sparse
//! triplet matrices, either inline on the caller's thread or on a rayon
//! worker pool.

mod dictionary;
mod pool;
mod strategy;
mod triplets;
mod encoder;

pub use dictionary::LabelDictionary;
pub use dictionary::built_entries;
pub use dictionary::map_of;
pub use dictionary::has_key;
pub use dictionary::distinct_keys;
pub use dictionary::lemma_map_of_keys;
pub use dictionary::lemma_map_of_index;
pub use dictionary::lemma_map_of_len;
pub use dictionary::lemma_raw_determines_views;
pub use dictionary::lemma_build_contiguous;
pub use dictionary::lemma_build_first_seen;
pub use strategy::ExecutionStrategy;
pub use strategy::PoolCreationError;
pub use triplets::SparseTriplets;
pub use triplets::encode_pairs;
pub use triplets::lemma_encode_empty;
pub use triplets::lemma_encode_pairs_characterize;
pub use encoder::OneHotEncoder;
pub use encoder::lemma_round_trip;
pub use encoder::lemma_downgrade_idempotent;
pub use encoder::lemma_pooled_inline_agree;
