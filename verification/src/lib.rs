//! An embedded transactional key-value store over a memory-mapped B-tree
//! engine: named stores inside one environment, single-writer /
//! multi-reader snapshot transactions, a tagged value codec, and
//! cursor-based range iteration, with the behaviour of each operation
//! stated and machine-checked against a model of the engine's contracts.

use vstd::prelude::*;

mod cursor;
mod engine;
mod env;
mod error;
mod iter;
mod manager;
mod order;
mod store;
mod txn;
mod value;

pub use cursor::{decode_result_matches, lemma_iter_past_end, pairs_match, RangeIter};
pub use env::{name_view, opt_name_view, Env, DEFAULT_MAX_STORES};
pub use error::{nsresult, EngineError, StoreError, NS_ERROR_FAILURE, NS_ERROR_NOT_IMPLEMENTED,
    NS_ERROR_UNEXPECTED, NS_OK};
pub use iter::XULStoreIterator;
pub use manager::Manager;
pub use order::{entries_match, entries_sorted, keys_between, keys_from, lemma_entries_match_unique,
    lex_le, lex_lt, nul_free};
pub use store::Store;
pub use txn::{apply_ops, get_result_matches, lemma_reader_lookups_agree, BatchOp, Reader, Writer};
pub use value::{decode, encode, lemma_codec_round_trip, spec_decode, spec_encode, DataError,
    DataType, Value, ValueView};

verus! {

} // verus!
