//! Manipulation of search-path style environment variable values: an ordered,
//! delimiter-separated list of filesystem path entries (as in `PATH`).
//!
//! A [`Var`] holds one variable's text. Splitting it yields a [`PathVar`]:
//! an ordered sequence of entries that can be edited (remove, prefix, suffix)
//! and joined back into a single delimited string.

mod model;
mod splitter;
mod text;
mod var;

pub use model::{
    all_entries_ok, entry_ok, join_entries, lemma_join_concat, lemma_join_split,
    lemma_prefix_join, lemma_remove_absent, lemma_remove_absent_round_trip,
    lemma_remove_entries_gone, lemma_split_entries_len, lemma_split_entries_ok, lemma_split_join,
    lemma_suffix_join, remove_entries, split_entries, DELIMITER,
};
pub use splitter::{JoinError, PathVar};
pub use var::Var;
