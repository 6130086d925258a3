//! A prefix dictionary for morphological analysis: it finds the word entries of every surface that
//! a text starts with, and computes the left-space penalties of Korean words.
//!
//! `dictionary` holds the dictionary and its lookups, `archived` the lookups in its archived form,
//! and `entries` what lookups return, read one entry at a time. `double_array_serde` turns the
//! automaton into bytes and back, after `counts` has looked at the counts in them. They rest on
//! `automaton`, which says what a search reports; on `values` and `lookup`, which lead from the
//! values that a search finds to word entries; and on `details` and `penalty`, which lead from the
//! stored details of a word to its penalty. What holds of them together is stated in `laws`,
//! `growth`, `stored_laws`, `search_laws` and `word_laws`.

pub mod archived;
pub mod automaton;
pub mod bytes;
pub mod counts;
pub mod data;
pub mod details;
pub mod dictionary;
pub mod double_array_serde;
pub mod entries;
pub mod entry;
pub mod error;
pub mod growth;
pub mod laws;
pub mod lookup;
pub mod options;
pub mod penalty;
pub mod search_laws;
pub mod stored_laws;
pub mod text;
pub mod until;
pub mod values;
pub mod word_laws;

pub use crate::archived::ArchivedPrefixDictionary;
pub use crate::data::Data;
pub use crate::dictionary::PrefixDictionary;
pub use crate::double_array_serde::DoubleArrayArchiver;
pub use crate::entries::{PrefixEntries, SurfaceEntries};
pub use crate::entry::{WordEntry, WordId};
pub use crate::error::{LinderaError, LinderaErrorKind, LinderaResult, LookupError};
pub use crate::lookup::{Match, WordIdx};
pub use crate::penalty::compute_korean_space_penalty;
