//! Splitting long text into ordered, contiguous batches.
//!
//! Two strategies are offered: [`CharCountBatcher`] cuts the text into runs of
//! a fixed number of grapheme clusters, and [`SentenceBatcher`] cuts it after
//! sentence punctuation once a batch is long enough. Both give back batches
//! whose contents, joined in order, are the input text.
pub mod strategies;

pub use crate::strategies::char_count::CharCountBatcher;
pub use crate::strategies::sentence_count::SentenceBatcher;
pub use crate::strategies::BatchingStrategy;
pub use crate::strategies::ConfigError;
pub use crate::strategies::TextBatch;
