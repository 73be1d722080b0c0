//! The batch type and the interface that every batching strategy offers.
use vstd::prelude::*;

pub mod char_count;
pub mod sentence_count;

verus! {

/// One contiguous piece of the text handed to a strategy.
#[derive(Debug, Clone)]
pub struct TextBatch {
    pub content: String,
}

/// A strategy was configured with a size that it cannot work with.
#[derive(Debug, Clone, Copy, PartialEq, Eq, Structural)]
pub enum ConfigError {
    /// A batch of at most zero grapheme clusters can hold no text.
    ZeroMaxChars,
}

/// The text of each batch, in order.
pub open spec fn batch_texts(batches: Seq<TextBatch>) -> Seq<Seq<char>> {
    batches.map_values(|b: TextBatch| b.content@)
}

/// The text of each string, in order.
pub open spec fn string_texts(strings: Seq<String>) -> Seq<Seq<char>> {
    strings.map_values(|s: String| s@)
}

/// Splits a text into an ordered sequence of batches.
pub trait BatchingStrategy {
    /// Every strategy gives back non-empty batches that, joined in order, are
    /// exactly `text`; so an empty text gives no batch at all.
    fn create_batches(&self, text: &str) -> (batches: Vec<TextBatch>)
        ensures
            batch_texts(batches@).flatten() == text@,
            forall|k: int| 0 <= k < batches.len() ==> (#[trigger] batches[k]).content@.len() > 0,
            text@.len() == 0 ==> batches.len() == 0,
    ;
}

} // verus!
