//! Batching at sentence punctuation, with a minimum batch length.
use vstd::prelude::*;
use vstd::string::StrSliceExecFns;

use super::{batch_texts, BatchingStrategy, TextBatch};

verus! {

/// `.`, `?` and `!` end a sentence.
pub open spec fn is_delimiter(c: char) -> bool {
    c == '.' || c == '?' || c == '!'
}

/// Position of the first delimiter in `t`, or `t.len()` where there is none.
pub open spec fn first_delimiter(t: Seq<char>) -> nat
    decreases t.len(),
{
    if t.len() == 0 {
        0
    } else if is_delimiter(t[0]) {
        0
    } else {
        1 + first_delimiter(t.drop_first())
    }
}

/// Length of the first batch of a non-empty text: the batch closes as soon as
/// it holds a delimiter and at least `min_chars` characters, and otherwise
/// runs to the end of the text.
pub open spec fn first_cut(t: Seq<char>, min_chars: nat) -> nat {
    let reach = if first_delimiter(t) + 1 > min_chars {
        first_delimiter(t) + 1
    } else {
        min_chars
    };
    if reach < t.len() {
        reach
    } else {
        t.len()
    }
}

/// The batches that a `SentenceBatcher` with `min_chars` makes of `t`.
pub open spec fn sentence_batches(t: Seq<char>, min_chars: nat) -> Seq<Seq<char>>
    decreases t.len(),
{
    if t.len() == 0 {
        seq![]
    } else {
        let k = first_cut(t, min_chars) as int;
        seq![t.take(k)] + sentence_batches(t.skip(k), min_chars)
    }
}

proof fn lemma_first_delimiter(t: Seq<char>)
    ensures
        first_delimiter(t) <= t.len(),
        forall|j: int| 0 <= j < first_delimiter(t) ==> !is_delimiter(#[trigger] t[j]),
        first_delimiter(t) < t.len() ==> is_delimiter(t[first_delimiter(t) as int]),
    decreases t.len(),
{
    if t.len() > 0 && !is_delimiter(t[0]) {
        lemma_first_delimiter(t.drop_first());
        assert forall|j: int| 0 <= j < first_delimiter(t) implies !is_delimiter(#[trigger] t[j]) by {
            if j > 0 {
                assert(t[j] == t.drop_first()[j - 1]);
            }
        }
    }
}

/// Joining the sentence batches of a text in order gives back the text.
pub proof fn lemma_sentence_batches_join(text: Seq<char>, min_chars: nat)
    ensures
        sentence_batches(text, min_chars).flatten() == text,
    decreases text.len(),
{
    if text.len() > 0 {
        let k = first_cut(text, min_chars) as int;
        let rest = sentence_batches(text.skip(k), min_chars);
        lemma_sentence_batches_join(text.skip(k), min_chars);
        let all = seq![text.take(k)] + rest;
        assert(all.first() == text.take(k));
        assert(all.drop_first() =~= rest);
        assert(text.take(k) + text.skip(k) =~= text);
    }
}

/// No sentence batch is empty.
pub proof fn lemma_sentence_batches_nonempty(text: Seq<char>, min_chars: nat)
    ensures
        forall|k: int|
            0 <= k < sentence_batches(text, min_chars).len() ==> (#[trigger] sentence_batches(
                text,
                min_chars,
            )[k]).len() > 0,
    decreases text.len(),
{
    if text.len() > 0 {
        let k = first_cut(text, min_chars) as int;
        lemma_sentence_batches_nonempty(text.skip(k), min_chars);
        let rest = sentence_batches(text.skip(k), min_chars);
        assert forall|i: int| 0 < i < 1 + rest.len() implies (#[trigger] (seq![text.take(k)]
            + rest)[i]).len() > 0 by {
            assert((seq![text.take(k)] + rest)[i] == rest[i - 1]);
        }
    }
}

/// A non-empty text without `.`, `?` or `!` is one batch: the whole text.
pub proof fn lemma_sentence_fallback(text: Seq<char>, min_chars: nat)
    requires
        text.len() > 0,
        forall|j: int| 0 <= j < text.len() ==> !is_delimiter(#[trigger] text[j]),
    ensures
        sentence_batches(text, min_chars) == seq![text],
{
    lemma_first_delimiter(text);
    assert(text.take(text.len() as int) =~= text);
    assert(sentence_batches(text.skip(text.len() as int), min_chars) == Seq::<Seq<char>>::empty());
    assert(sentence_batches(text, min_chars) =~= seq![text]);
}

/// Relies on `String::push`: the character is appended at the end.
pub assume_specification[ String::push ](s: &mut String, ch: char)
    ensures
        final(s)@ == old(s)@.push(ch),
;

/// Where the scan stands: gathering characters, or past a sentence end at
/// which the batch closes once it is long enough.
#[derive(PartialEq, Eq, Structural)]
enum ScanState {
    Accumulating,
    PendingBoundary,
}

/// Splits text after sentence punctuation (`.`, `?`, `!`), merging sentences
/// until a batch holds at least `min_chars` characters.
///
/// A batch closes at the first character at which it holds a sentence end
/// and is long enough, or at the end of the text. Text without any sentence
/// end is one batch.
#[derive(Debug, Clone, Copy)]
pub struct SentenceBatcher {
    /// The number of characters that a batch reaches before it closes at a
    /// sentence end; zero closes at every sentence end.
    pub min_chars: usize,
}

impl SentenceBatcher {
    /// A batcher whose batches close once they hold `min_chars` characters.
    pub fn new(min_chars: usize) -> (r: Self)
        ensures
            r.min_chars == min_chars,
    {
        Self { min_chars }
    }

    /// Moves a non-empty `current_batch` to the end of `batches`, and gives
    /// back an empty accumulator.
    fn finalize_batch(&self, current_batch: String, batches: &mut Vec<TextBatch>) -> (fresh:
        String)
        ensures
            fresh@.len() == 0,
            current_batch@.len() == 0 ==> final(batches)@ == old(batches)@,
            current_batch@.len() > 0 ==> final(batches).len() == old(batches).len() + 1,
            current_batch@.len() > 0 ==> batch_texts(final(batches)@) == batch_texts(
                old(batches)@,
            ).push(current_batch@),
    {
        if !current_batch.as_str().is_empty() {
            batches.push(TextBatch { content: current_batch });
            proof {
                assert(batch_texts(batches@) =~= batch_texts(old(batches)@).push(current_batch@));
            }
            String::new()
        } else {
            String::new()
        }
    }
}

impl BatchingStrategy for SentenceBatcher {
    fn create_batches(&self, text: &str) -> (batches: Vec<TextBatch>)
        ensures
            batch_texts(batches@) == sentence_batches(text@, self.min_chars as nat),
    {
        let ghost t = text@;
        let ghost m = self.min_chars as nat;
        let n = text.unicode_len();
        let mut batches: Vec<TextBatch> = Vec::new();
        let mut current_batch = String::new();
        let mut current_len: usize = 0;
        let mut state = ScanState::Accumulating;
        let mut index: usize = 0;
        let ghost mut start: int = 0;
        proof {
            assert(t.skip(0) =~= t);
            assert(batch_texts(batches@) =~= Seq::<Seq<char>>::empty());
        }
        for c in it: text.chars()
            invariant
                t == text@,
                n == t.len(),
                it.seq() == t,
                index == it.index(),
                0 <= start <= index <= n,
                current_batch@ == t.subrange(start, index as int),
                current_len == index - start,
                batch_texts(batches@) + sentence_batches(t.skip(start), m) == sentence_batches(t, m),
                m == self.min_chars as nat,
                start < n ==> index - start <= first_cut(t.skip(start), m),
                index < n ==> index - start < first_cut(t.skip(start), m),
                (state == ScanState::PendingBoundary) <==> first_delimiter(t.skip(start)) < index
                    - start,
        {
            let ghost rest = t.skip(start);
            let ghost len = index - start;
            proof {
                lemma_first_delimiter(rest);
                assert(rest[len] == c);
            }
            current_batch.push(c);
            current_len = current_len + 1;
            if c == '.' || c == '?' || c == '!' {
                state = ScanState::PendingBoundary;
            }
            proof {
                assert(current_batch@ =~= t.subrange(start, index + 1));
                assert(rest.len() == n - start);
                assert((state == ScanState::PendingBoundary) <==> first_delimiter(rest) < len + 1);
                assert(len < first_cut(rest, m));
            }
            if state == ScanState::PendingBoundary && (current_len >= self.min_chars || index == n
                - 1) {
                proof {
                    assert(first_cut(rest, m) == len + 1);
                    assert(rest.take(len + 1) =~= current_batch@);
                    assert(rest.skip(len + 1) =~= t.skip(index + 1));
                }
                let ghost before = batch_texts(batches@);
                current_batch = self.finalize_batch(current_batch, &mut batches);
                current_len = 0;
                state = ScanState::Accumulating;
                proof {
                    assert(before.push(rest.take(len + 1)) + sentence_batches(t.skip(index + 1), m)
                        =~= before + sentence_batches(rest, m));
                    start = index + 1;
                    assert(current_batch@ =~= t.subrange(start, index + 1));
                }
            } else {
                assert(len + 1 <= first_cut(rest, m));
                assert(index + 1 < n ==> len + 1 < first_cut(rest, m));
            }
            index = index + 1;
        }
        proof {
            let rest = t.skip(start);
            if start < n {
                assert(first_cut(rest, m) == rest.len());
                assert(rest.take(rest.len() as int) =~= current_batch@);
                assert(rest.skip(rest.len() as int) =~= Seq::<char>::empty());
                assert(sentence_batches(rest.skip(rest.len() as int), m) == Seq::<Seq<char>>::empty());
                assert(sentence_batches(rest, m) =~= seq![rest]);
            } else {
                assert(rest =~= Seq::<char>::empty());
            }
        }
        let ghost before = batch_texts(batches@);
        self.finalize_batch(current_batch, &mut batches);
        proof {
            if start < n {
                assert(before.push(t.skip(start)) =~= before + sentence_batches(t.skip(start), m));
            } else {
                assert(before =~= before + sentence_batches(t.skip(start), m));
            }
        }
        // The trailing flush above leaves no non-empty text without a batch;
        // this keeps a text with no sentence end whole all the same.
        if batches.len() == 0 && !text.is_empty() {
            batches.push(TextBatch { content: text.to_owned() });
        }
        proof {
            lemma_sentence_batches_join(t, m);
            lemma_sentence_batches_nonempty(t, m);
            assert forall|k: int| 0 <= k < batches.len() implies (#[trigger] batches[k]).content@.len()
                > 0 by {
                assert(batch_texts(batches@)[k] == batches[k].content@);
            }
        }
        batches
    }
}

} // verus!
