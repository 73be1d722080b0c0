use chunk_norris::{BatchingStrategy, CharCountBatcher, ConfigError, SentenceBatcher, TextBatch};

fn joined(batches: &[TextBatch]) -> String {
    batches.iter().map(|b| b.content.as_str()).collect()
}

#[test]
fn zero_max_chars_is_refused() {
    assert_eq!(CharCountBatcher::new(0).unwrap_err(), ConfigError::ZeroMaxChars);
}

#[test]
fn max_chars_is_kept() {
    assert_eq!(CharCountBatcher::new(7).unwrap().max_chars(), 7);
    assert_eq!(SentenceBatcher::new(7).min_chars, 7);
}

#[test]
fn char_count_keeps_combining_marks_with_their_base() {
    // Three clusters, each a base letter followed by combining marks.
    let text = "a\u{310}e\u{301}o\u{308}\u{332}";
    let batcher = CharCountBatcher::new(1).unwrap();
    let batches = batcher.create_batches(text);
    assert_eq!(batches.len(), 3);
    assert_eq!(batches[0].content, "a\u{310}");
    assert_eq!(batches[1].content, "e\u{301}");
    assert_eq!(batches[2].content, "o\u{308}\u{332}");
}

#[test]
fn char_count_counts_clusters_not_code_points() {
    let text = "e\u{301}e\u{301}e\u{301}x";
    let batcher = CharCountBatcher::new(2).unwrap();
    let batches = batcher.create_batches(text);
    assert_eq!(batches.len(), 2);
    assert_eq!(batches[0].content, "e\u{301}e\u{301}");
    assert_eq!(batches[1].content, "e\u{301}x");
}

#[test]
fn char_count_keeps_crlf_together() {
    let batcher = CharCountBatcher::new(1).unwrap();
    let batches = batcher.create_batches("a\r\nb");
    assert_eq!(batches.len(), 3);
    assert_eq!(batches[1].content, "\r\n");
}

#[test]
fn char_count_batch_count_is_ceiling() {
    // 13 clusters in batches of 4: ceil(13 / 4) = 4.
    let text = "abcdefghijklm";
    let batches = CharCountBatcher::new(4).unwrap().create_batches(text);
    assert_eq!(batches.len(), 4);
    assert_eq!(batches[3].content, "m");
    for b in &batches[..3] {
        assert_eq!(b.content.chars().count(), 4);
    }
}

#[test]
fn char_count_joins_back_to_input() {
    let text = "Grüße, naïve café! 🇷🇺🇸🇹 done.";
    for max in 1..10 {
        let batches = CharCountBatcher::new(max).unwrap().create_batches(text);
        assert_eq!(joined(&batches), text);
        assert!(batches.iter().all(|b| !b.content.is_empty()));
    }
}

#[test]
fn batch_graphemes_groups_given_clusters() {
    let clusters: Vec<String> = vec!["ab".to_string(), "c".to_string(), "d".to_string()];
    let batches = CharCountBatcher::new(2).unwrap().batch_graphemes(&clusters);
    assert_eq!(batches.len(), 2);
    assert_eq!(batches[0].content, "abc");
    assert_eq!(batches[1].content, "d");
}

#[test]
fn sentence_zero_min_closes_at_every_delimiter() {
    let batches = SentenceBatcher::new(0).create_batches("A. B? C! D");
    let contents: Vec<&str> = batches.iter().map(|b| b.content.as_str()).collect();
    assert_eq!(contents, vec!["A.", " B?", " C!", " D"]);
}

#[test]
fn sentence_min_larger_than_text_gives_one_batch() {
    let text = "One. Two. Three.";
    let batches = SentenceBatcher::new(100).create_batches(text);
    assert_eq!(batches.len(), 1);
    assert_eq!(batches[0].content, text);
}

#[test]
fn sentence_trailing_text_without_delimiter_is_last_batch() {
    let batches = SentenceBatcher::new(3).create_batches("Hi there. and more");
    assert_eq!(batches.len(), 2);
    assert_eq!(batches[0].content, "Hi there.");
    assert_eq!(batches[1].content, " and more");
}

#[test]
fn sentence_short_batch_runs_past_delimiter_until_long_enough() {
    let batches = SentenceBatcher::new(6).create_batches("Hi. there you");
    assert_eq!(batches.len(), 2);
    assert_eq!(batches[0].content, "Hi. th");
    assert_eq!(batches[1].content, "ere you");
}

#[test]
fn sentence_joins_back_to_input() {
    let text = "Ça va? Très bien! Merci. Et toi… bof";
    for min in 0..40 {
        let batches = SentenceBatcher::new(min).create_batches(text);
        assert_eq!(joined(&batches), text);
        assert!(batches.iter().all(|b| !b.content.is_empty()));
    }
}

#[test]
fn sentence_fallback_without_delimiters() {
    let text = "no punctuation at all, none";
    for min in [0, 5, 100] {
        let batches = SentenceBatcher::new(min).create_batches(text);
        assert_eq!(batches.len(), 1);
        assert_eq!(batches[0].content, text);
    }
}
