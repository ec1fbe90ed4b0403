use aicommit::ai::ChatMessage;
use aicommit::token::{count_messages, count_tokens, split_diff, split_long_line, try_count_messages};

#[test]
fn split_diff_keeps_small_diff_whole() {
    let chunks = split_diff("one\ntwo", 100);
    assert_eq!(chunks, vec!["one\ntwo"]);
}

#[test]
fn split_diff_splits_single_long_line() {
    let line = "word ".repeat(100);
    let chunks = split_diff(line.trim(), 10);
    assert!(chunks.len() > 1);
    assert_eq!(chunks.join(""), line.trim());
}

#[test]
fn split_diff_chunks_multi_line_diff_losslessly() {
    let diff = (0..200)
        .map(|i| format!("line {i} with some diff content"))
        .collect::<Vec<_>>()
        .join("\n");
    let max_tokens = 50;
    let chunks = split_diff(&diff, max_tokens);

    assert!(chunks.len() > 1);
    for chunk in &chunks {
        assert!(count_tokens(chunk) <= max_tokens);
    }
    let rejoined = chunks
        .iter()
        .map(String::as_str)
        .collect::<Vec<_>>()
        .join("\n");
    assert_eq!(rejoined, diff);
}

#[test]
fn split_diff_handles_large_diff_quickly() {
    let diff = (0..20_000)
        .map(|i| format!("+    let value_{i} = compute_something({i});"))
        .collect::<Vec<_>>()
        .join("\n");
    let chunks = split_diff(&diff, 2_000);
    assert!(chunks.len() > 1);
}

#[test]
fn counts_messages_with_overhead() {
    let messages = vec![ChatMessage::user("hello")];
    assert!(count_messages(&messages) >= 5);
}

#[test]
fn count_tokens_is_not_the_byte_length() {
    // The tokenizer merges common words: a long English sentence has far
    // fewer tokens than characters.
    let text = "the quick brown fox jumps over the lazy dog";
    let n = count_tokens(text);
    assert!(n > 0);
    assert!(n < text.len());
    assert_eq!(count_tokens(""), 0);
}

#[test]
fn try_count_messages_matches_count_messages() {
    let messages = vec![ChatMessage::user("hello"), ChatMessage::user("world")];
    assert_eq!(try_count_messages(&messages), Some(count_messages(&messages)));
    assert_eq!(try_count_messages(&[]), Some(0));
}

#[test]
fn message_overhead_is_four_per_message() {
    let messages = vec![ChatMessage::user(""), ChatMessage::user("")];
    assert_eq!(count_messages(&messages), 8);
}

#[test]
fn split_long_line_keeps_fitting_line() {
    assert_eq!(split_long_line("short", 100), vec!["short"]);
}

#[test]
fn split_long_line_cuts_by_bytes() {
    let line = "ab".repeat(50);
    let pieces = split_long_line(&line, 1);
    assert!(pieces.iter().all(|p| !p.is_empty() && p.len() <= 4));
    assert_eq!(pieces.concat(), line);
}

#[test]
fn split_long_line_never_splits_a_character() {
    let line = "é".repeat(40);
    let pieces = split_long_line(&line, 1);
    assert!(pieces.iter().all(|p| p.len() <= 4));
    assert_eq!(pieces.concat(), line);
}

#[test]
fn split_diff_zero_budget_counts_as_one() {
    let chunks = split_diff("a", 0);
    assert_eq!(chunks.concat(), "a");
}

#[test]
fn split_diff_keeps_every_chunk_within_estimate() {
    let diff = (0..50).map(|i| format!("row {i}")).collect::<Vec<_>>().join("\n");
    let chunks = split_diff(&diff, 12);
    for chunk in &chunks {
        let estimate: usize = chunk.lines().map(count_tokens).sum::<usize>() + chunk.lines().count() - 1;
        assert!(estimate <= 12);
    }
    assert_eq!(chunks.join("\n"), diff);
}

#[test]
fn split_diff_drops_empty_line_at_chunk_start() {
    // An empty line that arrives when no chunk is open is not kept.
    let long = "word ".repeat(30);
    let diff = format!("{}\n\n{}", long.trim(), long.trim());
    let chunks = split_diff(&diff, 20);
    assert!(chunks.iter().all(|c| !c.is_empty()));
}

#[test]
fn chunks_of_a_non_empty_diff_are_never_empty() {
    let diff = (0..80).map(|i| format!("+ line {i}")).collect::<Vec<_>>().join("\n");
    for budget in [0, 1, 3, 10, 50] {
        assert!(aicommit::token::split_diff(&diff, budget).iter().all(|c| !c.is_empty()));
    }
    assert_eq!(aicommit::token::split_diff("", 5), vec![String::new()]);
}

#[test]
fn message_counts_add_up() {
    let a = vec![ChatMessage::user("hello"), ChatMessage::user("world")];
    let b = vec![ChatMessage::user("more text here")];
    let ab: Vec<ChatMessage> = a.iter().chain(b.iter()).map(|m| ChatMessage::user(&m.content)).collect();
    assert_eq!(count_messages(&[]), 0);
    assert_eq!(count_messages(&b), count_tokens("more text here") + 4);
    assert_eq!(count_messages(&ab), count_messages(&a) + count_messages(&b));
    assert_eq!(try_count_messages(&ab), Some(count_messages(&ab)));
    assert_eq!(count_tokens(""), 0);
}

#[test]
fn a_very_long_run_of_spaces_still_counts() {
    let text = format!("{}x", " ".repeat(1_000_001));
    let n = count_tokens(&text);
    assert!(n >= 1 && n <= text.len());
    assert_eq!(aicommit::text::whitespace_word_count(" a  b\tc \n"), 3);
    assert_eq!(aicommit::text::whitespace_word_count(" \t "), 0);
}
