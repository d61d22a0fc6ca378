use glass::bus::chunk_message;
use glass::discord::{reply_chunks, MESSAGE_LIMIT};

#[test]
fn chunk_message_within_limit() {
    assert_eq!(chunk_message("hello", 100), vec!["hello".to_string()]);
}

#[test]
fn chunk_message_splits_on_line_boundary() {
    let v = chunk_message("aaa\nbbb\nccc", 5);
    assert!(v.len() > 1);
    for chunk in &v {
        assert!(chunk.len() <= 5, "chunk {chunk:?} > 5");
    }
}

#[test]
fn chunk_message_hard_splits_long_lines() {
    let s = "x".repeat(300);
    let v = chunk_message(&s, 100);
    assert_eq!(v.len(), 3);
    for chunk in &v {
        assert!(chunk.len() <= 100);
    }
}

#[test]
fn chunk_message_preserves_per_line_prefixes_across_splits() {
    let mut s = String::new();
    for i in 0..25 {
        s.push_str(&format!("-# `Tool{i}(arg)`\n"));
    }
    s.push_str("\nanswer body text");

    let chunks = chunk_message(&s, 200);
    assert!(chunks.len() > 1, "expected multiple chunks");
    for chunk in &chunks {
        for line in chunk.lines() {
            if line.contains("Tool") {
                assert!(
                    line.starts_with("-# "),
                    "tool line lost its prefix in chunk: {line:?}"
                );
            }
        }
    }
}

#[test]
fn chunk_message_preserves_multibyte_utf8() {
    let s = "😀".repeat(100);
    let v = chunk_message(&s, 50);
    assert!(v.len() > 1);
    for chunk in &v {
        assert!(chunk.len() <= 50, "chunk len {} > 50", chunk.len());
        assert!(
            !chunk.contains('\u{FFFD}'),
            "chunk contains replacement char: {chunk:?}"
        );
    }
    assert_eq!(v.concat(), s);
}

#[test]
fn chunks_are_filled_line_by_line() {
    assert_eq!(chunk_message("aaa\nbbb\nccc", 7), vec!["aaa\nbbb", "ccc"]);
    assert_eq!(chunk_message("aaa\nbbb\nccc", 8), vec!["aaa\nbbb", "ccc"]);
    assert_eq!(chunk_message("aaa\nbbb\nccc", 6), vec!["aaa", "bbb", "ccc"]);
}

#[test]
fn a_message_of_exactly_the_limit_is_one_chunk() {
    assert_eq!(chunk_message("aaa\nbbb", 7), vec!["aaa\nbbb"]);
    assert_eq!(chunk_message("", 0), vec![""]);
}

#[test]
fn a_long_line_is_cut_between_short_ones() {
    assert_eq!(
        chunk_message("ab\nxxxxxxxxxx\ncd", 4),
        vec!["ab", "xxxx", "xxxx", "xx", "cd"]
    );
}

#[test]
fn blank_lines_at_the_start_of_a_chunk_are_dropped() {
    assert_eq!(chunk_message("\n\nabcd\nefgh", 5), vec!["abcd", "efgh"]);
    assert_eq!(chunk_message("ab\n\ncd\nefgh", 6), vec!["ab\n\ncd", "efgh"]);
}

#[test]
fn carriage_returns_go_with_the_line_break() {
    assert_eq!(chunk_message("abc\r\ndef\r\n", 5), vec!["abc", "def"]);
    assert_eq!(chunk_message("abcdef\r", 4), vec!["abcd", "ef\r"]);
}

#[test]
fn nothing_but_line_breaks_leaves_nothing() {
    assert_eq!(chunk_message("\n\n\n", 2), Vec::<String>::new());
}

#[test]
fn replies_respect_the_platform_limit() {
    let reply = "é".repeat(3000);
    let chunks = reply_chunks(&reply);
    assert_eq!(chunks.len(), 4);
    assert!(chunks.iter().all(|c| c.len() <= MESSAGE_LIMIT));
    assert_eq!(chunks[0].len(), 1900);
    assert_eq!(chunks.concat(), reply);
}
