use searchllama::messages::{frame_message, split_frames};
use searchllama::prompts::parse_related_queries;
use searchllama::text::{split_into_chunks, split_nonempty_trimmed};

#[test]
fn chunks_cut_after_last_space() {
    let chunks = split_into_chunks("hello world foo", 6);
    assert_eq!(chunks, vec!["hello ".to_string(), "world ".to_string(), "foo".to_string()]);
}

#[test]
fn chunks_without_space_cut_at_size() {
    let chunks = split_into_chunks("abcdefghij", 4);
    assert_eq!(chunks, vec!["abcd".to_string(), "efgh".to_string(), "ij".to_string()]);
}

#[test]
fn chunks_count_characters_not_bytes() {
    let chunks = split_into_chunks("ééééé", 2);
    assert_eq!(chunks, vec!["éé".to_string(), "éé".to_string(), "é".to_string()]);
}

#[test]
fn chunks_rewind_at_unicode_space() {
    let chunks = split_into_chunks("ab\u{3000}cdef", 4);
    assert_eq!(chunks, vec!["ab\u{3000}".to_string(), "cdef".to_string()]);
}

#[test]
fn chunks_of_empty_text() {
    assert!(split_into_chunks("", 5).is_empty());
}

#[test]
fn chunks_cover_text_and_respect_size() {
    let text = "The quick brown fox jumps over the lazy dog; pack my box with five dozen jugs.";
    for size in 1..20usize {
        let chunks = split_into_chunks(text, size);
        assert_eq!(chunks.concat(), text);
        for c in &chunks {
            let n = c.chars().count();
            assert!(n > 0 && n <= size);
        }
    }
}

#[test]
fn last_chunk_is_not_rewound() {
    let chunks = split_into_chunks("ab cd", 10);
    assert_eq!(chunks, vec!["ab cd".to_string()]);
}

#[test]
fn split_drops_empty_and_trims() {
    let pieces = split_nonempty_trimmed("  a \t\tb\t \t", '\t');
    assert_eq!(pieces, vec!["a".to_string(), "b".to_string(), "".to_string()]);
}

#[test]
fn related_queries_are_lines() {
    let q = parse_related_queries("rust verus\n\n  rust proofs  \nverified code\n");
    assert_eq!(q, vec!["rust verus".to_string(), "rust proofs".to_string(), "verified code".to_string()]);
}

#[test]
fn frame_adds_a_tab() {
    assert_eq!(frame_message("{\"a\":1}".to_string()), "{\"a\":1}\t");
}

#[test]
fn framed_stream_splits_back() {
    let msgs = vec![
        "{\"results\":[],\"summary\":\"Hi\",\"summary_context\":null}".to_string(),
        "{\"results\":[],\"summary\":\" there\",\"summary_context\":[1,2]}".to_string(),
    ];
    let mut body = String::new();
    for m in &msgs {
        body.push_str(&frame_message(m.clone()));
    }
    assert_eq!(split_frames(&body), msgs);
}

#[test]
fn split_frames_of_empty_body() {
    assert!(split_frames("").is_empty());
    assert!(split_frames("\t\t").is_empty());
}

#[test]
fn white_space_matches_char_is_whitespace() {
    for u in 0..=0x10FFFFu32 {
        if let Some(c) = char::from_u32(u) {
            assert_eq!(searchllama::text::is_white_space(c), c.is_whitespace(), "U+{:04X}", u);
        }
    }
    assert!(searchllama::text::is_white_space(' '));
    assert!(!searchllama::text::is_white_space('\u{200B}'));
}

#[test]
fn trim_removes_outer_white_space() {
    assert_eq!(searchllama::text::trim_str("  a b \u{3000}\n"), "a b");
    assert_eq!(searchllama::text::trim_str(" \t "), "");
    assert_eq!(searchllama::text::trim_str("x"), "x");
    assert_eq!(searchllama::text::trim_str(""), "");
}
