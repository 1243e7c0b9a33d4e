//! Cutting a stream into data blocks.

use chat_completions::error::ApiError;
use chat_completions::sse::SseFramer;

/// The blocks of a text.
fn blocks(text: &str) -> Vec<String> {
    SseFramer::new().feed_text(text)
}

#[test]
fn an_event_is_one_block() {
    assert_eq!(blocks("data: {\"a\":1}\n\ndata: b\n\n"), vec!["{\"a\":1}", "b"]);
}

#[test]
fn a_block_ends_with_a_blank_line() {
    let mut framer = SseFramer::new();
    assert!(framer.is_empty());
    assert!(framer.feed_text("data: a\n").is_empty());
    assert!(!framer.is_empty());
    assert!(framer.feed_text("data:b\n").is_empty());
    assert_eq!(framer.feed_text("\n\n\n"), vec!["a\nb"]);
    assert!(framer.is_empty());
}

#[test]
fn white_space_before_data_is_dropped() {
    assert_eq!(blocks("data:\t \u{3000}a b \n\n"), vec!["a b "]);
    assert_eq!(blocks("data:\ndata:x\n\n"), vec!["x"]);
    assert!(blocks("data:\n\n").is_empty());
}

#[test]
fn other_lines_are_ignored() {
    assert_eq!(
        blocks(": ping\nevent: message\ndata: a\nid: 7\n data: b\nDATA: c\n\n"),
        vec!["a"]
    );
}

#[test]
fn carriage_returns_before_newlines_make_no_difference() {
    assert_eq!(blocks("data: a\r\n\r\n"), vec!["a"]);
    assert_eq!(blocks("data: a\r\r\n\r\r\n"), vec!["a"]);
    assert_eq!(blocks("data: a\rb\n\n"), vec!["a\rb"]);
}

#[test]
fn nothing_is_read_behind_the_end() {
    let mut framer = SseFramer::new();
    assert_eq!(framer.feed_text("data: a\n\ndata:  [DONE] \n\ndata: b\n\ndata: c"), vec!["a"]);
    assert!(framer.is_done());
    assert!(framer.is_empty());
    // Nor is what comes later.
    assert!(framer.feed_text("\n\ndata: d\n\n").is_empty());
    assert!(framer.feed(b"data: e\n\n").unwrap().is_empty());
    assert!(framer.is_done());
    assert!(framer.is_empty());
    assert_eq!(framer.take_last_block(), None);
}

#[test]
fn the_end_is_a_block_of_its_own() {
    let mut framer = SseFramer::new();
    assert_eq!(framer.feed_text("data: x [DONE]\n\ndata: [DONE]\n"), vec!["x [DONE]"]);
    assert!(!framer.is_done());
    assert!(framer.feed_text("\r\n").is_empty());
    assert!(framer.is_done());
}

#[test]
fn chunks_may_be_cut_around_the_end() {
    let text = "data: one\n\ndata: [DONE]\n\ndata: late\n\n";
    for at in 0..=text.len() {
        let mut framer = SseFramer::new();
        let mut found = framer.feed_text(&text[..at]);
        found.extend(framer.feed_text(&text[at..]));
        assert_eq!(found, vec!["one"], "cut at {at}");
        assert!(framer.is_done() && framer.is_empty(), "cut at {at}");
    }
}

#[test]
fn chunks_may_be_cut_anywhere() {
    let text = ": hello\r\ndata: one\r\n\r\ndata: two\ndata: \u{e9}\u{1f980}\n\nrest";
    let whole = blocks(text);
    assert_eq!(whole, vec!["one", "two\n\u{e9}\u{1f980}"]);
    for at in (0..=text.len()).filter(|at| text.is_char_boundary(*at)) {
        let mut framer = SseFramer::new();
        let mut found = framer.feed_text(&text[..at]);
        found.extend(framer.feed_text(&text[at..]));
        assert_eq!(found, whole, "cut at {at}");
    }
}

#[test]
fn bytes_are_taken_as_text() {
    let mut framer = SseFramer::new();
    assert_eq!(framer.feed("data: \u{e9}\n\n".as_bytes()).unwrap(), vec!["\u{e9}"]);
    assert!(framer.is_empty());
}

#[test]
fn bytes_that_are_not_text_are_a_fault() {
    let mut framer = SseFramer::new();
    framer.feed(b"data: a\n").unwrap();
    match framer.feed(b"\n\xc3") {
        Err(ApiError::Stream(message)) => assert_eq!(
            message,
            "UTF-8 error: incomplete utf-8 byte sequence from index 1"
        ),
        other => panic!("expected a fault, got {other:?}"),
    }
    // Nothing was taken.
    assert_eq!(framer.feed(b"\n").unwrap(), vec!["a"]);
}

#[test]
fn the_last_block_needs_no_blank_line() {
    let mut framer = SseFramer::new();
    assert_eq!(framer.take_last_block(), None);
    framer.feed_text("data: a\ndata: b");
    assert_eq!(framer.take_last_block(), Some("a".to_owned()));
    assert_eq!(framer.take_last_block(), None);
    let mut framer = SseFramer::new();
    framer.feed_text("data: [DONE]\n");
    assert_eq!(framer.take_last_block(), None);
    assert!(framer.is_empty());
}
