use cliptool::assembler::{consume_stream_chunk, flush_pending_line};

fn feed(chunks: &[&[u8]]) -> (Vec<String>, Vec<u8>, Vec<u8>) {
    let mut raw: Vec<u8> = Vec::new();
    let mut pending: Vec<u8> = Vec::new();
    let mut lines: Vec<String> = Vec::new();
    for chunk in chunks {
        lines.extend(consume_stream_chunk(&mut raw, &mut pending, chunk));
    }
    (lines, pending, raw)
}

fn feed_and_flush(chunks: &[&[u8]]) -> Vec<String> {
    let mut raw: Vec<u8> = Vec::new();
    let mut pending: Vec<u8> = Vec::new();
    let mut lines: Vec<String> = Vec::new();
    for chunk in chunks {
        lines.extend(consume_stream_chunk(&mut raw, &mut pending, chunk));
    }
    if let Some(tail) = flush_pending_line(&mut pending) {
        lines.push(tail);
    }
    lines
}

#[test]
fn whole_chunk_splits_lines() {
    let (lines, pending, raw) = feed(&[b"one\ntwo\nthree"]);
    assert_eq!(lines, vec!["one".to_string(), "two".to_string()]);
    assert_eq!(pending, b"three".to_vec());
    assert_eq!(raw, b"one\ntwo\nthree".to_vec());
}

#[test]
fn split_at_arbitrary_boundaries_matches_whole() {
    let input: &[u8] = b"alpha\nbeta\rgamma\r\ndelta";
    let whole = feed_and_flush(&[input]);
    for cut in 0..=input.len() {
        let (a, b) = input.split_at(cut);
        assert_eq!(feed_and_flush(&[a, b]), whole, "split at {cut}");
    }
}

#[test]
fn split_inside_multibyte_sequence_matches_whole() {
    let text = "caf\u{e9}\nr\u{e9}sum\u{e9}";
    let bytes = text.as_bytes();
    let whole = feed_and_flush(&[bytes]);
    assert_eq!(whole, vec!["caf\u{e9}".to_string(), "r\u{e9}sum\u{e9}".to_string()]);
    for cut in 0..=bytes.len() {
        let (a, b) = bytes.split_at(cut);
        assert_eq!(feed_and_flush(&[a, b]), whole, "split at {cut}");
    }
}

#[test]
fn split_exactly_on_delimiter_matches_whole() {
    let whole = feed_and_flush(&[b"ab\ncd"]);
    assert_eq!(feed_and_flush(&[b"ab\n", b"cd"]), whole);
    assert_eq!(feed_and_flush(&[b"ab", b"\ncd"]), whole);
}

#[test]
fn carriage_return_progress_keeps_pending_small() {
    let (lines, pending, _) = feed(&[b"10%\r20%\r30%\r", b"40%"]);
    assert_eq!(
        lines,
        vec!["10%".to_string(), "20%".to_string(), "30%".to_string()],
    );
    assert_eq!(pending, b"40%".to_vec(), "pending holds only bytes since the last delimiter");
}

#[test]
fn repeated_carriage_returns_leave_empty_pending() {
    let (lines, pending, _) = feed(&[b"x\r\r\r\r"]);
    assert_eq!(lines, vec!["x".to_string()]);
    assert!(pending.is_empty());
}

#[test]
fn flush_empty_pending_is_none() {
    let mut pending: Vec<u8> = Vec::new();
    assert_eq!(flush_pending_line(&mut pending), None);
}

#[test]
fn flush_delimiter_only_pending_is_none() {
    let mut pending: Vec<u8> = vec![b'\n', b'\r'];
    assert_eq!(flush_pending_line(&mut pending), None);
    assert!(pending.is_empty());
}

#[test]
fn flush_decodes_invalid_utf8_lossily() {
    let mut pending: Vec<u8> = vec![0xff, 0xfe];
    let line = flush_pending_line(&mut pending).expect("line");
    assert_eq!(line, "\u{fffd}\u{fffd}");
    assert!(pending.is_empty());
}

#[test]
fn blank_lines_are_not_emitted() {
    let (lines, _, _) = feed(&[b"\n\n\nreal\n\n"]);
    assert_eq!(lines, vec!["real".to_string()]);
}
