use vertex_ai_proxy::sse::LineBuffer;

#[test]
fn data_lines_are_found() {
    let mut buffer = LineBuffer::new();
    assert!(buffer.push_text("data: {\"a\"").is_empty());
    assert_eq!(buffer.push_text(":1}\n\ndata: x\r\nda"), vec!["{\"a\":1}", "x"]);
    assert_eq!(buffer.rest, "da");
    assert_eq!(buffer.push_text("ta:  y \n"), vec![" y"]);
    assert_eq!(buffer.rest, "");
}

#[test]
fn other_lines_are_skipped() {
    let mut buffer = LineBuffer::new();
    let found = buffer.push_text(
        ": comment\nevent: ping\ndata:tight\ndata: [DONE]\ndata:\ndata: \n data: z\nid: 1\n",
    );
    assert_eq!(found, vec!["z"]);
}

#[test]
fn an_unfinished_line_waits() {
    let mut buffer = LineBuffer::new();
    assert!(buffer.push_text("data: never finished").is_empty());
    assert_eq!(buffer.rest, "data: never finished");
}

#[test]
fn cuts_do_not_matter() {
    let stream = "data: one\n\ndata: zwö…lf\r\n: c\ndata: [DONE]\n\ndata: last\nrest";
    let mut whole = LineBuffer::new();
    let expected = whole.push_text(stream);
    assert_eq!(expected, vec!["one", "zwö…lf", "last"]);
    for (cut, _) in stream.char_indices() {
        let mut buffer = LineBuffer::new();
        let mut found = buffer.push_text(&stream[..cut]);
        found.extend(buffer.push_text(&stream[cut..]));
        assert_eq!(found, expected);
        assert_eq!(buffer.rest, whole.rest);
        let mut bytes = LineBuffer::new();
        let mut found = bytes.push_bytes(stream[..cut].as_bytes());
        found.extend(bytes.push_bytes(stream[cut..].as_bytes()));
        assert_eq!(found, expected);
        assert_eq!(bytes.rest, whole.rest);
    }
}

#[test]
fn bytes_that_are_not_text_are_replaced() {
    let mut buffer = LineBuffer::new();
    assert_eq!(buffer.push_bytes(b"data: a\xffb\n"), vec!["a\u{fffd}b"]);
    assert!(buffer.push_bytes(b"data: \xc3").is_empty());
    assert_eq!(buffer.push_bytes(b"\xa9\n"), vec!["\u{fffd}\u{fffd}"]);
    assert_eq!(buffer.push_bytes("data: é\n".as_bytes()), vec!["é"]);
    assert!(buffer.push_bytes(b"").is_empty());
}
