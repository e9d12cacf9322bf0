use lsp_transport::codec::encode_frame;
use lsp_transport::envelope::decode_message;
use lsp_transport::envelope::ClassifyError;
use lsp_transport::envelope::DecodeError;
use lsp_transport::frame::split;
use lsp_transport::frame::reader_step;
use lsp_transport::frame::reader_step_limited;
use lsp_transport::frame::ReadStep;
use lsp_transport::frame::SplitError;

#[test]
fn test_encoding() {
    let expected = "Content-Length: 16\r\n\r\n{\"testing\":true}";

    let mut fields = serde_json::Map::new();
    fields.insert("testing".to_string(), serde_json::Value::Bool(true));
    let body = serde_json::to_string(&serde_json::Value::Object(fields)).unwrap();
    let actual = encode_frame(&body);

    assert_eq!(expected, actual)
}

#[test]
fn test_decoding() {
    let incoming_message = "Content-Length: 15\r\n\r\n{\"method\":\"hi\"}";
    let (method, content) = decode_message(incoming_message.to_string()).unwrap();
    let content_length = content.len();

    assert_eq!(15, content_length);

    assert_eq!("hi".to_string(), method);
}

#[test]
fn encoding_counts_bytes_not_chars() {
    // One character, two UTF-8 bytes.
    let framed = encode_frame("é");
    assert_eq!("Content-Length: 2\r\n\r\né", framed);
}

#[test]
fn encode_then_split_round_trips() {
    let body = "{\"method\":\"textDocument/didOpen\",\"params\":{}}";
    let framed = encode_frame(body);
    let frame = split(&framed).unwrap();
    assert_eq!(framed, frame);
    let (method, content) = decode_message(framed).unwrap();
    assert_eq!("textDocument/didOpen", method);
    assert_eq!(body, content);
}

#[test]
fn split_keeps_exactly_the_declared_body() {
    let data = "Content-Length: 5\r\n\r\nhelloContent-Length: 2\r\n\r\nhi".to_string();
    let frame = split(&data).unwrap();
    assert_eq!("Content-Length: 5\r\n\r\nhello", frame);
}

#[test]
fn split_header_name_is_case_insensitive() {
    let data = "content-length: 5\r\n\r\nhello".to_string();
    let frame = split(&data).unwrap();
    assert_eq!("content-length: 5\r\n\r\nhello", frame);
}

#[test]
fn split_skips_unknown_headers() {
    let data = "Content-Type: application/vscode-jsonrpc\r\nContent-Length: 2\r\n\r\nok".to_string();
    let frame = split(&data).unwrap();
    assert!(frame.ends_with("ok"));
}

#[test]
fn split_without_content_length_is_missing() {
    let data = "Content-Type: application/vscode-jsonrpc\r\n\r\nok".to_string();
    assert_eq!(Err(SplitError::MissingContentLength), split(&data));
}

#[test]
fn split_without_separator_finds_no_header_end() {
    let data = "Content-Length: 15".to_string();
    assert_eq!(Err(SplitError::HeaderEndNotFound), split(&data));
}

#[test]
fn split_negative_length_is_invalid() {
    let data = "Content-Length: -1\r\n\r\nhello".to_string();
    assert_eq!(Err(SplitError::InvalidContentLength), split(&data));
}

#[test]
fn split_non_numeric_length_is_invalid() {
    let data = "Content-Length: abc\r\n\r\nhello".to_string();
    assert_eq!(Err(SplitError::InvalidContentLength), split(&data));
}

#[test]
fn split_huge_length_is_invalid() {
    let data = "Content-Length: 99999999999999999999999999\r\n\r\nhello".to_string();
    assert_eq!(Err(SplitError::InvalidContentLength), split(&data));
}

#[test]
fn split_short_body_is_unexpected_eof() {
    let data = "Content-Length: 10\r\n\r\nhi".to_string();
    assert_eq!(Err(SplitError::UnexpectedEof), split(&data));
}

#[test]
fn empty_body_frames_but_does_not_classify() {
    let data = "Content-Length: 0\r\n\r\n".to_string();
    let frame = split(&data).unwrap();
    assert_eq!("Content-Length: 0\r\n\r\n", frame);
    assert_eq!(
        Err(DecodeError::Classify(ClassifyError::MalformedJson)),
        decode_message(frame)
    );
}

#[test]
fn reader_closes_cleanly_on_empty_buffer_at_eof() {
    let buf = String::new();
    match reader_step(&buf, true) {
        ReadStep::Closed => {},
        _ => panic!("expected a clean close"),
    }
}

#[test]
fn reader_fails_on_header_only_stream_end() {
    // The stream delivered a header announcing a body, then closed.
    let buf = "Content-Length: 15\r\n\r\n".to_string();
    match reader_step(&buf, true) {
        ReadStep::Failed { error } => assert_eq!(SplitError::UnexpectedEof, error),
        _ => panic!("expected a framing failure"),
    }
}

#[test]
fn reader_waits_for_more_while_stream_open() {
    let buf = "Content-Length: 15\r\n\r\n{\"meth".to_string();
    match reader_step(&buf, false) {
        ReadStep::NeedMore => {},
        _ => panic!("expected a request for more bytes"),
    }
}

#[test]
fn reader_preserves_bytes_past_the_frame() {
    let buf = "Content-Length: 2\r\n\r\nokContent-Le".to_string();
    match reader_step(&buf, false) {
        ReadStep::Ready { frame, rest } => {
            assert_eq!("Content-Length: 2\r\n\r\nok", frame);
            assert_eq!("Content-Le", rest);
        },
        _ => panic!("expected a complete frame"),
    }
}

#[test]
fn reader_refuses_oversized_headers() {
    let buf = "X-Filler: aaaaaaaaaaaaaaaaaaaaaaaaaaaaaaaa".to_string();
    match reader_step_limited(&buf, false, 16) {
        ReadStep::Failed { error } => assert_eq!(SplitError::HeaderTooLarge, error),
        _ => panic!("expected the oversized header to be refused"),
    }
    // Under the bound the same buffer just waits for more bytes.
    match reader_step_limited(&buf, false, 4096) {
        ReadStep::NeedMore => {},
        _ => panic!("expected a request for more bytes"),
    }
}

#[test]
fn reader_with_bound_still_frames() {
    let buf = "Content-Length: 2\r\n\r\nok".to_string();
    match reader_step_limited(&buf, false, 8) {
        ReadStep::Ready { frame, rest } => {
            assert_eq!("Content-Length: 2\r\n\r\nok", frame);
            assert_eq!("", rest);
        },
        _ => panic!("expected a complete frame"),
    }
}
