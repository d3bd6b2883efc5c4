use lspc::msg::{frame_message, parse_frame};

#[test]
fn frame_has_length_header_and_body() {
    let body: Vec<u8> = b"{\"id\":1}".to_vec();
    let out = frame_message(&body);
    assert_eq!(out, b"Content-Length: 8\r\n\r\n{\"id\":1}".to_vec());
}

#[test]
fn frame_of_empty_body() {
    let out = frame_message(&Vec::new());
    assert_eq!(out, b"Content-Length: 0\r\n\r\n".to_vec());
}

#[test]
fn parse_inverts_frame_and_leaves_the_rest() {
    let body: Vec<u8> = b"{\"jsonrpc\":\"2.0\"}".to_vec();
    let mut wire = frame_message(&body);
    let next = frame_message(&b"{}".to_vec());
    wire.extend_from_slice(&next);
    let (got, used) = parse_frame(&wire).expect("a whole frame parses");
    assert_eq!(got, body);
    assert_eq!(&wire[used..], &next[..]);
    let (got2, used2) = parse_frame(&next).expect("the rest is the next frame");
    assert_eq!(got2, b"{}".to_vec());
    assert_eq!(used2, next.len());
}

#[test]
fn short_or_malformed_input_does_not_parse() {
    assert!(parse_frame(&b"Content-Length: ".to_vec()).is_none());
    assert!(parse_frame(&b"Content-Size: 2\r\n\r\n{}pad".to_vec()).is_none());
    assert!(parse_frame(&b"Content-Length: \r\n\r\n{}pad".to_vec()).is_none());
    // truncated body: fewer bytes than the header announces
    assert!(parse_frame(&b"Content-Length: 9\r\n\r\n{}".to_vec()).is_none());
    // a length with a leading zero is not the canonical framing
    assert!(parse_frame(&b"Content-Length: 02\r\n\r\n{}x".to_vec()).is_none());
}
