use mini_rag::errors::Error;
use mini_rag::protocol::{decode_frame, encode_frame, frame_response};

#[test]
fn frame_prefix_is_big_endian_byte_length() {
    let framed = frame_response("abc").unwrap();
    assert_eq!(&framed[..4], &[0, 0, 0, 4]);
    assert_eq!(&framed[4..], "abc\n".as_bytes());
}

#[test]
fn ascii_text_round_trips() {
    let framed = frame_response("Success").unwrap();
    let payload = decode_frame(&framed).unwrap();
    assert_eq!(String::from_utf8(payload).unwrap(), "Success\n");
}

#[test]
fn empty_text_round_trips() {
    let framed = frame_response("").unwrap();
    assert_eq!(&framed[..4], &[0, 0, 0, 1]);
    let payload = decode_frame(&framed).unwrap();
    assert_eq!(String::from_utf8(payload).unwrap(), "\n");
}

#[test]
fn multibyte_text_round_trips() {
    let text = "héllo wörld — 日本語";
    let framed = frame_response(text).unwrap();
    // the prefix counts bytes, not characters
    let expected_len = format!("{}\n", text).len() as u32;
    assert_eq!(&framed[..4], &expected_len.to_be_bytes());
    let payload = decode_frame(&framed).unwrap();
    assert_eq!(String::from_utf8(payload).unwrap(), format!("{}\n", text));
}

#[test]
fn large_payload_prefix_uses_all_bytes() {
    let payload: Vec<u8> = vec![7u8; 300];
    let framed = encode_frame(&payload).unwrap();
    assert_eq!(&framed[..4], &[0, 0, 1, 44]);
    assert_eq!(decode_frame(&framed).unwrap(), payload);
}

#[test]
fn truncated_buffers_are_framing_errors() {
    assert_eq!(decode_frame(&vec![0, 0]), Err(Error::ProtocolFrame));
    // prefix promises 5 bytes, only 2 follow
    assert_eq!(
        decode_frame(&vec![0, 0, 0, 5, 1, 2]),
        Err(Error::ProtocolFrame)
    );
}

#[test]
fn decode_takes_exactly_the_promised_bytes() {
    let framed = vec![0, 0, 0, 2, 10, 20, 30, 40];
    assert_eq!(decode_frame(&framed).unwrap(), vec![10, 20]);
}
