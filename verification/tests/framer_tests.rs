use wvprs::framer::parse_sip_message;

fn keepalive_message() -> Vec<u8> {
    b"MESSAGE sip:s@d SIP/2.0\r\nCall-ID: a\r\nContent-Length: 5\r\n\r\nhello".to_vec()
}

#[test]
fn framer_emits_whole_message_and_rest() {
    let mut buffer = keepalive_message();
    buffer.extend_from_slice(b"REGIST");
    let (msg, rest) = parse_sip_message(&buffer).unwrap();
    assert_eq!(msg, keepalive_message());
    assert_eq!(rest, b"REGIST".to_vec());
}

#[test]
fn framer_waits_for_missing_body_bytes() {
    let whole = keepalive_message();
    for cut in 1..whole.len() {
        assert!(parse_sip_message(&whole[..cut]).is_none());
    }
}

#[test]
fn framer_handles_content_length_zero_with_one_tail() {
    let msg = b"REGISTER sip:s@d SIP/2.0\r\nContent-Length: 0\r\n\r\n".to_vec();
    let (out, rest) = parse_sip_message(&msg).unwrap();
    assert_eq!(out, msg);
    assert!(rest.is_empty());
}

#[test]
fn framer_two_messages_byte_at_a_time() {
    let m1 = b"REGISTER sip:s@d SIP/2.0\r\nContent-Length: 0\r\n\r\n".to_vec();
    let m2 = keepalive_message();
    let mut stream = m1.clone();
    stream.extend_from_slice(&m2);
    let mut buffer: Vec<u8> = Vec::new();
    let mut emitted: Vec<Vec<u8>> = Vec::new();
    for b in stream {
        buffer.push(b);
        while let Some((msg, rest)) = parse_sip_message(&buffer) {
            emitted.push(msg);
            buffer = rest;
        }
    }
    assert_eq!(emitted, vec![m1, m2]);
    assert!(buffer.is_empty());
}

#[test]
fn framer_treats_malformed_length_as_zero() {
    let msg = b"MESSAGE sip:s@d SIP/2.0\r\nContent-Length: zz\r\n\r\nrest".to_vec();
    let (out, rest) = parse_sip_message(&msg).unwrap();
    assert_eq!(out, b"MESSAGE sip:s@d SIP/2.0\r\nContent-Length: zz\r\n\r\n".to_vec());
    assert_eq!(rest, b"rest".to_vec());
}

#[test]
fn framer_discards_bare_crlfcrlf_keepalive() {
    let (msg, rest) = parse_sip_message(b"\r\n\r\n").unwrap();
    assert!(msg.is_empty());
    assert!(rest.is_empty());
}
