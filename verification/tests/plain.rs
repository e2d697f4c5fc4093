use mzmq::plain::{encode_welcome, parse_hello_from, PlainError, WELCOME_LEN};

fn hello_body(username: &[u8], password: &[u8]) -> heapless::Vec<u8, 64> {
    let name = b"HELLO";
    let mut v: heapless::Vec<u8, 64> = heapless::Vec::new();
    v.push(name.len() as u8).unwrap();
    v.extend_from_slice(name).unwrap();
    v.push(username.len() as u8).unwrap();
    v.extend_from_slice(username).unwrap();
    v.push(password.len() as u8).unwrap();
    v.extend_from_slice(password).unwrap();
    v
}

// Encode_welcome emits correct 10-byte frame
#[test]
fn encode_welcome_emits_correct_frame() {
    let mut buf = [0u8; 16];
    let n = encode_welcome(&mut buf).unwrap();
    assert_eq!(n, WELCOME_LEN);
    assert_eq!(buf[0], 0x04); // COMMAND flag
    assert_eq!(buf[1], 0x08); // body size = 8
    assert_eq!(buf[2], 0x07); // name_len = 7
    assert_eq!(&buf[3..10], b"WELCOME");
}

// Encode_welcome returns BufferTooSmall for undersized buffer
#[test]
fn encode_welcome_buffer_too_small() {
    let mut buf = [0u8; 5];
    assert_eq!(encode_welcome(&mut buf), Err(PlainError::BufferTooSmall));
}

// Parse_hello_from succeeds with valid username and password
#[test]
fn parse_hello_from_valid() {
    let body = hello_body(b"alice", b"secret");
    let (user, pass) = parse_hello_from(true, &body).unwrap();
    assert_eq!(user, b"alice");
    assert_eq!(pass, b"secret");
}

// Parse_hello_from accepts empty username and password
#[test]
fn parse_hello_from_empty_credentials() {
    let body = hello_body(b"", b"");
    let (user, pass) = parse_hello_from(true, &body).unwrap();
    assert_eq!(user, b"");
    assert_eq!(pass, b"");
}

// Parse_hello_from returns NotACommand when command flag is clear
#[test]
fn parse_hello_from_not_a_command() {
    let body = hello_body(b"u", b"p");
    assert_eq!(parse_hello_from(false, &body), Err(PlainError::NotACommand));
}

// Parse_hello_from returns PeerError for ERROR command
#[test]
fn parse_hello_from_error_command() {
    // body with name="ERROR"
    let mut body: heapless::Vec<u8, 16> = heapless::Vec::new();
    body.push(5).unwrap();
    body.extend_from_slice(b"ERROR").unwrap();
    body.extend_from_slice(b"\x00something").unwrap();
    assert_eq!(parse_hello_from(true, &body), Err(PlainError::PeerError));
}

// Parse_hello_from returns UnknownCommand for unexpected command name
#[test]
fn parse_hello_from_unknown_command() {
    let mut body: heapless::Vec<u8, 16> = heapless::Vec::new();
    body.push(5).unwrap();
    body.extend_from_slice(b"READY").unwrap();
    assert_eq!(
        parse_hello_from(true, &body),
        Err(PlainError::UnknownCommand)
    );
}

// Parse_hello_from returns MalformedHello when body is empty
#[test]
fn parse_hello_from_empty_body() {
    assert_eq!(parse_hello_from(true, &[]), Err(PlainError::MalformedHello));
}

// Parse_hello_from returns MalformedHello when body is truncated mid-username
#[test]
fn parse_hello_from_truncated_username() {
    // name_len=5, "HELLO", username_len=5, then only 2 bytes of username
    let mut body: heapless::Vec<u8, 16> = heapless::Vec::new();
    body.push(5).unwrap();
    body.extend_from_slice(b"HELLO").unwrap();
    body.push(5).unwrap(); // claim 5 bytes username
    body.extend_from_slice(b"ab").unwrap(); // only 2 bytes
    assert_eq!(
        parse_hello_from(true, &body),
        Err(PlainError::MalformedHello)
    );
}

// Parse_hello_from returns MalformedHello when password_len field is missing
#[test]
fn parse_hello_from_missing_password_len() {
    // valid username, but no password_len byte
    let mut body: heapless::Vec<u8, 16> = heapless::Vec::new();
    body.push(5).unwrap();
    body.extend_from_slice(b"HELLO").unwrap();
    body.push(0).unwrap(); // empty username
    // no password_len byte at all
    assert_eq!(
        parse_hello_from(true, &body),
        Err(PlainError::MalformedHello)
    );
}
