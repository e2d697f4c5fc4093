use mzmq::connection::{ConnError, Connection, State};
use mzmq::greeting::{
    encode_greeting, encode_plain_greeting, GreetingError, GREETING_LEN, GREETING_PARTIAL_LEN,
};
use mzmq::null::{NullError, READY_LEN};
use mzmq::plain::{Authenticator, PlainError, WELCOME_LEN};

/// 64-byte ZMTP 3.1 NULL greeting as a SUB peer would send it.
fn sub_greeting() -> [u8; 64] {
    let mut g = [0u8; 64];
    g[0] = 0xFF;
    g[9] = 0x7F;
    g[10] = 0x03;
    g[11] = 0x01;
    g[12] = b'N';
    g[13] = b'U';
    g[14] = b'L';
    g[15] = b'L';
    g
}

/// 27-byte READY command frame with `Socket-Type = SUB`.
fn sub_ready() -> [u8; 27] {
    [
        0x04, 0x19, 0x05, 0x52, 0x45, 0x41, 0x44, 0x59, 0x0B, 0x53, 0x6F, 0x63, 0x6B, 0x65, 0x74,
        0x2D, 0x54, 0x79, 0x70, 0x65, 0x00, 0x00, 0x00, 0x03, 0x53, 0x55, 0x42,
    ]
}

// PUSH READY frame (should be rejected)
fn push_ready() -> [u8; 28] {
    [
        0x04, 0x1A, 0x05, 0x52, 0x45, 0x41, 0x44, 0x59, 0x0B, 0x53, 0x6F, 0x63, 0x6B, 0x65,
        0x74, 0x2D, 0x54, 0x79, 0x70, 0x65, 0x00, 0x00, 0x00, 0x04, 0x50, 0x55, 0x53, 0x48,
    ]
}

// Perform a full handshake
fn do_handshake(conn: &mut Connection<8, 32, 512>) {
    let mut out = [0u8; 64];
    conn.write_greeting(&mut out).unwrap();
    conn.feed(&sub_greeting()).unwrap();
    conn.write_greeting_rest(&mut out).unwrap();
    let mut ready_out = [0u8; 32];
    conn.write_ready(&mut ready_out).unwrap();
    conn.feed(&sub_ready()).unwrap();
}

// Build a ZMTP 3.1 SUBSCRIBE command frame
fn build_subscribe_frame(prefix: &[u8]) -> heapless::Vec<u8, 64> {
    let name = b"SUBSCRIBE";
    let body_len = 1 + name.len() + prefix.len();
    let mut frame: heapless::Vec<u8, 64> = heapless::Vec::new();
    frame.push(0x04).unwrap();
    frame.push(body_len as u8).unwrap();
    frame.push(name.len() as u8).unwrap();
    frame.extend_from_slice(name).unwrap();
    frame.extend_from_slice(prefix).unwrap();
    frame
}

// Build a ZMTP 3.0 subscribe message frame
fn build_zmtp30_subscribe(prefix: &[u8]) -> heapless::Vec<u8, 64> {
    let body_len = 1 + prefix.len();
    let mut frame: heapless::Vec<u8, 64> = heapless::Vec::new();
    frame.push(0x00).unwrap();
    frame.push(body_len as u8).unwrap();
    frame.push(0x01).unwrap();
    frame.extend_from_slice(prefix).unwrap();
    frame
}

// Build a ZMTP 3.0 cancel message frame
fn build_zmtp30_cancel(prefix: &[u8]) -> heapless::Vec<u8, 64> {
    let body_len = 1 + prefix.len();
    let mut frame: heapless::Vec<u8, 64> = heapless::Vec::new();
    frame.push(0x00).unwrap();
    frame.push(body_len as u8).unwrap();
    frame.push(0x00).unwrap();
    frame.extend_from_slice(prefix).unwrap();
    frame
}

// Initial state is Greeting
#[test]
fn connection_initial_state_is_greeting() {
    let conn: Connection<8, 32, 512> = Connection::new();
    assert_eq!(conn.state(), &State::Greeting);
}

// Write_greeting writes 11 bytes (partial greeting)
#[test]
fn connection_write_greeting_succeeds() {
    let mut conn: Connection<8, 32, 512> = Connection::new();
    let mut out = [0u8; 64];
    let n = conn.write_greeting(&mut out).unwrap();
    assert_eq!(n, GREETING_PARTIAL_LEN);
    assert_eq!(out[0], 0xFF);
    assert_eq!(out[9], 0x7F);
    assert_eq!(out[10], 0x03);
    // The rest of the greeting should not have been written
    assert!(out[11..].iter().all(|&b| b == 0));
}

// Calling write_greeting twice returns WrongState
#[test]
fn connection_write_greeting_wrong_state_fails() {
    let mut conn: Connection<8, 32, 512> = Connection::new();
    let mut out = [0u8; 64];
    conn.write_greeting(&mut out).unwrap();
    let result = conn.write_greeting(&mut out);
    assert_eq!(result, Err(ConnError::WrongState));
}

// Feed(SUB_GREETING) after write_greeting + write_greeting_rest advances to Ready
#[test]
fn connection_feed_peer_greeting_advances_to_ready() {
    let mut conn: Connection<8, 32, 512> = Connection::new();
    let mut out = [0u8; 64];
    conn.write_greeting(&mut out).unwrap();
    conn.feed(&sub_greeting()).unwrap();
    assert_eq!(conn.state(), &State::Greeting); // still waiting for our greeting rest
    conn.write_greeting_rest(&mut out).unwrap();
    assert_eq!(conn.state(), &State::Ready);
}

// Write_ready after greeting returns Ok(27)
#[test]
fn connection_write_ready_after_greeting_succeeds() {
    let mut conn: Connection<8, 32, 512> = Connection::new();
    let mut out = [0u8; 64];
    conn.write_greeting(&mut out).unwrap();
    conn.feed(&sub_greeting()).unwrap();
    conn.write_greeting_rest(&mut out).unwrap();
    let mut ready_out = [0u8; 32];
    let n = conn.write_ready(&mut ready_out).unwrap();
    assert_eq!(n, READY_LEN);
}

// Full handshake → state == Established
#[test]
fn feed_sub_ready_advances_to_established() {
    let mut conn: Connection<8, 32, 512> = Connection::new();
    do_handshake(&mut conn);
    assert_eq!(conn.state(), &State::Established);
}

// Feed a PUSH READY → WrongSocketType error, state == Failed
#[test]
fn feed_push_ready_returns_wrong_socket_type() {
    let mut conn: Connection<8, 32, 512> = Connection::new();
    let mut out = [0u8; 64];
    conn.write_greeting(&mut out).unwrap();
    conn.feed(&sub_greeting()).unwrap();
    conn.write_greeting_rest(&mut out).unwrap();
    let mut ready_out = [0u8; 32];
    conn.write_ready(&mut ready_out).unwrap();
    let result = conn.feed(&push_ready());
    assert_eq!(
        result,
        Err(ConnError::NullError(NullError::WrongSocketType))
    );
    assert_eq!(conn.state(), &State::Failed);
}

// Publish without subscription returns Ok(0)
#[test]
fn publish_without_subscription_returns_zero() {
    let mut conn: Connection<8, 32, 512> = Connection::new();
    do_handshake(&mut conn);
    let mut buf = [0u8; 256];
    let n = conn.publish(b"foo", b"bar", &mut buf).unwrap();
    assert_eq!(n, 0);
}

// Publish after SUBSCRIBE command writes wire bytes
#[test]
fn publish_with_matching_subscription_writes_frames() {
    let mut conn: Connection<8, 32, 512> = Connection::new();
    do_handshake(&mut conn);

    let sub_frame = build_subscribe_frame(b"foo");
    conn.feed(sub_frame.as_slice()).unwrap();

    let mut buf = [0u8; 256];
    let n = conn.publish(b"foo", b"bar", &mut buf).unwrap();
    assert!(n > 0);

    // Verify wire format
    assert_eq!(buf[0], 0x01); // MORE flag
    assert_eq!(buf[1], 0x03); // topic length = 3
    assert_eq!(&buf[2..5], b"foo");
    assert_eq!(buf[5], 0x00); // no MORE flag
    assert_eq!(buf[6], 0x03); // payload length = 3
    assert_eq!(&buf[7..10], b"bar");
    assert_eq!(n, 10);
}

// Publish filtered by prefix
#[test]
fn publish_filtered_by_prefix() {
    let mut conn: Connection<8, 32, 512> = Connection::new();
    do_handshake(&mut conn);

    let sub_frame = build_subscribe_frame(b"foo");
    conn.feed(sub_frame.as_slice()).unwrap();

    let mut buf = [0u8; 256];
    let n = conn.publish(b"bar", b"payload", &mut buf).unwrap();
    assert_eq!(n, 0);

    let n = conn.publish(b"fooX", b"payload", &mut buf).unwrap();
    assert!(n > 0);
}

// ZMTP 3.0 subscribe message accepted
#[test]
fn zmtp_30_subscribe_message_accepted() {
    let mut conn: Connection<8, 32, 512> = Connection::new();
    do_handshake(&mut conn);

    let msg_frame = build_zmtp30_subscribe(b"foo");
    conn.feed(msg_frame.as_slice()).unwrap();

    let mut buf = [0u8; 256];
    let n = conn.publish(b"foo", b"data", &mut buf).unwrap();
    assert!(n > 0);
}

// ZMTP 3.0 cancel removes subscription
#[test]
fn zmtp_30_cancel_message_accepted() {
    let mut conn: Connection<8, 32, 512> = Connection::new();
    do_handshake(&mut conn);

    let sub_frame = build_zmtp30_subscribe(b"foo");
    conn.feed(sub_frame.as_slice()).unwrap();

    let mut buf = [0u8; 256];
    let n = conn.publish(b"foo", b"x", &mut buf).unwrap();
    assert!(n > 0);

    let cancel_frame = build_zmtp30_cancel(b"foo");
    conn.feed(cancel_frame.as_slice()).unwrap();

    let n = conn.publish(b"foo", b"x", &mut buf).unwrap();
    assert_eq!(n, 0);
}

// Publish in wrong state (Greeting) returns WrongState
#[test]
fn connection_publish_in_wrong_state_fails() {
    let mut conn: Connection<8, 32, 512> = Connection::new();
    let mut buf = [0u8; 256];
    let result = conn.publish(b"foo", b"bar", &mut buf);
    assert_eq!(result, Err(ConnError::WrongState));
}

// PING command queues a PONG with the echoed context
#[test]
fn connection_ping_command_queues_pong_with_context() {
    let mut conn: Connection<8, 32, 512> = Connection::new();
    do_handshake(&mut conn);

    // PING: flags=0x04, body-size=0x09, name-size=0x04, "PING", ttl=0x00,0x00, ctx=b"hi"
    let ping: &[u8] = &[
        0x04, 0x09, 0x04, b'P', b'I', b'N', b'G', 0x00, 0x00, b'h', b'i',
    ];
    conn.feed(ping).unwrap();

    let mut pong_buf = [0u8; 23];
    let n = conn
        .write_pong(&mut pong_buf)
        .unwrap()
        .expect("pong pending");
    // body = name-size(1) + "PONG"(4) + "hi"(2) = 7
    assert_eq!(n, 9);
    assert_eq!(pong_buf[0], 0x04); // COMMAND
    assert_eq!(pong_buf[1], 7); // body len
    assert_eq!(pong_buf[2], 4); // name-size "PONG"
    assert_eq!(&pong_buf[3..7], b"PONG");
    assert_eq!(&pong_buf[7..9], b"hi");
    // second call returns None
    assert_eq!(conn.write_pong(&mut pong_buf).unwrap(), None);
}

// Write_error after Failed state returns a valid ERROR frame
#[test]
fn connection_write_error_returns_error_frame() {
    let mut conn: Connection<8, 32, 512> = Connection::new();
    let mut out = [0u8; 64];
    conn.write_greeting(&mut out).unwrap();
    conn.feed(&sub_greeting()).unwrap();
    conn.write_greeting_rest(&mut out).unwrap();
    let mut ready_out = [0u8; 32];
    conn.write_ready(&mut ready_out).unwrap();
    let _ = conn.feed(&push_ready());
    assert_eq!(conn.state(), &State::Failed);

    let mut err_out = [0u8; 64];
    let n = conn.write_error(&mut err_out).unwrap();
    assert!(n > 0);
    assert_eq!(err_out[0], 0x04);
    assert_eq!(&err_out[3..8], b"ERROR");
}

// Peer_version returns (3, 1) after handshake with 3.1 peer
#[test]
fn connection_peer_version_returns_3_1() {
    let mut conn: Connection<8, 32, 512> = Connection::new();
    assert_eq!(conn.peer_version(), (3, 0)); // default before handshake

    let mut out = [0u8; 64];
    conn.write_greeting(&mut out).unwrap();
    conn.feed(&sub_greeting()).unwrap(); // sub_greeting is 3.1
    assert_eq!(conn.peer_version(), (3, 1));
}

// Peer_version returns (3, 0) after handshake with 3.0 peer
#[test]
fn peer_version_returns_3_0() {
    let mut conn: Connection<8, 32, 512> = Connection::new();
    let mut out = [0u8; 64];
    conn.write_greeting(&mut out).unwrap();

    // Build a 3.0 greeting (version_minor = 0x00)
    let mut greeting_30 = sub_greeting();
    greeting_30[11] = 0x00; // ZMTP 3.0
    conn.feed(&greeting_30).unwrap();

    assert_eq!(conn.peer_version(), (3, 0));
}

// PING from 3.0 peer is ignored (no pending_pong)
#[test]
fn ping_from_30_peer_ignored() {
    let mut conn: Connection<8, 32, 512> = Connection::new();
    let mut out = [0u8; 64];
    conn.write_greeting(&mut out).unwrap();

    // Feed 3.0 greeting
    let mut greeting_30 = sub_greeting();
    greeting_30[11] = 0x00;
    conn.feed(&greeting_30).unwrap();
    conn.write_greeting_rest(&mut out).unwrap();

    // Complete handshake
    let mut ready_out = [0u8; 32];
    conn.write_ready(&mut ready_out).unwrap();
    conn.feed(&sub_ready()).unwrap();
    assert_eq!(conn.state(), &State::Established);

    // Send PING - should be ignored for 3.0 peer
    let ping: &[u8] = &[
        0x04, 0x09, 0x04, b'P', b'I', b'N', b'G', 0x00, 0x00, b'h', b'i',
    ];
    conn.feed(ping).unwrap();

    // No PONG should be pending
    let mut pong_buf = [0u8; 23];
    assert_eq!(conn.write_pong(&mut pong_buf).unwrap(), None);
}

// PING from 3.1 peer queues PONG
#[test]
fn ping_from_31_peer_queues_pong() {
    let mut conn: Connection<8, 32, 512> = Connection::new();
    do_handshake(&mut conn);
    assert_eq!(conn.peer_version(), (3, 1));

    let ping: &[u8] = &[
        0x04, 0x09, 0x04, b'P', b'I', b'N', b'G', 0x00, 0x00, b'h', b'i',
    ];
    conn.feed(ping).unwrap();

    let mut pong_buf = [0u8; 23];
    assert!(conn.write_pong(&mut pong_buf).unwrap().is_some());
}

// Write_greeting_rest writes remaining 53 bytes
#[test]
fn write_greeting_rest_succeeds() {
    let mut conn: Connection<8, 32, 512> = Connection::new();
    let mut out = [0u8; 64];
    conn.write_greeting(&mut out).unwrap();
    let n = conn.write_greeting_rest(&mut out).unwrap();
    assert_eq!(n, GREETING_LEN - GREETING_PARTIAL_LEN);
    assert_eq!(out[0], 0x01); // version minor
    assert_eq!(&out[1..5], b"NULL");
    assert!(out[5..].iter().all(|&b| b == 0));
}

// Calling write_greeting_rest before write_greeting fails
#[test]
fn write_greeting_rest_before_write_greeting_fails() {
    let mut conn: Connection<8, 32, 512> = Connection::new();
    let mut out = [0u8; 64];
    let result = conn.write_greeting_rest(&mut out);
    assert_eq!(result, Err(ConnError::WrongState));
}

// Calling write_greeting twice fails
#[test]
fn connection_write_greeting_twice_fails() {
    let mut conn: Connection<8, 32, 512> = Connection::new();
    let mut out = [0u8; 64];
    conn.write_greeting(&mut out).unwrap();
    let result = conn.write_greeting(&mut out);
    assert_eq!(result, Err(ConnError::WrongState));
}

// Calling write_greeting_rest twice fails
#[test]
fn write_greeting_rest_twice_fails() {
    let mut conn: Connection<8, 32, 512> = Connection::new();
    let mut out = [0u8; 64];
    conn.write_greeting(&mut out).unwrap();
    conn.write_greeting_rest(&mut out).unwrap();
    let result = conn.write_greeting_rest(&mut out);
    assert_eq!(result, Err(ConnError::WrongState));
}

// Greeting_rest_pending is true after receiving peer partial
#[test]
fn greeting_rest_pending_after_peer_partial() {
    let mut conn: Connection<8, 32, 512> = Connection::new();
    let mut out = [0u8; 64];
    conn.write_greeting(&mut out).unwrap();
    assert!(!conn.greeting_rest_pending());

    let partial = &sub_greeting()[..GREETING_PARTIAL_LEN];
    conn.feed(partial).unwrap();
    assert!(conn.greeting_rest_pending());

    conn.write_greeting_rest(&mut out).unwrap();
    assert!(!conn.greeting_rest_pending());
}

// Invalid signature in partial greeting fails fast
#[test]
fn feed_invalid_signature_in_partial_greeting_fails_fast() {
    let mut conn: Connection<8, 32, 512> = Connection::new();
    let mut out = [0u8; 64];
    conn.write_greeting(&mut out).unwrap();

    let mut partial = [0u8; GREETING_PARTIAL_LEN];
    partial[0] = 0xFE; // bad SIG0
    partial[9] = 0x7F;
    partial[10] = 0x03;
    let result = conn.feed(&partial);
    assert_eq!(
        result,
        Err(ConnError::GreetingError(GreetingError::InvalidSignature)),
    );
}

// Bad version major in partial greeting fails fast, split across two feeds
#[test]
fn feed_unsupported_version_major_in_partial_greeting_fails_fast() {
    let mut conn: Connection<8, 32, 512> = Connection::new();
    let mut out = [0u8; 64];
    conn.write_greeting(&mut out).unwrap();

    let mut g = [0u8; 64];
    g[0] = 0xFF;
    g[9] = 0x7F;
    g[10] = 0x02; // ZMTP 2.x

    conn.feed(&g[..5]).unwrap(); // before boundary — no check yet
    let result = conn.feed(&g[5..11]); // crosses boundary — check fires
    assert_eq!(
        result,
        Err(ConnError::GreetingError(
            GreetingError::UnsupportedVersionMajor
        )),
    );
}

// Partial check fires exactly once; valid greeting split at the boundary
#[test]
fn feed_partial_check_fires_only_once_across_multiple_calls() {
    let mut conn: Connection<8, 32, 512> = Connection::new();
    let mut out = [0u8; 64];
    conn.write_greeting(&mut out).unwrap();

    let g = sub_greeting();
    conn.feed(&g[..GREETING_PARTIAL_LEN]).unwrap();
    conn.feed(&g[GREETING_PARTIAL_LEN..]).unwrap();
    conn.write_greeting_rest(&mut out).unwrap();
    assert_eq!(conn.state(), &State::Ready);
}

// Write_greeting + write_greeting_rest produces the canonical 64-byte greeting
#[test]
fn write_greeting_concat_matches_encode_greeting() {
    let mut conn: Connection<8, 32, 512> = Connection::new();
    let mut combined = [0u8; GREETING_LEN];
    let n1 = conn.write_greeting(&mut combined).unwrap();
    let n2 = conn.write_greeting_rest(&mut combined[n1..]).unwrap();
    assert_eq!(n1 + n2, GREETING_LEN);

    let mut expected = [0u8; GREETING_LEN];
    encode_greeting(&mut expected);
    assert_eq!(combined, expected);
}

// ---------------------------------------------------------------------------
// PLAIN mechanism tests
// ---------------------------------------------------------------------------

struct AcceptAll;
impl Authenticator for AcceptAll {
    fn authenticate(&self, _username: &[u8], _password: &[u8]) -> bool {
        true
    }
}

struct RejectAll;
impl Authenticator for RejectAll {
    fn authenticate(&self, _username: &[u8], _password: &[u8]) -> bool {
        false
    }
}

struct RequireCredentials {
    user: &'static [u8],
    pass: &'static [u8],
}
impl Authenticator for RequireCredentials {
    fn authenticate(&self, username: &[u8], password: &[u8]) -> bool {
        username == self.user && password == self.pass
    }
}

fn plain_client_greeting() -> [u8; GREETING_LEN] {
    let mut g = [0u8; GREETING_LEN];
    g[0] = 0xFF;
    g[9] = 0x7F;
    g[10] = 0x03;
    g[11] = 0x01;
    g[12] = b'P';
    g[13] = b'L';
    g[14] = b'A';
    g[15] = b'I';
    g[16] = b'N';
    // as_server = 0 (client role)
    g
}

fn hello_frame(username: &[u8], password: &[u8]) -> heapless::Vec<u8, 64> {
    let body_len: u8 = (1 + 5 + 1 + username.len() + 1 + password.len()) as u8;
    let mut f: heapless::Vec<u8, 64> = heapless::Vec::new();
    f.push(0x04).unwrap(); // COMMAND flag
    f.push(body_len).unwrap(); // body size
    f.push(5).unwrap(); // name_len
    f.extend_from_slice(b"HELLO").unwrap();
    f.push(username.len() as u8).unwrap();
    f.extend_from_slice(username).unwrap();
    f.push(password.len() as u8).unwrap();
    f.extend_from_slice(password).unwrap();
    f
}

fn plain_sub_ready() -> [u8; 27] {
    sub_ready()
}

fn do_plain_handshake(conn: &mut Connection<8, 32, 512, AcceptAll>) {
    let mut out = [0u8; 64];
    conn.write_greeting(&mut out).unwrap();
    conn.feed(&plain_client_greeting()).unwrap();
    conn.write_greeting_rest(&mut out).unwrap();
    let hello = hello_frame(b"user", b"pass");
    conn.feed(hello.as_slice()).unwrap();
    let mut welcome_buf = [0u8; 16];
    conn.write_welcome(&mut welcome_buf).unwrap();
    let mut ready_out = [0u8; 32];
    conn.write_ready(&mut ready_out).unwrap();
    conn.feed(&plain_sub_ready()).unwrap();
}

// Write_greeting_rest for PLAIN encodes "PLAIN" and as_server=1
#[test]
fn plain_write_greeting_rest_uses_plain_greeting() {
    let mut conn: Connection<8, 32, 512, AcceptAll> = Connection::new_plain(AcceptAll);
    let mut combined = [0u8; GREETING_LEN];
    let n1 = conn.write_greeting(&mut combined).unwrap();
    let n2 = conn.write_greeting_rest(&mut combined[n1..]).unwrap();
    assert_eq!(n1 + n2, GREETING_LEN);

    let mut expected = [0u8; GREETING_LEN];
    encode_plain_greeting(&mut expected);
    assert_eq!(combined, expected);
}

// After greeting exchange, state advances to PlainHello (not Ready)
#[test]
fn connection_plain_greeting_exchange_transitions_to_plain_hello() {
    let mut conn: Connection<8, 32, 512, AcceptAll> = Connection::new_plain(AcceptAll);
    let mut out = [0u8; 64];
    conn.write_greeting(&mut out).unwrap();
    conn.feed(&plain_client_greeting()).unwrap();
    conn.write_greeting_rest(&mut out).unwrap();
    assert_eq!(conn.state(), &State::PlainHello);
}

// Feeding valid HELLO with correct credentials transitions to PlainReady
#[test]
fn connection_plain_valid_hello_transitions_to_plain_ready() {
    let mut conn: Connection<8, 32, 512, RequireCredentials> =
        Connection::new_plain(RequireCredentials {
            user: b"alice",
            pass: b"secret",
        });
    let mut out = [0u8; 64];
    conn.write_greeting(&mut out).unwrap();
    conn.feed(&plain_client_greeting()).unwrap();
    conn.write_greeting_rest(&mut out).unwrap();

    let hello = hello_frame(b"alice", b"secret");
    conn.feed(hello.as_slice()).unwrap();
    assert_eq!(conn.state(), &State::PlainReady);
}

// Wrong credentials transition to Failed and return AuthFailed
#[test]
fn connection_plain_wrong_credentials_returns_auth_failed() {
    let mut conn: Connection<8, 32, 512, RejectAll> = Connection::new_plain(RejectAll);
    let mut out = [0u8; 64];
    conn.write_greeting(&mut out).unwrap();
    conn.feed(&plain_client_greeting()).unwrap();
    conn.write_greeting_rest(&mut out).unwrap();

    let hello = hello_frame(b"user", b"wrong");
    let result = conn.feed(hello.as_slice());
    assert_eq!(
        result,
        Err(ConnError::PlainError(mzmq::plain::PlainError::AuthFailed))
    );
    assert_eq!(conn.state(), &State::Failed);
}

// Write_welcome in PlainReady state writes a 10-byte WELCOME frame
#[test]
fn connection_plain_write_welcome_writes_correct_frame() {
    let mut conn: Connection<8, 32, 512, AcceptAll> = Connection::new_plain(AcceptAll);
    let mut out = [0u8; 64];
    conn.write_greeting(&mut out).unwrap();
    conn.feed(&plain_client_greeting()).unwrap();
    conn.write_greeting_rest(&mut out).unwrap();
    let hello = hello_frame(b"u", b"p");
    conn.feed(hello.as_slice()).unwrap();

    let mut welcome_buf = [0u8; 16];
    let n = conn.write_welcome(&mut welcome_buf).unwrap();
    assert_eq!(n, WELCOME_LEN);
    assert_eq!(welcome_buf[0], 0x04);
    assert_eq!(welcome_buf[1], 0x08);
    assert_eq!(&welcome_buf[3..10], b"WELCOME");
}

// Full PLAIN handshake reaches Established
#[test]
fn connection_plain_full_handshake_reaches_established() {
    let mut conn: Connection<8, 32, 512, AcceptAll> = Connection::new_plain(AcceptAll);
    do_plain_handshake(&mut conn);
    assert_eq!(conn.state(), &State::Established);
}

// Write_ready before write_welcome returns WrongState
#[test]
fn connection_plain_write_ready_before_welcome_fails() {
    let mut conn: Connection<8, 32, 512, AcceptAll> = Connection::new_plain(AcceptAll);
    let mut out = [0u8; 64];
    conn.write_greeting(&mut out).unwrap();
    conn.feed(&plain_client_greeting()).unwrap();
    conn.write_greeting_rest(&mut out).unwrap();
    let hello = hello_frame(b"u", b"p");
    conn.feed(hello.as_slice()).unwrap();
    assert_eq!(conn.state(), &State::PlainReady);

    let mut ready_out = [0u8; 32];
    assert_eq!(conn.write_ready(&mut ready_out), Err(ConnError::WrongState));
}

// Write_welcome in wrong state returns WrongState
#[test]
fn connection_plain_write_welcome_in_wrong_state_fails() {
    let mut conn: Connection<8, 32, 512, AcceptAll> = Connection::new_plain(AcceptAll);
    let mut out = [0u8; 16];
    assert_eq!(conn.write_welcome(&mut out), Err(ConnError::WrongState));
}

// PLAIN connection rejects peer greeting with NULL mechanism
#[test]
fn connection_plain_rejects_null_peer_greeting() {
    let mut conn: Connection<8, 32, 512, AcceptAll> = Connection::new_plain(AcceptAll);
    let mut out = [0u8; 64];
    conn.write_greeting(&mut out).unwrap();
    let result = conn.feed(&sub_greeting()); // NULL greeting
    assert!(result.is_err());
}

// After PLAIN handshake, publish works normally
#[test]
fn connection_plain_publish_after_handshake_works() {
    let mut conn: Connection<8, 32, 512, AcceptAll> = Connection::new_plain(AcceptAll);
    do_plain_handshake(&mut conn);

    let sub_frame = {
        let name = b"SUBSCRIBE";
        let body_len = 1 + name.len();
        let mut f: heapless::Vec<u8, 32> = heapless::Vec::new();
        f.push(0x04).unwrap();
        f.push(body_len as u8).unwrap();
        f.push(name.len() as u8).unwrap();
        f.extend_from_slice(name).unwrap();
        f
    };
    conn.feed(sub_frame.as_slice()).unwrap();

    let mut buf = [0u8; 256];
    let n = conn.publish(b"", b"hello", &mut buf).unwrap();
    assert!(n > 0);
}
