use mzmq::greeting::{encode_greeting, encode_plain_greeting, GreetingError, GREETING_LEN};
use mzmq::null::{NullError, RADIO_READY_LEN};
use mzmq::plain::{Authenticator, PlainError, WELCOME_LEN};
use mzmq::radio_connection::{ConnError, RadioConnection, State};

/// 64-byte ZMTP 3.1 NULL greeting as a DISH peer would send it.
fn dish_greeting() -> [u8; 64] {
    let mut g = [0u8; 64];
    g[0] = 0xFF;
    g[9] = 0x7F;
    g[10] = 0x03;
    g[11] = 0x01;
    g[12] = b'N';
    g[13] = b'U';
    g[14] = b'L';
    g[15] = b'L';
    g
}

/// 28-byte READY command frame with `Socket-Type = DISH`.
fn dish_ready() -> [u8; 28] {
    [
        0x04, 0x1A, 0x05, 0x52, 0x45, 0x41, 0x44, 0x59, 0x0B, 0x53, 0x6F, 0x63, 0x6B, 0x65, 0x74,
        0x2D, 0x54, 0x79, 0x70, 0x65, 0x00, 0x00, 0x00, 0x04, 0x44, 0x49, 0x53, 0x48,
    ]
}

// SUB READY frame (should be rejected by RADIO)
fn sub_ready() -> [u8; 27] {
    [
        0x04, 0x19, 0x05, 0x52, 0x45, 0x41, 0x44, 0x59, 0x0B, 0x53, 0x6F, 0x63, 0x6B, 0x65,
        0x74, 0x2D, 0x54, 0x79, 0x70, 0x65, 0x00, 0x00, 0x00, 0x03, 0x53, 0x55, 0x42,
    ]
}

// Perform a full RADIO/DISH handshake
fn do_handshake(conn: &mut RadioConnection<8, 32, 512>) {
    let mut out = [0u8; 64];
    conn.write_greeting(&mut out).unwrap();
    conn.feed(&dish_greeting()).unwrap();
    let mut ready_out = [0u8; 32];
    conn.write_ready(&mut ready_out).unwrap();
    conn.feed(&dish_ready()).unwrap();
}

// Build a ZMTP 3.1 JOIN command frame
fn build_join_frame(group: &[u8]) -> heapless::Vec<u8, 64> {
    let name = b"JOIN";
    let body_len = 1 + name.len() + group.len();
    let mut frame: heapless::Vec<u8, 64> = heapless::Vec::new();
    frame.push(0x04).unwrap();
    frame.push(body_len as u8).unwrap();
    frame.push(name.len() as u8).unwrap();
    frame.extend_from_slice(name).unwrap();
    frame.extend_from_slice(group).unwrap();
    frame
}

// Build a ZMTP 3.1 LEAVE command frame
fn build_leave_frame(group: &[u8]) -> heapless::Vec<u8, 64> {
    let name = b"LEAVE";
    let body_len = 1 + name.len() + group.len();
    let mut frame: heapless::Vec<u8, 64> = heapless::Vec::new();
    frame.push(0x04).unwrap();
    frame.push(body_len as u8).unwrap();
    frame.push(name.len() as u8).unwrap();
    frame.extend_from_slice(name).unwrap();
    frame.extend_from_slice(group).unwrap();
    frame
}

// Initial state is Greeting
#[test]
fn radio_connection_initial_state_is_greeting() {
    let conn: RadioConnection<8, 32, 512> = RadioConnection::new();
    assert_eq!(conn.state(), &State::Greeting);
}

// Write_greeting writes 64 bytes (full greeting)
#[test]
fn radio_connection_write_greeting_succeeds() {
    let mut conn: RadioConnection<8, 32, 512> = RadioConnection::new();
    let mut out = [0u8; 64];
    let n = conn.write_greeting(&mut out).unwrap();
    assert_eq!(n, GREETING_LEN);
    assert_eq!(out[0], 0xFF);
    assert_eq!(out[9], 0x7F);
    assert_eq!(out[10], 0x03);
}

// Calling write_greeting twice returns WrongState
#[test]
fn radio_connection_write_greeting_wrong_state_fails() {
    let mut conn: RadioConnection<8, 32, 512> = RadioConnection::new();
    let mut out = [0u8; 64];
    conn.write_greeting(&mut out).unwrap();
    let result = conn.write_greeting(&mut out);
    assert_eq!(result, Err(ConnError::WrongState));
}

// Feed(DISH_GREETING) after write_greeting advances to Ready
#[test]
fn radio_connection_feed_peer_greeting_advances_to_ready() {
    let mut conn: RadioConnection<8, 32, 512> = RadioConnection::new();
    let mut out = [0u8; 64];
    conn.write_greeting(&mut out).unwrap();
    conn.feed(&dish_greeting()).unwrap();
    assert_eq!(conn.state(), &State::Ready);
}

// Write_ready after greeting returns Ok(RADIO_READY_LEN)
#[test]
fn radio_connection_write_ready_after_greeting_succeeds() {
    let mut conn: RadioConnection<8, 32, 512> = RadioConnection::new();
    let mut out = [0u8; 64];
    conn.write_greeting(&mut out).unwrap();
    conn.feed(&dish_greeting()).unwrap();
    let mut ready_out = [0u8; 32];
    let n = conn.write_ready(&mut ready_out).unwrap();
    assert_eq!(n, RADIO_READY_LEN);
}

// Full handshake -> state == Established
#[test]
fn feed_dish_ready_advances_to_established() {
    let mut conn: RadioConnection<8, 32, 512> = RadioConnection::new();
    do_handshake(&mut conn);
    assert_eq!(conn.state(), &State::Established);
}

// Feed a SUB READY -> WrongSocketType error, state == Failed
#[test]
fn feed_sub_ready_returns_wrong_socket_type() {
    let mut conn: RadioConnection<8, 32, 512> = RadioConnection::new();
    let mut out = [0u8; 64];
    conn.write_greeting(&mut out).unwrap();
    conn.feed(&dish_greeting()).unwrap();
    let mut ready_out = [0u8; 32];
    conn.write_ready(&mut ready_out).unwrap();
    let result = conn.feed(&sub_ready());
    assert_eq!(
        result,
        Err(ConnError::NullError(NullError::WrongSocketType))
    );
    assert_eq!(conn.state(), &State::Failed);
}

// Publish without group membership returns Ok(0)
#[test]
fn publish_without_membership_returns_zero() {
    let mut conn: RadioConnection<8, 32, 512> = RadioConnection::new();
    do_handshake(&mut conn);
    let mut buf = [0u8; 256];
    let n = conn.publish(b"foo", b"bar", &mut buf).unwrap();
    assert_eq!(n, 0);
}

// Publish after JOIN command writes wire bytes
#[test]
fn publish_with_matching_group_writes_frames() {
    let mut conn: RadioConnection<8, 32, 512> = RadioConnection::new();
    do_handshake(&mut conn);

    let join_frame = build_join_frame(b"foo");
    conn.feed(join_frame.as_slice()).unwrap();

    let mut buf = [0u8; 256];
    let n = conn.publish(b"foo", b"bar", &mut buf).unwrap();
    assert!(n > 0);

    // Verify wire format
    assert_eq!(buf[0], 0x01); // MORE flag
    assert_eq!(buf[1], 0x03); // group length = 3
    assert_eq!(&buf[2..5], b"foo");
    assert_eq!(buf[5], 0x00); // no MORE flag
    assert_eq!(buf[6], 0x03); // body length = 3
    assert_eq!(&buf[7..10], b"bar");
    assert_eq!(n, 10);
}

// Publish requires exact match (no prefix matching)
#[test]
fn publish_requires_exact_match() {
    let mut conn: RadioConnection<8, 32, 512> = RadioConnection::new();
    do_handshake(&mut conn);

    let join_frame = build_join_frame(b"foo");
    conn.feed(join_frame.as_slice()).unwrap();

    let mut buf = [0u8; 256];
    let n = conn.publish(b"foobar", b"payload", &mut buf).unwrap();
    assert_eq!(n, 0);

    let n = conn.publish(b"foo", b"payload", &mut buf).unwrap();
    assert!(n > 0);
}

// LEAVE removes group membership
#[test]
fn leave_removes_membership() {
    let mut conn: RadioConnection<8, 32, 512> = RadioConnection::new();
    do_handshake(&mut conn);

    let join_frame = build_join_frame(b"foo");
    conn.feed(join_frame.as_slice()).unwrap();

    let mut buf = [0u8; 256];
    let n = conn.publish(b"foo", b"x", &mut buf).unwrap();
    assert!(n > 0);

    let leave_frame = build_leave_frame(b"foo");
    conn.feed(leave_frame.as_slice()).unwrap();

    let n = conn.publish(b"foo", b"x", &mut buf).unwrap();
    assert_eq!(n, 0);
}

// Publish in wrong state (Greeting) returns WrongState
#[test]
fn radio_connection_publish_in_wrong_state_fails() {
    let mut conn: RadioConnection<8, 32, 512> = RadioConnection::new();
    let mut buf = [0u8; 256];
    let result = conn.publish(b"foo", b"bar", &mut buf);
    assert_eq!(result, Err(ConnError::WrongState));
}

// PING command queues a PONG with the echoed context
#[test]
fn radio_connection_ping_command_queues_pong_with_context() {
    let mut conn: RadioConnection<8, 32, 512> = RadioConnection::new();
    do_handshake(&mut conn);

    let ping: &[u8] = &[
        0x04, 0x09, 0x04, b'P', b'I', b'N', b'G', 0x00, 0x00, b'h', b'i',
    ];
    conn.feed(ping).unwrap();

    let mut pong_buf = [0u8; 23];
    let n = conn
        .write_pong(&mut pong_buf)
        .unwrap()
        .expect("pong pending");
    assert_eq!(n, 9);
    assert_eq!(pong_buf[0], 0x04); // COMMAND
    assert_eq!(pong_buf[1], 7); // body len
    assert_eq!(pong_buf[2], 4); // name-size "PONG"
    assert_eq!(&pong_buf[3..7], b"PONG");
    assert_eq!(&pong_buf[7..9], b"hi");
    assert_eq!(conn.write_pong(&mut pong_buf).unwrap(), None);
}

// Write_error after Failed state returns a valid ERROR frame
#[test]
fn radio_connection_write_error_returns_error_frame() {
    let mut conn: RadioConnection<8, 32, 512> = RadioConnection::new();
    let mut out = [0u8; 64];
    conn.write_greeting(&mut out).unwrap();
    conn.feed(&dish_greeting()).unwrap();
    let mut ready_out = [0u8; 32];
    conn.write_ready(&mut ready_out).unwrap();
    let _ = conn.feed(&sub_ready());
    assert_eq!(conn.state(), &State::Failed);

    let mut err_out = [0u8; 64];
    let n = conn.write_error(&mut err_out).unwrap();
    assert!(n > 0);
    assert_eq!(err_out[0], 0x04);
    assert_eq!(&err_out[3..8], b"ERROR");
}

// Peer_version returns (3, 1) after handshake with 3.1 peer
#[test]
fn radio_connection_peer_version_returns_3_1() {
    let mut conn: RadioConnection<8, 32, 512> = RadioConnection::new();
    assert_eq!(conn.peer_version(), (3, 0));

    let mut out = [0u8; 64];
    conn.write_greeting(&mut out).unwrap();
    conn.feed(&dish_greeting()).unwrap();
    assert_eq!(conn.peer_version(), (3, 1));
}

// Calling write_greeting twice fails
#[test]
fn radio_connection_write_greeting_twice_fails() {
    let mut conn: RadioConnection<8, 32, 512> = RadioConnection::new();
    let mut out = [0u8; 64];
    conn.write_greeting(&mut out).unwrap();
    let result = conn.write_greeting(&mut out);
    assert_eq!(result, Err(ConnError::WrongState));
}

// Write_greeting produces the canonical 64-byte greeting
#[test]
fn write_greeting_matches_encode_greeting() {
    let mut conn: RadioConnection<8, 32, 512> = RadioConnection::new();
    let mut combined = [0u8; GREETING_LEN];
    let n = conn.write_greeting(&mut combined).unwrap();
    assert_eq!(n, GREETING_LEN);

    let mut expected = [0u8; GREETING_LEN];
    encode_greeting(&mut expected);
    assert_eq!(combined, expected);
}

// ---------------------------------------------------------------------------
// PLAIN mechanism tests
// ---------------------------------------------------------------------------

struct AcceptAll;
impl Authenticator for AcceptAll {
    fn authenticate(&self, _username: &[u8], _password: &[u8]) -> bool {
        true
    }
}

struct RejectAll;
impl Authenticator for RejectAll {
    fn authenticate(&self, _username: &[u8], _password: &[u8]) -> bool {
        false
    }
}

struct RequireCredentials {
    user: &'static [u8],
    pass: &'static [u8],
}
impl Authenticator for RequireCredentials {
    fn authenticate(&self, username: &[u8], password: &[u8]) -> bool {
        username == self.user && password == self.pass
    }
}

fn plain_dish_greeting() -> [u8; GREETING_LEN] {
    let mut g = [0u8; GREETING_LEN];
    g[0] = 0xFF;
    g[9] = 0x7F;
    g[10] = 0x03;
    g[11] = 0x01;
    g[12] = b'P';
    g[13] = b'L';
    g[14] = b'A';
    g[15] = b'I';
    g[16] = b'N';
    // as_server = 0 (client role)
    g
}

fn hello_frame(username: &[u8], password: &[u8]) -> heapless::Vec<u8, 64> {
    let body_len: u8 = (1 + 5 + 1 + username.len() + 1 + password.len()) as u8;
    let mut f: heapless::Vec<u8, 64> = heapless::Vec::new();
    f.push(0x04).unwrap(); // COMMAND flag
    f.push(body_len).unwrap();
    f.push(5).unwrap(); // name_len
    f.extend_from_slice(b"HELLO").unwrap();
    f.push(username.len() as u8).unwrap();
    f.extend_from_slice(username).unwrap();
    f.push(password.len() as u8).unwrap();
    f.extend_from_slice(password).unwrap();
    f
}

fn do_plain_handshake(conn: &mut RadioConnection<8, 32, 512, AcceptAll>) {
    let mut out = [0u8; 64];
    conn.write_greeting(&mut out).unwrap();
    conn.feed(&plain_dish_greeting()).unwrap();
    let hello = hello_frame(b"user", b"pass");
    conn.feed(hello.as_slice()).unwrap();
    let mut welcome_buf = [0u8; 16];
    conn.write_welcome(&mut welcome_buf).unwrap();
    let mut ready_out = [0u8; 32];
    conn.write_ready(&mut ready_out).unwrap();
    conn.feed(&dish_ready()).unwrap();
}

// Write_greeting for PLAIN encodes "PLAIN" and as_server=1
#[test]
fn plain_write_greeting_uses_plain_greeting() {
    let mut conn: RadioConnection<8, 32, 512, AcceptAll> =
        RadioConnection::new_plain(AcceptAll);
    let mut combined = [0u8; GREETING_LEN];
    let n = conn.write_greeting(&mut combined).unwrap();
    assert_eq!(n, GREETING_LEN);

    let mut expected = [0u8; GREETING_LEN];
    encode_plain_greeting(&mut expected);
    assert_eq!(combined, expected);
}

// After greeting exchange, state advances to PlainHello (not Ready)
#[test]
fn radio_connection_plain_greeting_exchange_transitions_to_plain_hello() {
    let mut conn: RadioConnection<8, 32, 512, AcceptAll> =
        RadioConnection::new_plain(AcceptAll);
    let mut out = [0u8; 64];
    conn.write_greeting(&mut out).unwrap();
    conn.feed(&plain_dish_greeting()).unwrap();
    assert_eq!(conn.state(), &State::PlainHello);
}

// Feeding valid HELLO with correct credentials transitions to PlainReady
#[test]
fn radio_connection_plain_valid_hello_transitions_to_plain_ready() {
    let mut conn: RadioConnection<8, 32, 512, RequireCredentials> =
        RadioConnection::new_plain(RequireCredentials {
            user: b"alice",
            pass: b"secret",
        });
    let mut out = [0u8; 64];
    conn.write_greeting(&mut out).unwrap();
    conn.feed(&plain_dish_greeting()).unwrap();

    let hello = hello_frame(b"alice", b"secret");
    conn.feed(hello.as_slice()).unwrap();
    assert_eq!(conn.state(), &State::PlainReady);
}

// Wrong credentials transition to Failed and return AuthFailed
#[test]
fn radio_connection_plain_wrong_credentials_returns_auth_failed() {
    let mut conn: RadioConnection<8, 32, 512, RejectAll> =
        RadioConnection::new_plain(RejectAll);
    let mut out = [0u8; 64];
    conn.write_greeting(&mut out).unwrap();
    conn.feed(&plain_dish_greeting()).unwrap();

    let hello = hello_frame(b"user", b"wrong");
    let result = conn.feed(hello.as_slice());
    assert_eq!(
        result,
        Err(ConnError::PlainError(mzmq::plain::PlainError::AuthFailed))
    );
    assert_eq!(conn.state(), &State::Failed);
}

// Write_welcome in PlainReady state writes a 10-byte WELCOME frame
#[test]
fn radio_connection_plain_write_welcome_writes_correct_frame() {
    let mut conn: RadioConnection<8, 32, 512, AcceptAll> =
        RadioConnection::new_plain(AcceptAll);
    let mut out = [0u8; 64];
    conn.write_greeting(&mut out).unwrap();
    conn.feed(&plain_dish_greeting()).unwrap();
    let hello = hello_frame(b"u", b"p");
    conn.feed(hello.as_slice()).unwrap();

    let mut welcome_buf = [0u8; 16];
    let n = conn.write_welcome(&mut welcome_buf).unwrap();
    assert_eq!(n, WELCOME_LEN);
    assert_eq!(welcome_buf[0], 0x04);
    assert_eq!(welcome_buf[1], 0x08);
    assert_eq!(&welcome_buf[3..10], b"WELCOME");
}

// Full PLAIN handshake reaches Established
#[test]
fn radio_connection_plain_full_handshake_reaches_established() {
    let mut conn: RadioConnection<8, 32, 512, AcceptAll> =
        RadioConnection::new_plain(AcceptAll);
    do_plain_handshake(&mut conn);
    assert_eq!(conn.state(), &State::Established);
}

// Write_ready before write_welcome returns WrongState
#[test]
fn radio_connection_plain_write_ready_before_welcome_fails() {
    let mut conn: RadioConnection<8, 32, 512, AcceptAll> =
        RadioConnection::new_plain(AcceptAll);
    let mut out = [0u8; 64];
    conn.write_greeting(&mut out).unwrap();
    conn.feed(&plain_dish_greeting()).unwrap();
    let hello = hello_frame(b"u", b"p");
    conn.feed(hello.as_slice()).unwrap();
    assert_eq!(conn.state(), &State::PlainReady);

    let mut ready_out = [0u8; 32];
    assert_eq!(conn.write_ready(&mut ready_out), Err(ConnError::WrongState));
}

// Write_welcome in wrong state returns WrongState
#[test]
fn radio_connection_plain_write_welcome_in_wrong_state_fails() {
    let mut conn: RadioConnection<8, 32, 512, AcceptAll> =
        RadioConnection::new_plain(AcceptAll);
    let mut out = [0u8; 16];
    assert_eq!(conn.write_welcome(&mut out), Err(ConnError::WrongState));
}

// PLAIN connection rejects peer greeting with NULL mechanism
#[test]
fn radio_connection_plain_rejects_null_peer_greeting() {
    let mut conn: RadioConnection<8, 32, 512, AcceptAll> =
        RadioConnection::new_plain(AcceptAll);
    let mut out = [0u8; 64];
    conn.write_greeting(&mut out).unwrap();
    let result = conn.feed(&dish_greeting()); // NULL greeting
    assert!(result.is_err());
}

// After PLAIN handshake, publish works normally
#[test]
fn radio_connection_plain_publish_after_handshake_works() {
    let mut conn: RadioConnection<8, 32, 512, AcceptAll> =
        RadioConnection::new_plain(AcceptAll);
    do_plain_handshake(&mut conn);

    let join_frame = {
        let name = b"JOIN";
        let body_len = 1 + name.len();
        let mut f: heapless::Vec<u8, 32> = heapless::Vec::new();
        f.push(0x04).unwrap();
        f.push(body_len as u8).unwrap();
        f.push(name.len() as u8).unwrap();
        f.extend_from_slice(name).unwrap();
        f
    };
    conn.feed(join_frame.as_slice()).unwrap();

    let mut buf = [0u8; 256];
    let n = conn.publish(b"", b"hello", &mut buf).unwrap();
    assert!(n > 0);
}
