//! Step-by-step drivers over an in-memory transport.

use embedded_io::{Error, ErrorKind, ErrorType, Read, Write};
use mzmq::auth::AuthCheck;
use mzmq::connection::{ConnError, Connection, State};
use mzmq::io::driver::{Action, DriverCore, RadioDriverCore};
use mzmq::plain::Authenticator;
use mzmq::radio_connection::RadioConnection;

/// 64-byte ZMTP 3.1 NULL greeting as a SUB peer would send it.
fn sub_greeting() -> [u8; 64] {
    let mut g = [0u8; 64];
    g[0] = 0xFF;
    g[9] = 0x7F;
    g[10] = 0x03;
    g[11] = 0x01;
    g[12] = b'N';
    g[13] = b'U';
    g[14] = b'L';
    g[15] = b'L';
    g
}

/// 27-byte READY command frame with `Socket-Type = SUB`.
fn sub_ready() -> [u8; 27] {
    [
        0x04, 0x19, 0x05, 0x52, 0x45, 0x41, 0x44, 0x59, 0x0B, 0x53, 0x6F, 0x63, 0x6B, 0x65, 0x74,
        0x2D, 0x54, 0x79, 0x70, 0x65, 0x00, 0x00, 0x00, 0x03, 0x53, 0x55, 0x42,
    ]
}

/// 27-byte READY command frame with `Socket-Type = PUB` (what this library emits).
fn pub_ready() -> [u8; 27] {
    [
        0x04, 0x19, 0x05, 0x52, 0x45, 0x41, 0x44, 0x59, 0x0B, 0x53, 0x6F, 0x63, 0x6B, 0x65, 0x74,
        0x2D, 0x54, 0x79, 0x70, 0x65, 0x00, 0x00, 0x00, 0x03, 0x50, 0x55, 0x42,
    ]
}

/// Build a ZMTP 3.1 SUBSCRIBE command frame for the given prefix.
fn sub_subscribe(prefix: &[u8]) -> Vec<u8> {
    let name = b"SUBSCRIBE";
    let body_len = 1 + name.len() + prefix.len();
    let mut f = Vec::new();
    f.push(0x04);
    f.push(body_len as u8);
    f.push(name.len() as u8);
    f.extend_from_slice(name);
    f.extend_from_slice(prefix);
    f
}

/// 64-byte ZMTP 3.1 NULL greeting as a DISH peer would send it.
fn dish_greeting() -> [u8; 64] {
    let mut g = [0u8; 64];
    g[0] = 0xFF;
    g[9] = 0x7F;
    g[10] = 0x03;
    g[11] = 0x01;
    g[12] = b'N';
    g[13] = b'U';
    g[14] = b'L';
    g[15] = b'L';
    g
}

/// 28-byte READY command frame with `Socket-Type = DISH`.
fn dish_ready() -> [u8; 28] {
    [
        0x04, 0x1A, 0x05, 0x52, 0x45, 0x41, 0x44, 0x59, 0x0B, 0x53, 0x6F, 0x63, 0x6B, 0x65, 0x74,
        0x2D, 0x54, 0x79, 0x70, 0x65, 0x00, 0x00, 0x00, 0x04, 0x44, 0x49, 0x53, 0x48,
    ]
}

/// 29-byte READY command frame with `Socket-Type = RADIO` (what the RADIO library emits).
fn radio_ready() -> [u8; 29] {
    [
        0x04, 0x1B, 0x05, 0x52, 0x45, 0x41, 0x44, 0x59, 0x0B, 0x53, 0x6F, 0x63, 0x6B, 0x65, 0x74,
        0x2D, 0x54, 0x79, 0x70, 0x65, 0x00, 0x00, 0x00, 0x05, 0x52, 0x41, 0x44, 0x49, 0x4F,
    ]
}

/// Build a ZMTP 3.1 JOIN command frame for the given group.
fn dish_join(group: &[u8]) -> Vec<u8> {
    let name = b"JOIN";
    let body_len = 1 + name.len() + group.len();
    let mut f = Vec::new();
    f.push(0x04);
    f.push(body_len as u8);
    f.push(name.len() as u8);
    f.extend_from_slice(name);
    f.extend_from_slice(group);
    f
}

/// 64-byte ZMTP 3.1 PLAIN greeting as a SUB peer (client role, `as_server=0`) would send it.
fn plain_sub_greeting() -> [u8; 64] {
    let mut g = [0u8; 64];
    g[0] = 0xFF;
    g[9] = 0x7F;
    g[10] = 0x03;
    g[11] = 0x01;
    g[12] = b'P';
    g[13] = b'L';
    g[14] = b'A';
    g[15] = b'I';
    g[16] = b'N';
    // bytes 17–31: mechanism padding = 0x00
    // byte 32: as_server = 0x00 (client role)
    g
}

/// Build a ZMTP 3.1 PLAIN HELLO command frame with the given credentials.
fn plain_hello(username: &[u8], password: &[u8]) -> Vec<u8> {
    // name_len(1) + "HELLO"(5) + ulen(1) + username + plen(1) + password
    let body_len = 1 + 5 + 1 + username.len() + 1 + password.len();
    let mut f = Vec::new();
    f.push(0x04u8);
    f.push(body_len as u8);
    f.push(5u8);
    f.extend_from_slice(b"HELLO");
    f.push(username.len() as u8);
    f.extend_from_slice(username);
    f.push(password.len() as u8);
    f.extend_from_slice(password);
    f
}

fn io_error<E: Error>(e: E) -> ConnError {
    ConnError::IoError(e.kind() as usize)
}

/// Hands out the peer's bytes, as many as fit, and keeps what is written.
struct MockTransport {
    peer_bytes: Vec<u8>,
    peer_pos: usize,
    our_bytes: Vec<u8>,
}

impl MockTransport {
    fn new(peer_bytes: Vec<u8>) -> Self {
        Self {
            peer_bytes,
            peer_pos: 0,
            our_bytes: Vec::new(),
        }
    }

    fn written(&self) -> &[u8] {
        &self.our_bytes
    }
}

impl ErrorType for MockTransport {
    type Error = ErrorKind;
}

impl Read for MockTransport {
    fn read(&mut self, buf: &mut [u8]) -> Result<usize, Self::Error> {
        let to_copy = buf.len().min(self.peer_bytes.len() - self.peer_pos);
        buf[..to_copy].copy_from_slice(&self.peer_bytes[self.peer_pos..self.peer_pos + to_copy]);
        self.peer_pos += to_copy;
        Ok(to_copy)
    }
}

impl Write for MockTransport {
    fn write(&mut self, buf: &[u8]) -> Result<usize, Self::Error> {
        self.our_bytes.extend_from_slice(buf);
        Ok(buf.len())
    }

    fn flush(&mut self) -> Result<(), Self::Error> {
        Ok(())
    }
}

/// Fails every read.
struct ReadErrorTransport;

impl ErrorType for ReadErrorTransport {
    type Error = ErrorKind;
}

impl Read for ReadErrorTransport {
    fn read(&mut self, _buf: &mut [u8]) -> Result<usize, Self::Error> {
        Err(ErrorKind::BrokenPipe)
    }
}

impl Write for ReadErrorTransport {
    fn write(&mut self, buf: &[u8]) -> Result<usize, Self::Error> {
        Ok(buf.len())
    }

    fn flush(&mut self) -> Result<(), Self::Error> {
        Ok(())
    }
}

/// Hands out the peer's bytes one at a time.
struct ChunkedReadTransport {
    data: Vec<u8>,
    pos: usize,
}

impl ErrorType for ChunkedReadTransport {
    type Error = ErrorKind;
}

impl Read for ChunkedReadTransport {
    fn read(&mut self, buf: &mut [u8]) -> Result<usize, Self::Error> {
        if self.pos >= self.data.len() || buf.is_empty() {
            return Ok(0);
        }
        buf[0] = self.data[self.pos];
        self.pos += 1;
        Ok(1)
    }
}

impl Write for ChunkedReadTransport {
    fn write(&mut self, buf: &[u8]) -> Result<usize, Self::Error> {
        Ok(buf.len())
    }

    fn flush(&mut self) -> Result<(), Self::Error> {
        Ok(())
    }
}

/// A driver that does to its transport what its core tells it, step by step.
struct Driver<const A: usize, const B: usize, const C: usize, T, Auth: AuthCheck = ()> {
    core: DriverCore<A, B, C, Auth>,
    transport: T,
}

impl<const A: usize, const B: usize, const C: usize, T: Read + Write> Driver<A, B, C, T, ()> {
    fn new(mut transport: T) -> Result<Self, ConnError> {
        let mut conn: Connection<A, B, C> = Connection::new();
        let mut greeting = [0u8; 64];
        let n = conn.write_full_greeting(&mut greeting)?;
        transport.write_all(&greeting[..n]).map_err(io_error)?;
        Ok(Self {
            core: DriverCore::new_null(conn),
            transport,
        })
    }
}

impl<const A: usize, const B: usize, const C: usize, T: Read + Write, Auth: Authenticator>
    Driver<A, B, C, T, Auth>
{
    fn new_plain(mut transport: T, auth: Auth) -> Result<Self, ConnError> {
        let mut conn: Connection<A, B, C, Auth> = Connection::new_plain(auth);
        let mut greeting = [0u8; 64];
        let n = conn.write_full_greeting(&mut greeting)?;
        transport.write_all(&greeting[..n]).map_err(io_error)?;
        Ok(Self {
            core: DriverCore::new_plain(conn),
            transport,
        })
    }
}

impl<const A: usize, const B: usize, const C: usize, T: Read + Write, Auth: AuthCheck>
    Driver<A, B, C, T, Auth>
{    fn poll(&mut self) -> Result<bool, ConnError> {
        loop {
            match self.core.step()? {
                Action::Write(bytes) => self.transport.write_all(bytes).map_err(io_error)?,
                Action::Read => {
                    let n = self.transport.read(self.core.rx_slot()).map_err(io_error)?;
                    if n == 0 {
                        return Err(ConnError::IoError(0));
                    }
                    self.core.advance_rx(n);
                    return Ok(self.core.is_established());
                }
                Action::Parked => return Ok(false),
                Action::Established => return Ok(true),
            }
        }
    }

    fn publish(&mut self, topic: &[u8], payload: &[u8]) -> Result<usize, ConnError> {
        let Some((th, th_n, ph, ph_n)) = self.core.publish_headers(topic, payload)? else {
            return Ok(0);
        };
        self.transport.write_all(&th[..th_n]).map_err(io_error)?;
        self.transport.write_all(topic).map_err(io_error)?;
        self.transport.write_all(&ph[..ph_n]).map_err(io_error)?;
        self.transport.write_all(payload).map_err(io_error)?;
        Ok(th_n + topic.len() + ph_n + payload.len())
    }
}

fn make_established(entry: Option<&[u8]>) -> Driver<8, 32, 512, MockTransport> {
    let mut peer = Vec::new();
    peer.extend_from_slice(&sub_greeting());
    peer.extend_from_slice(&sub_ready());
    if let Some(e) = entry {
        peer.extend_from_slice(&sub_subscribe(e));
    }
    let mut driver = Driver::<8, 32, 512, _>::new(MockTransport::new(peer)).unwrap();
    while !driver.poll().unwrap() {}
    driver
}

#[test]
fn driver_sends_full_greeting_first() {
    let mut peer_bytes = Vec::new();
    peer_bytes.extend_from_slice(&sub_greeting());
    peer_bytes.extend_from_slice(&sub_ready());

    let transport = MockTransport::new(peer_bytes);
    let driver = Driver::<8, 32, 512, _>::new(transport).unwrap();

    let written = driver.transport.written();
    assert_eq!(written.len(), 64);
    assert_eq!(written[0], 0xFF);
    assert_eq!(written[9], 0x7F);
    assert_eq!(written[10], 0x03);
}

#[test]
fn async_driver_respects_deadlock_rule() {
    let mut peer_bytes = Vec::new();
    peer_bytes.extend_from_slice(&sub_greeting());
    peer_bytes.extend_from_slice(&sub_ready());

    let transport = MockTransport::new(peer_bytes);
    let mut driver = Driver::<8, 32, 512, _>::new(transport).unwrap();

    let mut established = false;
    for _ in 0..10 {
        match driver.poll() {
            Ok(true) => {
                established = true;
                break;
            }
            Ok(false) => {}
            Err(e) => panic!("poll failed: {e:?}"),
        }
    }

    assert!(established);
    assert_eq!(*driver.core.conn().state(), State::Established);

    let written = driver.transport.written();
    assert!(written.len() >= 64 + 27);
    assert_eq!(&written[64..64 + 27], &pub_ready());
}

#[test]
fn async_driver_publish_returns_zero_without_subscription() {
    let mut driver = make_established(None);
    assert_eq!(driver.publish(b"topic", b"payload").unwrap(), 0);
}

#[test]
fn async_driver_publish_writes_correct_wire_bytes() {
    let mut driver = make_established(Some(b"foo"));
    let n = driver.publish(b"foo", b"bar").unwrap();
    assert_eq!(n, 10);
    let pub_out = &driver.transport.written()[91..];
    assert_eq!(
        pub_out,
        &[0x01, 0x03, b'f', b'o', b'o', 0x00, 0x03, b'b', b'a', b'r']
    );
}

#[test]
fn async_driver_publish_filtered_by_prefix() {
    let mut driver = make_established(Some(b"foo"));
    assert_eq!(driver.publish(b"bar", b"payload").unwrap(), 0);
    assert!(driver.publish(b"fooX", b"payload").unwrap() > 0);
}

#[test]
fn async_driver_poll_eof_returns_error() {
    let transport = MockTransport::new(Vec::new());
    let mut driver = Driver::<8, 32, 512, _>::new(transport).unwrap();
    assert!(matches!(driver.poll(), Err(ConnError::IoError(0))));
}

#[test]
fn async_driver_poll_transport_read_error_propagates() {
    let mut driver = Driver::<8, 32, 512, _>::new(ReadErrorTransport)
        .unwrap();
    assert!(matches!(driver.poll(), Err(ConnError::IoError(_))));
}

#[test]
fn async_driver_ping_triggers_pong_response() {
    let ping = [
        0x04u8, 0x09, 0x04, b'P', b'I', b'N', b'G', 0x00, 0x00, b'h', b'i',
    ];
    let mut peer = Vec::new();
    peer.extend_from_slice(&sub_greeting());
    peer.extend_from_slice(&sub_ready());
    peer.extend_from_slice(&ping);

    let transport = MockTransport::new(peer);
    let mut driver = Driver::<8, 32, 512, _>::new(transport).unwrap();
    while !driver.poll().unwrap() {}

    let written = driver.transport.written();
    assert!(written.len() >= 100);
    let pong_frame = &written[91..100];
    assert_eq!(pong_frame[0], 0x04);
    assert_eq!(pong_frame[1], 7);
    assert_eq!(&pong_frame[2..7], &[0x04, b'P', b'O', b'N', b'G']);
    assert_eq!(&pong_frame[7..9], b"hi");
}

#[test]
fn async_driver_feed_error_writes_error_frame_and_returns_err() {
    let push_ready = [
        0x04u8, 0x1A, 0x05, b'R', b'E', b'A', b'D', b'Y', 0x0B, b'S', b'o', b'c', b'k', b'e',
        b't', b'-', b'T', b'y', b'p', b'e', 0x00, 0x00, 0x00, 0x04, b'P', b'U', b'S', b'H',
    ];
    let mut peer = Vec::new();
    peer.extend_from_slice(&sub_greeting());
    peer.extend_from_slice(&push_ready);

    let transport = MockTransport::new(peer);
    let mut driver = Driver::<8, 32, 512, _>::new(transport).unwrap();
    assert!(!driver.poll().unwrap());
    assert!(driver.poll().is_err());

    let written = driver.transport.written();
    assert!(written.len() > 91);
    assert_eq!(written[91], 0x04);
}

#[test]
fn driver_chunked_read_completes_handshake() {
    let mut peer_bytes = Vec::new();
    peer_bytes.extend_from_slice(&sub_greeting());
    peer_bytes.extend_from_slice(&sub_ready());

    let mut driver = Driver::<8, 32, 512, _>::new(ChunkedReadTransport {
        data: peer_bytes,
        pos: 0,
    })
    .unwrap();
    while !driver.poll().unwrap() {}
    assert_eq!(*driver.core.conn().state(), State::Established);
}

struct AcceptAll;

impl Authenticator for AcceptAll {
    fn authenticate(&self, _username: &[u8], _password: &[u8]) -> bool {
        true
    }
}

struct RejectAll;

impl Authenticator for RejectAll {
    fn authenticate(&self, _username: &[u8], _password: &[u8]) -> bool {
        false
    }
}

fn make_plain_established(
    prefix: Option<&[u8]>,
) -> Driver<8, 32, 512, MockTransport, AcceptAll> {
    let mut peer = Vec::new();
    peer.extend_from_slice(&plain_sub_greeting());
    peer.extend_from_slice(&plain_hello(b"user", b"pass"));
    peer.extend_from_slice(&sub_ready());
    if let Some(p) = prefix {
        peer.extend_from_slice(&sub_subscribe(p));
    }
    let mut driver =
        Driver::<8, 32, 512, _, _>::new_plain(MockTransport::new(peer), AcceptAll).unwrap();
    while !driver.poll().unwrap() {}
    driver
}

#[test]
fn plain_driver_writes_full_greeting_on_construction() {
    let mut peer = Vec::new();
    peer.extend_from_slice(&plain_sub_greeting());
    peer.extend_from_slice(&plain_hello(b"u", b"p"));
    peer.extend_from_slice(&sub_ready());

    let driver = Driver::<8, 32, 512, _, _>::new_plain(MockTransport::new(peer), AcceptAll)
        .unwrap();

    let written = driver.transport.written();
    assert_eq!(written.len(), 64);
    assert_eq!(written[0], 0xFF);
    assert_eq!(written[9], 0x7F);
    assert_eq!(written[10], 0x03);
}

#[test]
fn plain_driver_completes_handshake() {
    let driver = make_plain_established(None);
    assert_eq!(*driver.core.conn().state(), State::Established);
}

#[test]
fn plain_driver_emits_welcome_then_ready() {
    let driver = make_plain_established(None);
    let written = driver.transport.written();
    assert!(written.len() >= 101);
    assert_eq!(&written[12..17], b"PLAIN");
    assert_eq!(written[32], 0x01);
    assert_eq!(written[64], 0x04);
    assert_eq!(written[65], 0x08);
    assert_eq!(written[66], 0x07);
    assert_eq!(&written[67..74], b"WELCOME");
    assert_eq!(&written[74..101], &pub_ready());
}

#[test]
fn plain_driver_publish_returns_zero_without_subscription() {
    let mut driver = make_plain_established(None);
    assert_eq!(driver.publish(b"topic", b"payload").unwrap(), 0);
}

#[test]
fn plain_driver_publish_writes_correct_wire_bytes() {
    let mut driver = make_plain_established(Some(b"foo"));
    let n = driver.publish(b"foo", b"bar").unwrap();
    assert_eq!(n, 10);
    let pub_out = &driver.transport.written()[101..];
    assert_eq!(
        pub_out,
        &[0x01, 0x03, b'f', b'o', b'o', 0x00, 0x03, b'b', b'a', b'r']
    );
}

#[test]
fn plain_driver_rejects_bad_credentials() {
    let mut peer = Vec::new();
    peer.extend_from_slice(&plain_sub_greeting());
    peer.extend_from_slice(&plain_hello(b"wrong", b"creds"));

    let mut driver = Driver::<8, 32, 512, _, _>::new_plain(MockTransport::new(peer), RejectAll)
        .unwrap();

    let found_err = loop {
        match driver.poll() {
            Err(_) => break true,
            Ok(true) => break false,
            Ok(false) => {}
        }
    };
    assert!(found_err, "Bad credentials should produce an error");
}

/// The same for a RADIO connection.
struct RadioDriver<const A: usize, const B: usize, const C: usize, T> {
    core: RadioDriverCore<A, B, C>,
    transport: T,
}

impl<const A: usize, const B: usize, const C: usize, T: Read + Write> RadioDriver<A, B, C, T> {
    fn new(mut transport: T) -> Result<Self, ConnError> {
        let mut conn: RadioConnection<A, B, C> = RadioConnection::new();
        let mut greeting = [0u8; 64];
        let n = conn.write_greeting(&mut greeting)?;
        transport.write_all(&greeting[..n]).map_err(io_error)?;
        Ok(Self {
            core: RadioDriverCore::<A, B, C>::new(conn),
            transport,
        })
    }

    fn poll(&mut self) -> Result<bool, ConnError> {
        loop {
            match self.core.step()? {
                Action::Write(bytes) => self.transport.write_all(bytes).map_err(io_error)?,
                Action::Read => {
                    let n = self.transport.read(self.core.rx_slot()).map_err(io_error)?;
                    if n == 0 {
                        return Err(ConnError::IoError(0));
                    }
                    self.core.advance_rx(n);
                    return Ok(self.core.is_established());
                }
                Action::Parked => return Ok(false),
                Action::Established => return Ok(true),
            }
        }
    }

    fn publish(&mut self, topic: &[u8], payload: &[u8]) -> Result<usize, ConnError> {
        let Some((th, th_n, ph, ph_n)) = self.core.publish_headers(topic, payload)? else {
            return Ok(0);
        };
        self.transport.write_all(&th[..th_n]).map_err(io_error)?;
        self.transport.write_all(topic).map_err(io_error)?;
        self.transport.write_all(&ph[..ph_n]).map_err(io_error)?;
        self.transport.write_all(payload).map_err(io_error)?;
        Ok(th_n + topic.len() + ph_n + payload.len())
    }
}

fn make_radio_established(entry: Option<&[u8]>) -> RadioDriver<8, 32, 512, MockTransport> {
    let mut peer = Vec::new();
    peer.extend_from_slice(&dish_greeting());
    peer.extend_from_slice(&dish_ready());
    if let Some(e) = entry {
        peer.extend_from_slice(&dish_join(e));
    }
    let mut driver = RadioDriver::<8, 32, 512, _>::new(MockTransport::new(peer)).unwrap();
    while !driver.poll().unwrap() {}
    driver
}

#[test]
fn radio_driver_sends_full_greeting_first() {
    let mut peer_bytes = Vec::new();
    peer_bytes.extend_from_slice(&dish_greeting());
    peer_bytes.extend_from_slice(&dish_ready());

    let transport = MockTransport::new(peer_bytes);
    let driver = RadioDriver::<8, 32, 512, _>::new(transport).unwrap();

    let written = driver.transport.written();
    assert_eq!(written.len(), 64);
    assert_eq!(written[0], 0xFF);
    assert_eq!(written[9], 0x7F);
    assert_eq!(written[10], 0x03);
}

#[test]
fn async_radio_driver_respects_deadlock_rule() {
    let mut peer_bytes = Vec::new();
    peer_bytes.extend_from_slice(&dish_greeting());
    peer_bytes.extend_from_slice(&dish_ready());

    let transport = MockTransport::new(peer_bytes);
    let mut driver = RadioDriver::<8, 32, 512, _>::new(transport).unwrap();

    let mut established = false;
    for _ in 0..10 {
        match driver.poll() {
            Ok(true) => {
                established = true;
                break;
            }
            Ok(false) => {}
            Err(e) => panic!("poll failed: {e:?}"),
        }
    }

    assert!(established);
    assert_eq!(
        *driver.core.conn().state(),
        State::Established
    );

    let written = driver.transport.written();
    assert!(written.len() >= 64 + 29);
    assert_eq!(&written[64..64 + 29], &radio_ready());
}

#[test]
fn async_radio_driver_publish_returns_zero_without_membership() {
    let mut driver = make_radio_established(None);
    assert_eq!(driver.publish(b"topic", b"payload").unwrap(), 0);
}

#[test]
fn async_radio_driver_publish_writes_correct_wire_bytes() {
    let mut driver = make_radio_established(Some(b"foo"));
    let n = driver.publish(b"foo", b"bar").unwrap();
    assert_eq!(n, 10);
    let pub_out = &driver.transport.written()[93..];
    assert_eq!(
        pub_out,
        &[0x01, 0x03, b'f', b'o', b'o', 0x00, 0x03, b'b', b'a', b'r']
    );
}

#[test]
fn async_radio_driver_publish_requires_exact_match() {
    let mut driver = make_radio_established(Some(b"foo"));
    assert_eq!(driver.publish(b"foobar", b"payload").unwrap(), 0);
    assert!(driver.publish(b"foo", b"payload").unwrap() > 0);
}

#[test]
fn async_radio_driver_poll_eof_returns_error() {
    let transport = MockTransport::new(Vec::new());
    let mut driver = RadioDriver::<8, 32, 512, _>::new(transport).unwrap();
    assert!(driver.poll().is_err());
}

#[test]
fn async_radio_driver_poll_transport_read_error_propagates() {
    let mut driver = RadioDriver::<8, 32, 512, _>::new(ReadErrorTransport)
        .unwrap();
    assert!(driver.poll().is_err());
}

#[test]
fn async_radio_driver_ping_triggers_pong_response() {
    let ping = [
        0x04u8, 0x09, 0x04, b'P', b'I', b'N', b'G', 0x00, 0x00, b'h', b'i',
    ];
    let mut peer = Vec::new();
    peer.extend_from_slice(&dish_greeting());
    peer.extend_from_slice(&dish_ready());
    peer.extend_from_slice(&ping);

    let transport = MockTransport::new(peer);
    let mut driver = RadioDriver::<8, 32, 512, _>::new(transport).unwrap();
    while !driver.poll().unwrap() {}

    let written = driver.transport.written();
    assert!(written.len() >= 102);
    let pong_frame = &written[93..102];
    assert_eq!(pong_frame[0], 0x04);
    assert_eq!(pong_frame[1], 7);
    assert_eq!(&pong_frame[2..7], &[0x04, b'P', b'O', b'N', b'G']);
    assert_eq!(&pong_frame[7..9], b"hi");
}

#[test]
fn async_radio_driver_feed_error_writes_error_frame_and_returns_err() {
    let mut peer = Vec::new();
    peer.extend_from_slice(&dish_greeting());
    peer.extend_from_slice(&sub_ready());

    let transport = MockTransport::new(peer);
    let mut driver = RadioDriver::<8, 32, 512, _>::new(transport).unwrap();
    assert!(!driver.poll().unwrap());
    assert!(driver.poll().is_err());

    let written = driver.transport.written();
    assert!(written.len() > 93);
    assert_eq!(written[93], 0x04);
}

#[test]
fn radio_driver_chunked_read_completes_handshake() {
    let mut peer_bytes = Vec::new();
    peer_bytes.extend_from_slice(&dish_greeting());
    peer_bytes.extend_from_slice(&dish_ready());

    let mut driver = RadioDriver::<8, 32, 512, _>::new(ChunkedReadTransport {
        data: peer_bytes,
        pos: 0,
    })
    .unwrap();
    while !driver.poll().unwrap() {}
    assert_eq!(
        *driver.core.conn().state(),
        State::Established
    );
}
