//! Properties of the driver cores on concrete values.

use mzmq::auth::AuthCheck;
use mzmq::connection::{ConnError, Connection, State};
use mzmq::greeting::{encode_greeting, encode_plain_greeting};
use mzmq::io::blocking::{BlockingCore, BlockingDriverCore, BlockingRadioDriverCore, Demand};
use mzmq::io::driver::{Action, Core, DriverCore, RadioDriverCore};
use mzmq::null::{NullError, RADIO_READY_FRAME, READY_FRAME};
use mzmq::plain::{Authenticator, PlainError};
use mzmq::radio_connection::RadioConnection;
use mzmq::registry::Registry;

struct Only(&'static [u8], &'static [u8]);

impl Authenticator for Only {
    fn authenticate(&self, username: &[u8], password: &[u8]) -> bool {
        username == self.0 && password == self.1
    }
}

fn null_greeting() -> [u8; 64] {
    let mut g = [0u8; 64];
    encode_greeting(&mut g);
    g
}

fn plain_client_greeting() -> [u8; 64] {
    let mut g = [0u8; 64];
    encode_plain_greeting(&mut g);
    g[32] = 0;
    g
}

fn command(name: &[u8], data: &[u8]) -> Vec<u8> {
    let mut f = vec![0x04, (1 + name.len() + data.len()) as u8, name.len() as u8];
    f.extend_from_slice(name);
    f.extend_from_slice(data);
    f
}

fn ready(socket_type: &[u8]) -> Vec<u8> {
    let mut data = vec![11u8];
    data.extend_from_slice(b"Socket-Type");
    data.extend_from_slice(&(socket_type.len() as u32).to_be_bytes());
    data.extend_from_slice(socket_type);
    command(b"READY", &data)
}

fn hello(user: &[u8], pass: &[u8]) -> Vec<u8> {
    let mut data = vec![user.len() as u8];
    data.extend_from_slice(user);
    data.push(pass.len() as u8);
    data.extend_from_slice(pass);
    command(b"HELLO", &data)
}

fn error_frame() -> Vec<u8> {
    command(b"ERROR", b"\x13Invalid socket type")
}

fn joined(parts: &[&[u8]]) -> Vec<u8> {
    parts.concat()
}

/// What a core asks for, with the bytes copied out.
#[derive(Debug, PartialEq)]
enum Asked {
    Read,
    Write(Vec<u8>),
    Farewell(Vec<u8>),
    Done(bool),
}

fn asked(r: Result<Demand<'_>, ConnError>) -> Result<Asked, ConnError> {
    r.map(|d| match d {
        Demand::Read => Asked::Read,
        Demand::Write(b) => Asked::Write(b.to_vec()),
        Demand::Farewell(b) => Asked::Farewell(b.to_vec()),
        Demand::Done(e) => Asked::Done(e),
    })
}

#[derive(Debug, PartialEq)]
enum Next {
    Read,
    Write(Vec<u8>),
    Established,
    Parked,
}

fn next(r: Result<Action<'_>, ConnError>) -> Result<Next, ConnError> {
    r.map(|a| match a {
        Action::Read => Next::Read,
        Action::Write(b) => Next::Write(b.to_vec()),
        Action::Established => Next::Established,
        Action::Parked => Next::Parked,
    })
}

fn blocking() -> BlockingDriverCore<4, 8, 64> {
    let mut conn: Connection<4, 8, 64> = Connection::new();
    let mut out = [0u8; 64];
    conn.write_greeting(&mut out).unwrap();
    BlockingDriverCore::<4, 8, 64>::new(conn)
}

#[test]
fn a_blocking_handshake_takes_two_polls() {
    let mut core = blocking();
    assert_eq!(asked(core.poll()), Ok(Asked::Read));
    let peer = joined(&[&null_greeting(), &ready(b"SUB")]);
    core.rx_slot()[..peer.len()].copy_from_slice(&peer);
    assert_eq!(
        asked(core.received(peer.len())),
        Ok(Asked::Write(null_greeting()[11..].to_vec()))
    );
    assert_eq!(asked(core.wrote()), Ok(Asked::Write(READY_FRAME.to_vec())));
    assert_eq!(asked(core.wrote()), Ok(Asked::Done(false)));
    assert_eq!(asked(core.poll()), Ok(Asked::Done(true)));
    assert_eq!(core.conn().state(), &State::Established);
    assert_eq!(core.rx_slot().len(), 512);
}

#[test]
fn a_blocking_plain_handshake() {
    let mut conn: Connection<4, 8, 64, Only> = Connection::new_plain(Only(b"u", b"p"));
    let mut out = [0u8; 64];
    conn.write_greeting(&mut out).unwrap();
    let mut core = BlockingDriverCore::<4, 8, 64, Only>::new(conn);
    let peer = joined(&[&plain_client_greeting(), &hello(b"u", b"p"), &ready(b"XSUB")]);
    core.rx_slot()[..peer.len()].copy_from_slice(&peer);
    let mut ours = [0u8; 64];
    encode_plain_greeting(&mut ours);
    assert_eq!(
        asked(core.received(peer.len())),
        Ok(Asked::Write(ours[11..].to_vec()))
    );
    assert_eq!(
        asked(core.wrote()),
        Ok(Asked::Write(command(b"WELCOME", b"")))
    );
    assert_eq!(asked(core.wrote()), Ok(Asked::Write(READY_FRAME.to_vec())));
    assert_eq!(asked(core.wrote()), Ok(Asked::Done(false)));
    assert_eq!(asked(core.poll()), Ok(Asked::Done(true)));
}

#[test]
fn a_blocking_driver_refuses_bad_credentials() {
    let mut conn: Connection<4, 8, 64, Only> = Connection::new_plain(Only(b"u", b"p"));
    let mut out = [0u8; 64];
    conn.write_greeting(&mut out).unwrap();
    let mut core = BlockingDriverCore::<4, 8, 64, Only>::new(conn);
    let peer = joined(&[&plain_client_greeting(), &hello(b"u", b"x")]);
    core.rx_slot()[..peer.len()].copy_from_slice(&peer);
    assert!(matches!(core.received(peer.len()), Ok(Demand::Write(_))));
    assert_eq!(asked(core.wrote()), Ok(Asked::Farewell(error_frame())));
    assert_eq!(
        asked(core.wrote()),
        Err(ConnError::PlainError(PlainError::AuthFailed))
    );
    assert_eq!(core.conn().state(), &State::Failed);
}

#[test]
fn a_poll_that_was_given_up_begins_anew() {
    let mut core = blocking();
    let peer = joined(&[&null_greeting(), &ready(b"SUB")]);
    core.rx_slot()[..peer.len()].copy_from_slice(&peer);
    // The rest of the greeting could not be written.
    assert!(matches!(core.received(peer.len()), Ok(Demand::Write(_))));
    // All received bytes are still there, and READY goes first.
    assert_eq!(core.rx_slot().len(), 512 - peer.len());
    assert_eq!(asked(core.poll()), Ok(Asked::Write(READY_FRAME.to_vec())));
    assert_eq!(asked(core.wrote()), Ok(Asked::Done(false)));
}

#[test]
fn a_blocking_radio_driver_answers_a_wrong_peer() {
    let mut conn: RadioConnection<4, 8, 64> = RadioConnection::new();
    let mut out = [0u8; 64];
    conn.write_partial_greeting(&mut out).unwrap();
    let mut core = BlockingRadioDriverCore::<4, 8, 64>::new(conn);
    let peer = joined(&[&null_greeting(), &ready(b"SUB")]);
    core.rx_slot()[..peer.len()].copy_from_slice(&peer);
    assert!(matches!(core.received(peer.len()), Ok(Demand::Write(_))));
    assert_eq!(
        asked(core.wrote()),
        Ok(Asked::Write(RADIO_READY_FRAME.to_vec()))
    );
    assert_eq!(asked(core.wrote()), Ok(Asked::Done(false)));
    assert_eq!(asked(core.poll()), Ok(Asked::Farewell(error_frame())));
    assert_eq!(
        asked(core.wrote()),
        Err(ConnError::NullError(NullError::WrongSocketType))
    );
}

#[test]
fn a_pong_does_not_stop_a_blocking_poll() {
    let mut core = blocking();
    let peer = joined(&[&null_greeting(), &ready(b"SUB")]);
    core.rx_slot()[..peer.len()].copy_from_slice(&peer);
    assert!(core.received(peer.len()).is_ok());
    assert!(core.wrote().is_ok());
    assert!(core.wrote().is_ok());
    let more = joined(&[
        &command(b"PING", b"\x00\x00one"),
        &command(b"SUBSCRIBE", b"t"),
        &command(b"PING", b"\x00\x00two"),
    ]);
    assert_eq!(asked(core.poll()), Ok(Asked::Done(true)));
    assert_eq!(asked(core.poll()), Ok(Asked::Read));
    core.rx_slot()[..more.len()].copy_from_slice(&more);
    assert_eq!(
        asked(core.received(more.len())),
        Ok(Asked::Write(command(b"PONG", b"one")))
    );
    assert_eq!(
        asked(core.wrote()),
        Ok(Asked::Write(command(b"PONG", b"two")))
    );
    assert_eq!(asked(core.wrote()), Ok(Asked::Done(true)));
    assert!(core.publish_headers(b"topic", b"").unwrap().is_some());
    assert!(core.publish_headers(b"other", b"").unwrap().is_none());
}

#[test]
fn steps_of_a_radio_handshake() {
    let mut conn: RadioConnection<4, 8, 64> = RadioConnection::new();
    let mut out = [0u8; 64];
    conn.write_greeting(&mut out).unwrap();
    let mut core = RadioDriverCore::<4, 8, 64>::new(conn);
    assert_eq!(next(core.step()), Ok(Next::Read));
    let peer = joined(&[&null_greeting(), &ready(b"DISH")]);
    core.rx_slot()[..peer.len()].copy_from_slice(&peer);
    core.advance_rx(peer.len());
    assert_eq!(
        next(core.step()),
        Ok(Next::Write(RADIO_READY_FRAME.to_vec()))
    );
    assert!(!core.is_established());
    assert_eq!(next(core.step()), Ok(Next::Established));
    assert!(core.is_established());
    assert_eq!(next(core.step()), Ok(Next::Read));
}

#[test]
fn steps_of_a_plain_handshake() {
    let mut conn: Connection<4, 8, 64, Only> = Connection::new_plain(Only(b"u", b"p"));
    let mut out = [0u8; 64];
    conn.write_full_greeting(&mut out).unwrap();
    let mut core = DriverCore::new_plain(conn);
    let peer = joined(&[&plain_client_greeting(), &hello(b"u", b"p"), &ready(b"SUB")]);
    core.rx_slot()[..peer.len()].copy_from_slice(&peer);
    core.advance_rx(peer.len());
    assert_eq!(next(core.step()), Ok(Next::Write(command(b"WELCOME", b""))));
    assert_eq!(next(core.step()), Ok(Next::Write(READY_FRAME.to_vec())));
    assert_eq!(next(core.step()), Ok(Next::Established));
}

#[test]
fn a_failed_core_reports_once_and_then_only_its_state() {
    let mut conn: Connection<4, 8, 64> = Connection::new();
    let mut out = [0u8; 64];
    conn.write_full_greeting(&mut out).unwrap();
    let mut core = DriverCore::new_null(conn);
    let peer = joined(&[&null_greeting(), &ready(b"PUSH")]);
    core.rx_slot()[..peer.len()].copy_from_slice(&peer);
    core.advance_rx(peer.len());
    assert_eq!(next(core.step()), Ok(Next::Write(READY_FRAME.to_vec())));
    assert_eq!(next(core.step()), Ok(Next::Write(error_frame())));
    assert_eq!(
        next(core.step()),
        Err(ConnError::NullError(NullError::WrongSocketType))
    );
    assert_eq!(next(core.step()), Err(ConnError::WrongState));
}

#[test]
fn an_error_that_does_not_fail_the_session_drops_nothing() {
    let mut conn: Connection<4, 8, 64> = Connection::new();
    let mut out = [0u8; 64];
    conn.write_full_greeting(&mut out).unwrap();
    let mut core = DriverCore::new_null(conn);
    let mut bad = null_greeting();
    bad[10] = 2;
    core.rx_slot()[..64].copy_from_slice(&bad);
    core.advance_rx(64);
    assert!(matches!(
        core.step(),
        Err(ConnError::GreetingError(_))
    ));
    assert_eq!(core.rx_slot().len(), 512 - 64);
    assert_eq!(core.conn().state(), &State::Greeting);
}

/// Reads the pieces one after the other, with all steps between two of them.
/// Returns what was written, and what the last step came to.
fn drive<R: Registry, const F: usize, A: AuthCheck>(
    core: &mut Core<R, F, A>,
    pieces: &[&[u8]],
) -> (Vec<u8>, Result<Next, ConnError>) {
    let mut written = Vec::new();
    let mut last = Ok(Next::Read);
    for piece in pieces {
        assert_eq!(last, Ok(Next::Read));
        core.rx_slot()[..piece.len()].copy_from_slice(piece);
        core.advance_rx(piece.len());
        loop {
            last = next(core.step());
            match &last {
                Ok(Next::Write(bytes)) => written.extend_from_slice(bytes),
                _ => break,
            }
        }
    }
    (written, last)
}

/// The same with polls.
fn poll_through<R: Registry, const F: usize, A: AuthCheck>(
    core: &mut BlockingCore<R, F, A>,
    pieces: &[&[u8]],
) -> (Vec<u8>, Result<Asked, ConnError>) {
    let mut written = Vec::new();
    let mut last = asked(core.poll());
    for piece in pieces {
        assert_eq!(last, Ok(Asked::Read));
        core.rx_slot()[..piece.len()].copy_from_slice(piece);
        last = asked(core.received(piece.len()));
        loop {
            last = match &last {
                Ok(Asked::Write(bytes)) => {
                    written.extend_from_slice(bytes);
                    asked(core.wrote())
                }
                Ok(Asked::Done(false)) => asked(core.poll()),
                _ => break,
            };
        }
    }
    (written, last)
}

/// A PUB driver that has written the first 11 bytes of its greeting.
fn pub_core_in_two_parts() -> DriverCore<4, 8, 64> {
    let mut conn: Connection<4, 8, 64> = Connection::new();
    let mut out = [0u8; 64];
    conn.write_greeting(&mut out).unwrap();
    DriverCore::new_null(conn)
}

/// A PUB driver that has written its whole greeting.
fn pub_core_at_once() -> DriverCore<4, 8, 64> {
    let mut conn: Connection<4, 8, 64> = Connection::new();
    let mut out = [0u8; 64];
    conn.write_full_greeting(&mut out).unwrap();
    DriverCore::new_null(conn)
}

/// A RADIO driver that has written the first 11 bytes of its greeting.
fn radio_core_in_two_parts() -> RadioDriverCore<4, 8, 64> {
    let mut conn: RadioConnection<4, 8, 64> = RadioConnection::new();
    let mut out = [0u8; 64];
    conn.write_partial_greeting(&mut out).unwrap();
    RadioDriverCore::<4, 8, 64>::new(conn)
}

fn give<R: Registry, const F: usize, A: AuthCheck>(core: &mut Core<R, F, A>, bytes: &[u8]) {
    core.rx_slot()[..bytes.len()].copy_from_slice(bytes);
    core.advance_rx(bytes.len());
}

#[test]
fn ready_waits_for_the_next_step_after_a_greeting_in_two_reads() {
    let mut core = pub_core_in_two_parts();
    let g = null_greeting();
    give(&mut core, &g[..20]);
    assert_eq!(next(core.step()), Ok(Next::Write(g[11..].to_vec())));
    assert_eq!(next(core.step()), Ok(Next::Read));
    give(&mut core, &g[20..]);
    assert_eq!(next(core.step()), Ok(Next::Read));
    assert_eq!(core.conn().state(), &State::Ready);
    give(&mut core, &ready(b"SUB"));
    assert_eq!(next(core.step()), Ok(Next::Write(READY_FRAME.to_vec())));
    assert_eq!(next(core.step()), Ok(Next::Established));
}

#[test]
fn a_read_that_overruns_the_second_part_of_a_greeting_fails() {
    let mut core = pub_core_in_two_parts();
    let g = null_greeting();
    give(&mut core, &g[..11]);
    assert_eq!(next(core.step()), Ok(Next::Write(g[11..].to_vec())));
    let more = joined(&[&g[11..], &ready(b"SUB")]);
    give(&mut core, &more);
    assert_eq!(next(core.step()), Err(ConnError::WrongState));
    assert_eq!(core.rx_slot().len(), 512 - more.len());
    assert_eq!(core.conn().state(), &State::Ready);
}

#[test]
fn a_radio_driver_writes_ready_with_the_end_of_the_greeting() {
    let mut core = radio_core_in_two_parts();
    let g = null_greeting();
    give(&mut core, &g[..11]);
    assert_eq!(next(core.step()), Ok(Next::Write(g[11..].to_vec())));
    give(&mut core, &joined(&[&g[11..], &ready(b"DISH")]));
    assert_eq!(
        next(core.step()),
        Ok(Next::Write(RADIO_READY_FRAME.to_vec()))
    );
    assert_eq!(next(core.step()), Ok(Next::Established));
}

#[test]
fn a_null_handshake_may_be_cut_anywhere() {
    let g = null_greeting();
    let peer = joined(&[&g, &ready(b"SUB")]);
    let dish = joined(&[&g, &ready(b"DISH")]);
    let both = joined(&[&g[11..], &READY_FRAME]);
    let radio = joined(&[&g[11..], &RADIO_READY_FRAME]);
    for cut in 1..peer.len() {
        let pieces = [&peer[..cut], &peer[cut..]];
        let mut core = pub_core_at_once();
        assert_eq!(
            drive(&mut core, &pieces),
            (READY_FRAME.to_vec(), Ok(Next::Established))
        );
        assert!(core.is_established());
        let mut core = pub_core_in_two_parts();
        let end = drive(&mut core, &pieces);
        if (11..64).contains(&cut) {
            assert_eq!(end, (g[11..].to_vec(), Err(ConnError::WrongState)));
        } else {
            assert_eq!(end, (both.clone(), Ok(Next::Established)));
        }
        let mut core = blocking();
        assert_eq!(
            poll_through(&mut core, &pieces),
            (both.clone(), Ok(Asked::Done(true)))
        );
        let mut core = radio_core_in_two_parts();
        assert_eq!(
            drive(&mut core, &[&dish[..cut], &dish[cut..]]),
            (radio.clone(), Ok(Next::Established))
        );
    }
}

#[test]
fn a_null_handshake_may_come_byte_by_byte() {
    let g = null_greeting();
    let peer = joined(&[&g, &ready(b"SUB")]);
    let pieces: Vec<&[u8]> = peer.chunks(1).collect();
    let both = joined(&[&g[11..], &READY_FRAME]);
    let mut core = pub_core_in_two_parts();
    assert_eq!(
        drive(&mut core, &pieces),
        (both.clone(), Ok(Next::Established))
    );
    let mut core = pub_core_at_once();
    assert_eq!(
        drive(&mut core, &pieces),
        (READY_FRAME.to_vec(), Ok(Next::Established))
    );
    let mut core = blocking();
    assert_eq!(
        poll_through(&mut core, &pieces),
        (both, Ok(Asked::Done(true)))
    );
}

#[test]
fn a_plain_handshake_may_be_cut_anywhere() {
    let peer = joined(&[&plain_client_greeting(), &hello(b"u", b"p"), &ready(b"SUB")]);
    let mut ours = [0u8; 64];
    encode_plain_greeting(&mut ours);
    let answers = joined(&[&ours[11..], &command(b"WELCOME", b""), &READY_FRAME]);
    for cut in 1..peer.len() {
        let pieces = [&peer[..cut], &peer[cut..]];
        let mut out = [0u8; 64];
        let mut conn: Connection<4, 8, 64, Only> = Connection::new_plain(Only(b"u", b"p"));
        conn.write_greeting(&mut out).unwrap();
        let mut core = DriverCore::new_plain(conn);
        assert_eq!(
            drive(&mut core, &pieces),
            (answers.clone(), Ok(Next::Established))
        );
        let mut conn: Connection<4, 8, 64, Only> = Connection::new_plain(Only(b"u", b"p"));
        conn.write_full_greeting(&mut out).unwrap();
        let mut core = DriverCore::new_plain(conn);
        assert_eq!(
            drive(&mut core, &pieces),
            (answers[53..].to_vec(), Ok(Next::Established))
        );
        let mut conn: Connection<4, 8, 64, Only> = Connection::new_plain(Only(b"u", b"p"));
        conn.write_greeting(&mut out).unwrap();
        let mut core = BlockingDriverCore::<4, 8, 64, Only>::new(conn);
        assert_eq!(
            poll_through(&mut core, &pieces),
            (answers.clone(), Ok(Asked::Done(true)))
        );
    }
}

#[test]
fn a_plain_handshake_writes_the_rest_of_the_greeting_first() {
    let mut conn: Connection<4, 8, 64, Only> = Connection::new_plain(Only(b"u", b"p"));
    let mut out = [0u8; 64];
    conn.write_greeting(&mut out).unwrap();
    let mut core = DriverCore::new_plain(conn);
    let mut ours = [0u8; 64];
    encode_plain_greeting(&mut ours);
    give(
        &mut core,
        &joined(&[&plain_client_greeting(), &hello(b"u", b"p"), &ready(b"SUB")]),
    );
    assert_eq!(next(core.step()), Ok(Next::Write(ours[11..].to_vec())));
    assert_eq!(next(core.step()), Ok(Next::Write(command(b"WELCOME", b""))));
    assert_eq!(next(core.step()), Ok(Next::Write(READY_FRAME.to_vec())));
    assert_eq!(next(core.step()), Ok(Next::Established));
}

/// The same command with its size in eight bytes.
fn long_form(short: &[u8]) -> Vec<u8> {
    let mut f = vec![short[0] | 0x02, 0, 0, 0, 0, 0, 0, 0];
    f.extend_from_slice(&short[1..]);
    f
}

#[test]
fn a_ready_may_come_in_any_form() {
    let mut data = b"\x08Identity\x00\x00\x00\x02me".to_vec();
    data.extend_from_slice(b"\x0bsocket-TYPE\x00\x00\x00\x03SUB");
    data.extend_from_slice(b"\x01X\x00\x00\x00\x01y");
    let peer = joined(&[&null_greeting(), &long_form(&command(b"READY", &data))]);
    for cut in 1..peer.len() {
        let pieces = [&peer[..cut], &peer[cut..]];
        let mut core = pub_core_at_once();
        assert_eq!(
            drive(&mut core, &pieces),
            (READY_FRAME.to_vec(), Ok(Next::Established))
        );
        let mut core = blocking();
        assert_eq!(poll_through(&mut core, &pieces).1, Ok(Asked::Done(true)));
    }
}

#[test]
fn a_hello_may_come_in_any_form() {
    let mut data = b"\x01u\x01p".to_vec();
    data.extend_from_slice(b"and more");
    let peer = joined(&[
        &plain_client_greeting(),
        &long_form(&command(b"HELLO", &data)),
        &ready(b"SUB"),
    ]);
    for cut in 1..peer.len() {
        let mut conn: Connection<4, 8, 64, Only> = Connection::new_plain(Only(b"u", b"p"));
        let mut out = [0u8; 64];
        conn.write_full_greeting(&mut out).unwrap();
        let mut core = DriverCore::new_plain(conn);
        assert_eq!(
            drive(&mut core, &[&peer[..cut], &peer[cut..]]),
            (
                joined(&[&command(b"WELCOME", b""), &READY_FRAME]),
                Ok(Next::Established)
            )
        );
    }
}
