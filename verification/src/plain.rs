//! ZMTP PLAIN security mechanism: HELLO and WELCOME commands.
//!
//! # Security warning
//! PLAIN transmits usernames and passwords in clear text. Only use this
//! mechanism over transports that are already confidential and authenticated
//! (TLS, IPC, trusted LAN segments). Do **not** use PLAIN over untrusted
//! networks without an outer encryption layer.

use vstd::prelude::*;

use crate::auth::AuthCheck;
use crate::bytes::{put, same};
use crate::command::split_counted;

verus! {

/// Validates credentials presented by a connecting peer.
///
/// Implementations should use constant-time comparison to avoid timing side-channels.
pub trait Authenticator {
    /// Whether [`authenticate`](Authenticator::authenticate) may give this verdict
    /// on these credentials. An implementation that says nothing else may give
    /// any verdict.
    open spec fn may_decide(&self, username: Seq<u8>, password: Seq<u8>, verdict: bool) -> bool {
        true
    }

    /// Returns `true` where the credentials are good.
    fn authenticate(&self, username: &[u8], password: &[u8]) -> (verdict: bool)
        ensures
            self.may_decide(username@, password@, verdict),
    ;
}

impl<A: Authenticator> AuthCheck for A {
    open spec fn may_answer(&self, username: Seq<u8>, password: Seq<u8>, verdict: bool) -> bool {
        self.may_decide(username, password, verdict)
    }

    fn check(&self, username: &[u8], password: &[u8]) -> (verdict: bool) {
        self.authenticate(username, password)
    }
}

/// Errors from PLAIN mechanism encode/parse operations.
#[derive(Debug, PartialEq, Eq, Structural, Clone, Copy)]
pub enum PlainError {
    /// Output buffer is too small for the encoded frame.
    BufferTooSmall,
    /// Flags byte has the COMMAND bit clear — this is a message, not a command.
    NotACommand,
    /// Command name is neither "HELLO" nor "ERROR".
    UnknownCommand,
    /// HELLO frame is structurally malformed.
    MalformedHello,
    /// Credentials were rejected by the authenticator.
    /// The caller should call `write_error` and then drop the connection.
    AuthFailed,
    /// Peer sent an ERROR command.
    PeerError,
}

/// Length of the WELCOME command frame.
pub const WELCOME_LEN: usize = 10;

/// flags=0x04, size=0x08, name-size=0x07, "WELCOME"
pub const WELCOME_FRAME: [u8; WELCOME_LEN] = [
    0x04, 0x08, 0x07, 0x57, 0x45, 0x4C, 0x43, 0x4F, 0x4D, 0x45,
];

/// Encode a WELCOME command into `buf`.
/// Returns the number of bytes written (`WELCOME_LEN`) or `PlainError::BufferTooSmall`.
///
/// # Errors
/// Returns `PlainError::BufferTooSmall` if `buf` is smaller than `WELCOME_LEN`.
pub fn encode_welcome(buf: &mut [u8]) -> (r: Result<usize, PlainError>)
    ensures
        old(buf)@.len() < WELCOME_LEN ==> r == Err::<usize, PlainError>(PlainError::BufferTooSmall)
            && final(buf)@ == old(buf)@,
        old(buf)@.len() >= WELCOME_LEN ==> r == Ok::<usize, PlainError>(WELCOME_LEN)
            && final(buf)@ == crate::bytes::overwrite(old(buf)@, WELCOME_FRAME@),
{
    if buf.len() < WELCOME_LEN {
        return Err(PlainError::BufferTooSmall);
    }
    let frame: [u8; WELCOME_LEN] = WELCOME_FRAME;
    put(buf, frame.as_slice());
    Ok(WELCOME_LEN)
}

/// The data of a HELLO command.
pub open spec fn hello_data(username: Seq<u8>, password: Seq<u8>) -> Seq<u8> {
    seq![username.len() as u8] + username + seq![password.len() as u8] + password
}

/// The user name and the password in the data of a HELLO command. Bytes after
/// the password do not count.
pub open spec fn credentials(data: Seq<u8>) -> Option<(Seq<u8>, Seq<u8>)> {
    match crate::command::counted(data) {
        None => None,
        Some((username, rest)) => match crate::command::counted(rest) {
            None => None,
            Some((password, _)) => Some((username, password)),
        },
    }
}

/// The credentials in a frame that should be a peer's HELLO.
pub open spec fn hello_verdict(is_command: bool, body: Seq<u8>) -> Result<
    (Seq<u8>, Seq<u8>),
    PlainError,
> {
    if !is_command {
        Err(PlainError::NotACommand)
    } else {
        match crate::command::counted(body) {
            None => Err(PlainError::MalformedHello),
            Some((name, data)) => if name == crate::command::ERROR@ {
                Err(PlainError::PeerError)
            } else if name != crate::command::HELLO@ {
                Err(PlainError::UnknownCommand)
            } else {
                match credentials(data) {
                    None => Err(PlainError::MalformedHello),
                    Some(pair) => Ok(pair),
                }
            },
        }
    }
}

/// The result of a HELLO parse as a value.
pub open spec fn credentials_of(r: Result<(&[u8], &[u8]), PlainError>) -> Result<
    (Seq<u8>, Seq<u8>),
    PlainError,
> {
    match r {
        Ok((username, password)) => Ok((username@, password@)),
        Err(e) => Err(e),
    }
}

/// Parse a HELLO command from structured frame data.
/// Returns `(username, password)` slices into `body` on success.
///
/// HELLO body layout: `name_len(1)` + "HELLO"(5) + `username_len(1)` + username + `password_len(1)` + password
///
/// # Errors
/// Returns `PlainError::NotACommand` if `is_command` is false.
/// Returns `PlainError::MalformedHello` if the body is structurally invalid.
/// Returns `PlainError::PeerError` if the command name is "ERROR".
/// Returns `PlainError::UnknownCommand` if the command name is not "HELLO" or "ERROR".
pub fn parse_hello_from(is_command: bool, body: &[u8]) -> (r: Result<(&[u8], &[u8]), PlainError>)
    ensures
        credentials_of(r) == hello_verdict(is_command, body@),
{
    if !is_command {
        return Err(PlainError::NotACommand);
    }
    let (name, data) = match split_counted(body) {
        None => {
            return Err(PlainError::MalformedHello);
        },
        Some(parts) => parts,
    };
    let error: [u8; 5] = crate::command::ERROR;
    let hello: [u8; 5] = crate::command::HELLO;
    if same(name, error.as_slice()) {
        return Err(PlainError::PeerError);
    }
    if !same(name, hello.as_slice()) {
        return Err(PlainError::UnknownCommand);
    }
    let (username, rest) = match split_counted(data) {
        None => {
            return Err(PlainError::MalformedHello);
        },
        Some(parts) => parts,
    };
    match split_counted(rest) {
        None => Err(PlainError::MalformedHello),
        Some((password, _)) => Ok((username, password)),
    }
}

/// The WELCOME frame is the WELCOME command without data.
pub proof fn law_welcome_is_a_command()
    ensures
        WELCOME_FRAME@ == crate::command::command_frame(
            crate::command::WELCOME@,
            Seq::<u8>::empty(),
        ),
{
    assert(WELCOME_FRAME@ =~= crate::command::command_frame(
        crate::command::WELCOME@,
        Seq::<u8>::empty(),
    ));
}

/// The credentials that a HELLO command was made of are the ones read from it.
pub proof fn law_hello_round_trip(username: Seq<u8>, password: Seq<u8>)
    requires
        username.len() <= 255,
        password.len() <= 255,
    ensures
        hello_verdict(
            true,
            crate::command::command_body(crate::command::HELLO@, hello_data(username, password)),
        ) == Ok::<(Seq<u8>, Seq<u8>), PlainError>((username, password)),
{
    let data = hello_data(username, password);
    crate::command::law_command_round_trip(crate::command::HELLO@, data);
    assert(crate::command::HELLO@[0] != crate::command::ERROR@[0]);
    let rest = seq![password.len() as u8] + password;
    assert(data[0] == username.len());
    assert(data.subrange(1, 1 + data[0]) =~= username);
    assert(data.skip(1 + data[0]) =~= rest);
    assert(rest[0] == password.len());
    assert(rest.subrange(1, 1 + rest[0]) =~= password);
}

/// With an authenticator the verdict is its own, whatever the credentials are.
pub proof fn law_authenticator_decides<A: Authenticator>(
    auth: A,
    username: Seq<u8>,
    password: Seq<u8>,
    verdict: bool,
)
    ensures
        auth.may_answer(username, password, verdict) <==> auth.may_decide(
            username,
            password,
            verdict,
        ),
{
}

/// Without an authenticator no credentials are good.
pub proof fn law_unit_accepts_nobody(username: Seq<u8>, password: Seq<u8>, verdict: bool)
    requires
        ().may_answer(username, password, verdict),
    ensures
        !verdict,
{
}

/// The bytes begin with two strings, each with its length in one byte in front: the
/// user name and the password. What follows does not count.
pub open spec fn holds_credentials(data: Seq<u8>, username: Seq<u8>, password: Seq<u8>) -> bool {
    let n = username.len() as int;
    &&& data.len() >= 2 + n + password.len()
    &&& data[0] == n
    &&& data.subrange(1, 1 + n) =~= username
    &&& data[1 + n] == password.len()
    &&& data.subrange(2 + n, 2 + n + password.len()) =~= password
}

/// A HELLO is read where it is a command named HELLO whose data begin with a user
/// name and a password, and what is read are these two.
pub proof fn law_hello_is_read(
    is_command: bool,
    name: Seq<u8>,
    data: Seq<u8>,
    username: Seq<u8>,
    password: Seq<u8>,
)
    requires
        name.len() <= 255,
    ensures
        hello_verdict(is_command, seq![name.len() as u8] + name + data) == Ok::<
            (Seq<u8>, Seq<u8>),
            PlainError,
        >((username, password)) <==> is_command && name =~= seq![
            0x48u8,
            0x45,
            0x4C,
            0x4C,
            0x4F,
        ] && holds_credentials(data, username, password),
{
    let body = seq![name.len() as u8] + name + data;
    crate::command::law_command_round_trip(name, data);
    assert(seq![0x48u8, 0x45, 0x4C, 0x4C, 0x4F] =~= crate::command::HELLO@);
    assert(crate::command::HELLO@[0] != crate::command::ERROR@[0]);
    if holds_credentials(data, username, password) {
        let rest = data.skip(1 + data[0]);
        assert(data.subrange(1, 1 + data[0]) =~= username);
        assert(rest[0] == password.len());
        assert(rest.subrange(1, 1 + rest[0]) =~= password);
    }
    if credentials(data) == Some((username, password)) {
        let rest = data.skip(1 + data[0]);
        assert(rest[0] == data[1 + data[0]]);
        assert(rest.subrange(1, 1 + rest[0]) =~= data.subrange(
            2 + username.len() as int,
            (2 + username.len() + password.len()) as int,
        ));
    }
}

/// What is no HELLO is refused: a message, a body that is too short for the name that
/// it announces, an ERROR with whatever data, any other command, and a HELLO that
/// breaks off in its user name or its password.
pub proof fn law_what_is_no_hello(body: Seq<u8>, name: Seq<u8>, data: Seq<u8>)
    requires
        name.len() <= 255,
    ensures
        hello_verdict(false, body) == Err::<(Seq<u8>, Seq<u8>), PlainError>(
            PlainError::NotACommand,
        ),
        body.len() == 0 || body[0] >= body.len() ==> hello_verdict(true, body) == Err::<
            (Seq<u8>, Seq<u8>),
            PlainError,
        >(PlainError::MalformedHello),
        ({
            let read = hello_verdict(true, seq![name.len() as u8] + name + data);
            if name =~= seq![0x45u8, 0x52, 0x52, 0x4F, 0x52] {
                read == Err::<(Seq<u8>, Seq<u8>), PlainError>(PlainError::PeerError)
            } else if !(name =~= seq![0x48u8, 0x45, 0x4C, 0x4C, 0x4F]) {
                read == Err::<(Seq<u8>, Seq<u8>), PlainError>(PlainError::UnknownCommand)
            } else if data.len() == 0 || data.len() < 2 + data[0] || data.len() < 2 + data[0]
                + data[1 + data[0]] {
                read == Err::<(Seq<u8>, Seq<u8>), PlainError>(PlainError::MalformedHello)
            } else {
                read is Ok
            }
        }),
{
    crate::command::law_command_round_trip(name, data);
    assert(seq![0x45u8, 0x52, 0x52, 0x4F, 0x52] =~= crate::command::ERROR@);
    assert(seq![0x48u8, 0x45, 0x4C, 0x4C, 0x4F] =~= crate::command::HELLO@);
    if data.len() > 0 && data.len() > 1 + data[0] {
        assert(data.skip(1 + data[0])[0] == data[1 + data[0]]);
    }
}

} // verus!
