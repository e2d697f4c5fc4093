//! ZMTP 3.1 PUB connection state machine.

use vstd::prelude::*;

use crate::auth::{AuthCheck, Mechanism};
use crate::frame::decode_error::DecodeError;
use crate::frame::FrameError;
use crate::greeting::GreetingError;
use crate::null::{NullError, Role};
use crate::plain::{Authenticator, PlainError};
use crate::session::Session;
use crate::sub_table::SubTable;

pub use crate::session::PublishHeaders;

verus! {

/// State of the connection.
#[derive(Debug, PartialEq, Eq, Structural, Clone, Copy)]
pub enum State {
    /// Waiting to send our greeting (or awaiting peer greeting bytes).
    Greeting,
    /// Greeting exchanged; awaiting READY command from peer (NULL mechanism).
    Ready,
    /// PLAIN: greeting exchanged; awaiting HELLO command from peer.
    PlainHello,
    /// PLAIN: HELLO validated; caller must send WELCOME then READY, then await peer READY.
    PlainReady,
    /// Handshake complete; can publish messages.
    Established,
    /// Unrecoverable error; connection must be dropped.
    Failed,
}

/// Errors returned by connection operations.
#[derive(Debug, PartialEq, Eq, Structural, Clone, Copy)]
pub enum ConnError {
    /// Operation is not valid in the current [`State`].
    WrongState,
    /// Caller-provided output buffer is too small for the encoded frame.
    BufferTooSmall,
    /// Transport I/O error. The payload is `embedded_io::ErrorKind as usize`.
    IoError(usize),
    /// Peer greeting was malformed or unsupported.
    GreetingError(GreetingError),
    /// NULL mechanism error (READY/ERROR handshake).
    NullError(NullError),
    /// PLAIN mechanism error (HELLO/WELCOME handshake).
    PlainError(PlainError),
    /// Outbound frame could not be encoded.
    FrameError(FrameError),
    /// Inbound frame could not be decoded.
    DecodeError(DecodeError),
}

impl ConnError {
    /// Returns `true` if the error originated from the transport.
    pub fn is_io_error(&self) -> (r: bool)
        ensures
            r == (*self is IoError),
    {
        matches!(self, ConnError::IoError(_))
    }
}

/// Sans-IO ZMTP 3.1 PUB connection.
/// `SUB_CAP` = max simultaneous subscriptions per peer.
/// `PREFIX_CAP` = max bytes per subscription prefix.
/// `FRAME_CAP` = max body bytes buffered in the internal frame decoder.
/// `A` = authenticator type; use the default `()` for the NULL mechanism,
///       or supply an [`Authenticator`] and construct via
///       [`Connection::new_plain`] for the PLAIN mechanism.
///
/// What it has in common with a RADIO connection, `feed` and `publish` among
/// it, stands in [`Session`].
pub type Connection<
    const SUB_CAP: usize,
    const PREFIX_CAP: usize,
    const FRAME_CAP: usize,
    A = (),
> = Session<SubTable<SUB_CAP, PREFIX_CAP>, FRAME_CAP, A>;

impl<const SUB_CAP: usize, const PREFIX_CAP: usize, const FRAME_CAP: usize> Connection<
    SUB_CAP,
    PREFIX_CAP,
    FRAME_CAP,
    (),
> {
    /// Create a new NULL-mechanism connection in the `Greeting` state.
    #[must_use]
    pub fn new() -> (r: Self)
        ensures
            r.wf(),
            r@ == crate::session::fresh(
                Role::Pub,
                Mechanism::Null,
                FRAME_CAP as nat,
                SUB_CAP as nat,
                PREFIX_CAP as nat,
            ),
    {
        Session::start(Mechanism::Null, ())
    }
}

impl<const SUB_CAP: usize, const PREFIX_CAP: usize, const FRAME_CAP: usize> Default for Connection<
    SUB_CAP,
    PREFIX_CAP,
    FRAME_CAP,
    (),
> {
    fn default() -> (r: Self)
        ensures
            r.wf(),
            r@ == crate::session::fresh(
                Role::Pub,
                Mechanism::Null,
                FRAME_CAP as nat,
                SUB_CAP as nat,
                PREFIX_CAP as nat,
            ),
    {
        Self::new()
    }
}

impl<
    const SUB_CAP: usize,
    const PREFIX_CAP: usize,
    const FRAME_CAP: usize,
    A: Authenticator,
> Connection<SUB_CAP, PREFIX_CAP, FRAME_CAP, A> {
    /// Create a new PLAIN-mechanism connection in the `Greeting` state.
    /// The `auth` value is called to validate credentials from each connecting peer.
    /// On authentication failure `feed` returns `ConnError::PlainError(PlainError::AuthFailed)`;
    /// call `write_error` and drop the connection.
    pub fn new_plain(auth: A) -> (r: Self)
        ensures
            r.wf(),
            r@ == crate::session::fresh(
                Role::Pub,
                Mechanism::Plain,
                FRAME_CAP as nat,
                SUB_CAP as nat,
                PREFIX_CAP as nat,
            ),
            r.authenticator() == auth,
    {
        Session::start(Mechanism::Plain, auth)
    }
}

impl<
    const SUB_CAP: usize,
    const PREFIX_CAP: usize,
    const FRAME_CAP: usize,
    A: AuthCheck,
> Connection<SUB_CAP, PREFIX_CAP, FRAME_CAP, A> {
    /// Write the first 11 bytes of our greeting (signature + version major) into `out`.
    /// Call once after creating the connection.
    /// Returns `Ok(GREETING_PARTIAL_LEN)` or Err if not in Greeting state or buf too small.
    ///
    /// # Errors
    /// Returns `ConnError::WrongState` if not in `Greeting` state or already sent.
    /// Returns `ConnError::BufferTooSmall` if `out` is smaller than `GREETING_PARTIAL_LEN`.
    pub fn write_greeting(&mut self, out: &mut [u8]) -> (r: Result<usize, ConnError>)
        requires
            old(self).wf(),
        ensures
            final(self).wf(),
            Self::wrote(
                crate::session::write_head_step(old(self)@, old(out)@.len()),
                *old(self),
                old(out)@,
                r,
                *final(self),
                final(out)@,
            ),
    {
        self.write_head(out)
    }

    /// Write both parts of our greeting into `out` at once, in place of
    /// [`Connection::write_greeting`] and `write_greeting_rest`.
    ///
    /// # Errors
    /// Returns `ConnError::WrongState` if not in `Greeting` state or already sent.
    /// Returns `ConnError::BufferTooSmall` if `out` is smaller than `GREETING_LEN`.
    pub fn write_full_greeting(&mut self, out: &mut [u8]) -> (r: Result<usize, ConnError>)
        requires
            old(self).wf(),
        ensures
            final(self).wf(),
            Self::wrote(
                crate::session::write_full_step(old(self)@, old(out)@.len()),
                *old(self),
                old(out)@,
                r,
                *final(self),
                final(out)@,
            ),
    {
        self.write_both(out)
    }
}

} // verus!
