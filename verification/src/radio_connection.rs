//! ZMTP 3.1 RADIO connection state machine.

use vstd::prelude::*;

use crate::auth::{AuthCheck, Mechanism};
use crate::group_table::GroupTable;
use crate::null::Role;
use crate::plain::Authenticator;
use crate::session::Session;

pub use crate::connection::{ConnError, State};
pub use crate::session::PublishHeaders;

verus! {

/// Sans-IO ZMTP 3.1 RADIO connection.
/// `GROUP_CAP` = max simultaneous group memberships per peer.
/// `GROUP_LEN_CAP` = max bytes per group name.
/// `FRAME_CAP` = max body bytes buffered in the internal frame decoder.
/// `A` = authenticator type; use the default `()` for the NULL mechanism,
///       or supply an [`Authenticator`] and construct via
///       [`RadioConnection::new_plain`] for the PLAIN mechanism.
///
/// What it has in common with a PUB connection, `feed` and `publish` among it,
/// stands in [`Session`].
pub type RadioConnection<
    const GROUP_CAP: usize,
    const GROUP_LEN_CAP: usize,
    const FRAME_CAP: usize,
    A = (),
> = Session<GroupTable<GROUP_CAP, GROUP_LEN_CAP>, FRAME_CAP, A>;

impl<const GROUP_CAP: usize, const GROUP_LEN_CAP: usize, const FRAME_CAP: usize> RadioConnection<
    GROUP_CAP,
    GROUP_LEN_CAP,
    FRAME_CAP,
    (),
> {
    /// Create a new NULL-mechanism connection in the `Greeting` state.
    #[must_use]
    pub fn new() -> (r: Self)
        ensures
            r.wf(),
            r@ == crate::session::fresh(
                Role::Radio,
                Mechanism::Null,
                FRAME_CAP as nat,
                GROUP_CAP as nat,
                GROUP_LEN_CAP as nat,
            ),
    {
        Session::start(Mechanism::Null, ())
    }
}

impl<
    const GROUP_CAP: usize,
    const GROUP_LEN_CAP: usize,
    const FRAME_CAP: usize,
> Default for RadioConnection<GROUP_CAP, GROUP_LEN_CAP, FRAME_CAP, ()> {
    fn default() -> (r: Self)
        ensures
            r.wf(),
            r@ == crate::session::fresh(
                Role::Radio,
                Mechanism::Null,
                FRAME_CAP as nat,
                GROUP_CAP as nat,
                GROUP_LEN_CAP as nat,
            ),
    {
        Self::new()
    }
}

impl<
    const GROUP_CAP: usize,
    const GROUP_LEN_CAP: usize,
    const FRAME_CAP: usize,
    A: Authenticator,
> RadioConnection<GROUP_CAP, GROUP_LEN_CAP, FRAME_CAP, A> {
    /// Create a new PLAIN-mechanism connection in the `Greeting` state.
    /// The `auth` value is called to validate credentials from each connecting peer.
    /// On authentication failure `feed` returns `ConnError::PlainError(PlainError::AuthFailed)`;
    /// call `write_error` and drop the connection.
    pub fn new_plain(auth: A) -> (r: Self)
        ensures
            r.wf(),
            r@ == crate::session::fresh(
                Role::Radio,
                Mechanism::Plain,
                FRAME_CAP as nat,
                GROUP_CAP as nat,
                GROUP_LEN_CAP as nat,
            ),
            r.authenticator() == auth,
    {
        Session::start(Mechanism::Plain, auth)
    }
}

impl<
    const GROUP_CAP: usize,
    const GROUP_LEN_CAP: usize,
    const FRAME_CAP: usize,
    A: AuthCheck,
> RadioConnection<GROUP_CAP, GROUP_LEN_CAP, FRAME_CAP, A> {
    /// Write our full 64-byte greeting into `out`. Call once after creating the connection.
    /// Returns `Ok(GREETING_LEN)` or Err if not in Greeting state or buf too small.
    ///
    /// # Errors
    /// Returns `ConnError::WrongState` if not in `Greeting` state or already sent.
    /// Returns `ConnError::BufferTooSmall` if `out` is smaller than `GREETING_LEN`.
    pub fn write_greeting(&mut self, out: &mut [u8]) -> (r: Result<usize, ConnError>)
        requires
            old(self).wf(),
        ensures
            final(self).wf(),
            Self::wrote(
                crate::session::write_whole_step(old(self)@, old(out)@.len()),
                *old(self),
                old(out)@,
                r,
                *final(self),
                final(out)@,
            ),
    {
        self.write_whole(out)
    }

    /// Write only the first 11 bytes of our greeting (signature + version major)
    /// into `out`, in place of [`RadioConnection::write_greeting`]. The rest
    /// follows with `write_greeting_rest`.
    ///
    /// # Errors
    /// Returns `ConnError::WrongState` if not in `Greeting` state or already sent.
    /// Returns `ConnError::BufferTooSmall` if `out` is smaller than `GREETING_PARTIAL_LEN`.
    pub fn write_partial_greeting(&mut self, out: &mut [u8]) -> (r: Result<usize, ConnError>)
        requires
            old(self).wf(),
        ensures
            final(self).wf(),
            Self::wrote(
                crate::session::write_head_step(old(self)@, old(out)@.len()),
                *old(self),
                old(out)@,
                r,
                *final(self),
                final(out)@,
            ),
    {
        self.write_head(out)
    }
}

} // verus!
