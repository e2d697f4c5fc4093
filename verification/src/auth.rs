//! Security mechanisms and the hook through which a connection asks whether
//! credentials are good.

use vstd::prelude::*;

verus! {

/// The security mechanism that a connection speaks.
#[non_exhaustive]
#[derive(Debug, Clone, Copy, PartialEq, Eq, Structural)]
pub enum Mechanism {
    /// No authentication.
    Null,
    /// User name and password, with this side as the server.
    Plain,
}

/// Decides about credentials on behalf of a connection.
pub trait AuthCheck {
    /// Whether [`check`](AuthCheck::check) may give this verdict on these credentials.
    spec fn may_answer(&self, username: Seq<u8>, password: Seq<u8>, verdict: bool) -> bool;

    /// Returns `true` where the credentials are good.
    fn check(&self, username: &[u8], password: &[u8]) -> (verdict: bool)
        ensures
            self.may_answer(username@, password@, verdict),
    ;
}

impl AuthCheck for () {
    open spec fn may_answer(&self, username: Seq<u8>, password: Seq<u8>, verdict: bool) -> bool {
        !verdict
    }

    fn check(&self, _username: &[u8], _password: &[u8]) -> (verdict: bool) {
        false
    }
}

} // verus!
