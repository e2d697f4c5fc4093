//! The 64-byte ZMTP greeting: signature, version, mechanism and role.

use vstd::prelude::*;
use vstd::slice::slice_subrange;

use crate::auth::Mechanism;
use crate::bytes::{copy_into, same};

verus! {

/// Fixed size of a ZMTP 3.1 greeting frame in bytes.
pub const GREETING_LEN: usize = 64;

/// Number of bytes in the partial greeting (signature + version major).
/// VERSION_MAJOR is the index of that byte, so +1 gives the length.
pub const GREETING_PARTIAL_LEN: usize = VERSION_MAJOR + 1;

/// Number of bytes that follow the partial greeting.
pub const GREETING_REST_LEN: usize = GREETING_LEN - GREETING_PARTIAL_LEN;

/// First byte of the signature.
pub const SIG0: usize = 0;

/// Last byte of the signature.
pub const SIG9: usize = 9;

/// Major version.
pub const VERSION_MAJOR: usize = 10;

/// Minor version.
pub const VERSION_MINOR: usize = 11;

/// First byte of the mechanism name.
pub const MECHANISM: usize = 12;

/// Role within the mechanism.
pub const AS_SERVER: usize = 32;

/// The mechanism field of NULL: the name, padded with zero bytes.
const NULL_NAME: [u8; 20] = [
    0x4E, 0x55, 0x4C, 0x4C, 0, 0, 0, 0, 0, 0, 0, 0, 0, 0, 0, 0, 0, 0, 0, 0,
];

/// The mechanism field of PLAIN: the name, padded with zero bytes.
const PLAIN_NAME: [u8; 20] = [
    0x50, 0x4C, 0x41, 0x49, 0x4E, 0, 0, 0, 0, 0, 0, 0, 0, 0, 0, 0, 0, 0, 0, 0,
];

/// `n` zero bytes.
pub open spec fn zeros(n: nat) -> Seq<u8> {
    Seq::new(n, |i: int| 0u8)
}

/// The 20-byte mechanism field: the mechanism's name in ASCII, then zero bytes.
pub open spec fn mechanism_field(mechanism: Mechanism) -> Seq<u8> {
    match mechanism {
        Mechanism::Null => seq![0x4Eu8, 0x55, 0x4C, 0x4C] + zeros(16),
        Mechanism::Plain => seq![0x50u8, 0x4C, 0x41, 0x49, 0x4E] + zeros(15),
    }
}

/// Our own greeting: ZMTP 3.1, and the server role where the mechanism has roles.
pub open spec fn our_greeting(mechanism: Mechanism) -> Seq<u8> {
    seq![0xFFu8] + zeros(8) + seq![0x7Fu8, 0x03, 0x01] + mechanism_field(mechanism) + seq![
        (if mechanism == Mechanism::Plain {
            1u8
        } else {
            0u8
        }),
    ] + zeros(31)
}

/// The verdict on the first bytes of a peer's greeting.
pub open spec fn partial_verdict(s: Seq<u8>) -> Result<(), GreetingError> {
    if s[0] != 0xFF || s[9] != 0x7F {
        Err(GreetingError::InvalidSignature)
    } else if s[10] != 0x03 {
        Err(GreetingError::UnsupportedVersionMajor)
    } else {
        Ok(())
    }
}

/// The verdict on a peer's whole greeting: its minor version, or the first
/// thing that is wrong with it. The peer has to name exactly our mechanism and
/// may not claim the server role.
pub open spec fn greeting_verdict(mechanism: Mechanism, s: Seq<u8>) -> Result<u8, GreetingError> {
    match partial_verdict(s) {
        Err(e) => Err(e),
        Ok(_) => if s.subrange(12, 32) != mechanism_field(mechanism) {
            Err(GreetingError::UnsupportedMechanism)
        } else if s[32] != 0 {
            Err(GreetingError::InvalidAsServer)
        } else {
            Ok(s[11])
        },
    }
}

/// The minor version that a parse result holds.
pub open spec fn minor_of(r: Result<PeerGreeting, GreetingError>) -> Result<u8, GreetingError> {
    match r {
        Ok(g) => Ok(g.version_minor),
        Err(e) => Err(e),
    }
}

/// Decoded peer greeting (subset relevant to this library).
#[derive(Debug, PartialEq, Eq, Structural, Clone, Copy)]
pub struct PeerGreeting {
    /// Peer's ZMTP minor version (e.g. `0` for 3.0, `1` for 3.1).
    pub version_minor: u8,
}

/// Errors returned when parsing a peer greeting.
#[derive(Debug, PartialEq, Eq, Structural, Clone, Copy)]
pub enum GreetingError {
    /// The first or the last byte of the signature is wrong.
    InvalidSignature,
    /// The peer does not speak ZMTP 3.
    UnsupportedVersionMajor,
    /// The peer asks for another mechanism.
    UnsupportedMechanism,
    /// The peer claims the server role.
    InvalidAsServer,
}

fn name_of(mechanism: Mechanism) -> (r: [u8; 20])
    ensures
        r@ == mechanism_field(mechanism),
{
    match mechanism {
        Mechanism::Null => {
            assert(NULL_NAME@ =~= mechanism_field(mechanism));
            NULL_NAME
        },
        Mechanism::Plain => {
            assert(PLAIN_NAME@ =~= mechanism_field(mechanism));
            PLAIN_NAME
        },
    }
}

/// Writes our 64-byte ZMTP 3.1 greeting for `mechanism` into `buf`.
pub fn encode_greeting_for(mechanism: Mechanism, buf: &mut [u8; GREETING_LEN])
    ensures
        final(buf)@ == our_greeting(mechanism),
{
    let name: [u8; 20] = name_of(mechanism);
    *buf = [0u8; GREETING_LEN];
    buf[SIG0] = 0xFF;
    buf[SIG9] = 0x7F;
    buf[VERSION_MAJOR] = 0x03;
    buf[VERSION_MINOR] = 0x01;
    copy_into(buf, MECHANISM, name.as_slice());
    buf[AS_SERVER] = match mechanism {
        Mechanism::Null => 0x00,
        Mechanism::Plain => 0x01,
    };
    assert(buf@ =~= our_greeting(mechanism));
}

/// Writes the 64-byte ZMTP 3.1 NULL greeting into `buf`.
pub fn encode_greeting(buf: &mut [u8; GREETING_LEN])
    ensures
        final(buf)@ == our_greeting(Mechanism::Null),
{
    encode_greeting_for(Mechanism::Null, buf);
}

/// Writes the 64-byte ZMTP 3.1 PLAIN greeting, in the server role, into `buf`.
pub fn encode_plain_greeting(buf: &mut [u8; GREETING_LEN])
    ensures
        final(buf)@ == our_greeting(Mechanism::Plain),
{
    encode_greeting_for(Mechanism::Plain, buf);
}

/// Validates the first 11 bytes of a ZMTP greeting (signature + version major).
/// Call this as soon as GREETING_PARTIAL_LEN bytes are buffered to fail fast on bad peers.
pub fn parse_partial_greeting(buf: &[u8; GREETING_PARTIAL_LEN]) -> (r: Result<(), GreetingError>)
    ensures
        r == partial_verdict(buf@),
{
    check_head(buf.as_slice())
}

/// Validates the signature and the major version at the start of `head`.
pub fn check_head(head: &[u8]) -> (r: Result<(), GreetingError>)
    requires
        head@.len() >= GREETING_PARTIAL_LEN,
    ensures
        r == partial_verdict(head@),
{
    if head[SIG0] != 0xFF || head[SIG9] != 0x7F {
        return Err(GreetingError::InvalidSignature);
    }
    if head[VERSION_MAJOR] != 0x03 {
        return Err(GreetingError::UnsupportedVersionMajor);
    }
    Ok(())
}

/// Parses a 64-byte greeting from a peer that has to speak `mechanism`.
pub fn parse_greeting_for(mechanism: Mechanism, buf: &[u8; GREETING_LEN]) -> (r: Result<
    PeerGreeting,
    GreetingError,
>)
    ensures
        minor_of(r) == greeting_verdict(mechanism, buf@),
{
    let all: &[u8] = buf.as_slice();
    match check_head(all) {
        Err(e) => {
            return Err(e);
        },
        Ok(_) => {},
    }
    // All 20 bytes count: a longer name that starts alike is another mechanism.
    let name: [u8; 20] = name_of(mechanism);
    if !same(slice_subrange(all, MECHANISM, AS_SERVER), name.as_slice()) {
        return Err(GreetingError::UnsupportedMechanism);
    }
    if buf[AS_SERVER] != 0x00 {
        return Err(GreetingError::InvalidAsServer);
    }
    Ok(PeerGreeting { version_minor: buf[VERSION_MINOR] })
}

/// Parses a 64-byte NULL greeting from a peer. Returns the peer's version minor.
pub fn parse_greeting(buf: &[u8; GREETING_LEN]) -> (r: Result<PeerGreeting, GreetingError>)
    ensures
        minor_of(r) == greeting_verdict(Mechanism::Null, buf@),
{
    parse_greeting_for(Mechanism::Null, buf)
}

/// Parses a 64-byte PLAIN greeting from a peer in the client role. Returns the
/// peer's version minor.
pub fn parse_plain_greeting(buf: &[u8; GREETING_LEN]) -> (r: Result<PeerGreeting, GreetingError>)
    ensures
        minor_of(r) == greeting_verdict(Mechanism::Plain, buf@),
{
    parse_greeting_for(Mechanism::Plain, buf)
}

/// A greeting has 64 bytes.
pub proof fn lemma_our_greeting_len(mechanism: Mechanism)
    ensures
        our_greeting(mechanism).len() == 64,
{
}

/// Our NULL greeting is good for a NULL peer, which reads version 3.1 from it.
pub proof fn law_null_greeting_is_accepted()
    ensures
        greeting_verdict(Mechanism::Null, our_greeting(Mechanism::Null)) == Ok::<u8, GreetingError>(
            1,
        ),
{
    let s = our_greeting(Mechanism::Null);
    assert(s.subrange(12, 32) =~= mechanism_field(Mechanism::Null));
}

/// Two PLAIN servers do not talk to each other: our PLAIN greeting, sent back to
/// us, is refused for its role.
pub proof fn law_plain_server_is_refused()
    ensures
        greeting_verdict(Mechanism::Plain, our_greeting(Mechanism::Plain)) == Err::<
            u8,
            GreetingError,
        >(GreetingError::InvalidAsServer),
{
    let s = our_greeting(Mechanism::Plain);
    assert(s.subrange(12, 32) =~= mechanism_field(Mechanism::Plain));
}

/// No greeting is good for both mechanisms.
pub proof fn law_mechanisms_are_exclusive(s: Seq<u8>)
    ensures
        !(greeting_verdict(Mechanism::Null, s) is Ok && greeting_verdict(Mechanism::Plain, s) is Ok),
{
    assert(mechanism_field(Mechanism::Null)[0] != mechanism_field(Mechanism::Plain)[0]);
}

/// A greeting that is good has a good head: what the first 11 bytes are refused
/// for, the whole greeting is refused for.
pub proof fn law_bad_head_is_bad_greeting(mechanism: Mechanism, s: Seq<u8>)
    requires
        s.len() == GREETING_LEN,
    ensures
        partial_verdict(s.take(GREETING_PARTIAL_LEN as int)) == partial_verdict(s),
        partial_verdict(s.take(GREETING_PARTIAL_LEN as int)) matches Err(e)
            ==> greeting_verdict(mechanism, s) == Err::<u8, GreetingError>(e),
{
}

/// The first 11 bytes of our greeting do not depend on the mechanism.
pub proof fn law_heads_are_alike()
    ensures
        our_greeting(Mechanism::Null).take(GREETING_PARTIAL_LEN as int) == our_greeting(
            Mechanism::Plain,
        ).take(GREETING_PARTIAL_LEN as int),
{
    assert(our_greeting(Mechanism::Null).take(GREETING_PARTIAL_LEN as int) =~= our_greeting(
        Mechanism::Plain,
    ).take(GREETING_PARTIAL_LEN as int));
}

/// Bytes 12 to 31 of a greeting hold the name of the mechanism, and zeros after it.
pub open spec fn names_mechanism(mechanism: Mechanism, s: Seq<u8>) -> bool {
    match mechanism {
        Mechanism::Null => {
            &&& s[12] == 0x4E && s[13] == 0x55 && s[14] == 0x4C && s[15] == 0x4C
            &&& forall|i: int| 16 <= i < 32 ==> #[trigger] s[i] == 0
        },
        Mechanism::Plain => {
            &&& s[12] == 0x50 && s[13] == 0x4C && s[14] == 0x41 && s[15] == 0x49 && s[16] == 0x4E
            &&& forall|i: int| 17 <= i < 32 ==> #[trigger] s[i] == 0
        },
    }
}

/// A greeting is judged by its bytes, in this order: the first and the last byte of
/// the signature, the major version, the mechanism and the role. A greeting in which
/// these are right is accepted, whatever its other bytes are, and its minor version
/// is any.
pub proof fn law_greeting_is_judged_by_its_bytes(mechanism: Mechanism, s: Seq<u8>)
    requires
        s.len() == 64,
    ensures
        greeting_verdict(mechanism, s) == if s[0] != 0xFF || s[9] != 0x7F {
            Err::<u8, GreetingError>(GreetingError::InvalidSignature)
        } else if s[10] != 3 {
            Err(GreetingError::UnsupportedVersionMajor)
        } else if !names_mechanism(mechanism, s) {
            Err(GreetingError::UnsupportedMechanism)
        } else if s[32] != 0 {
            Err(GreetingError::InvalidAsServer)
        } else {
            Ok(s[11])
        },
{
    let name = s.subrange(12, 32);
    let field = mechanism_field(mechanism);
    assert(field.len() == 20);
    assert forall|i: int| 12 <= i < 32 implies #[trigger] s[i] == name[i - 12] by {}
    if name == field {
        assert(name[0] == field[0] && name[1] == field[1] && name[2] == field[2] && name[3]
            == field[3] && name[4] == field[4]);
        assert forall|i: int| 17 <= i < 32 implies #[trigger] s[i] == 0 by {
            assert(name[i - 12] == field[i - 12]);
        }
    }
    if names_mechanism(mechanism, s) {
        assert(name =~= field);
    }
}

/// The first 11 bytes are judged by the first and the last byte of the signature
/// and by the major version alone.
pub proof fn law_head_is_judged_by_its_bytes(s: Seq<u8>)
    requires
        s.len() >= 11,
    ensures
        partial_verdict(s) is Ok <==> s[0] == 0xFF && s[9] == 0x7F && s[10] == 3,
        partial_verdict(s) == Err::<(), GreetingError>(GreetingError::InvalidSignature) <==> s[0]
            != 0xFF || s[9] != 0x7F,
        partial_verdict(s) == Err::<(), GreetingError>(GreetingError::UnsupportedVersionMajor)
            <==> s[0] == 0xFF && s[9] == 0x7F && s[10] != 3,
{
}

/// Two greetings that agree in the first and the last byte of the signature, in the
/// version, the mechanism and the role are judged alike: the padding of the signature
/// and what follows the role do not count.
pub proof fn law_padding_does_not_count(mechanism: Mechanism, s: Seq<u8>, t: Seq<u8>)
    requires
        s.len() == 64,
        t.len() == 64,
        s[0] == t[0],
        forall|i: int| 9 <= i <= 32 ==> #[trigger] s[i] == t[i],
    ensures
        greeting_verdict(mechanism, s) == greeting_verdict(mechanism, t),
        partial_verdict(s) == partial_verdict(t),
{
    assert(s[9] == t[9] && s[10] == t[10] && s[11] == t[11] && s[32] == t[32]);
    assert(s.subrange(12, 32) =~= t.subrange(12, 32));
}

/// Our greeting, byte by byte: the signature, version 3.1, the mechanism, and the
/// server role for PLAIN; all else is zero.
pub proof fn law_our_greeting_by_bytes(mechanism: Mechanism)
    ensures
        ({
            let s = our_greeting(mechanism);
            &&& s.len() == 64
            &&& s[0] == 0xFF && s[9] == 0x7F && s[10] == 3 && s[11] == 1
            &&& names_mechanism(mechanism, s)
            &&& s[32] == (if mechanism == Mechanism::Plain {
                1u8
            } else {
                0u8
            })
            &&& forall|i: int| 1 <= i < 9 || 33 <= i < 64 ==> #[trigger] s[i] == 0
        }),
{
}

} // verus!
