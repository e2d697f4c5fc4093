//! ZMTP NULL security mechanism: READY and ERROR commands.

use vstd::prelude::*;
use vstd::slice::slice_subrange;

use crate::bytes::{copy_into, equal_ignoring_case, put, read_be, same};
use crate::command::split_counted;

verus! {

/// Length of the PUB READY command frame.
pub const READY_LEN: usize = 27;

/// Pre-computed PUB READY frame:
/// flags=0x04, size=0x19, name-size=0x05, "READY",
/// prop name-size=0x0B, "Socket-Type", value-size=0x00000003, "PUB"
pub const READY_FRAME: [u8; READY_LEN] = [
    0x04, 0x19, 0x05, 0x52, 0x45, 0x41, 0x44, 0x59, 0x0B, 0x53, 0x6F, 0x63, 0x6B, 0x65, 0x74, 0x2D,
    0x54, 0x79, 0x70, 0x65, 0x00, 0x00, 0x00, 0x03, 0x50, 0x55, 0x42,
];

/// Length of the RADIO READY command frame.
pub const RADIO_READY_LEN: usize = 29;

/// Pre-computed RADIO READY frame:
/// flags=0x04, size=0x1B (27), name-size=0x05, "READY",
/// prop name-size=0x0B, "Socket-Type", value-size=0x00000005, "RADIO"
pub const RADIO_READY_FRAME: [u8; RADIO_READY_LEN] = [
    0x04, 0x1B, 0x05, 0x52, 0x45, 0x41, 0x44, 0x59, 0x0B, 0x53, 0x6F, 0x63, 0x6B, 0x65, 0x74, 0x2D,
    0x54, 0x79, 0x70, 0x65, 0x00, 0x00, 0x00, 0x05, 0x52, 0x41, 0x44, 0x49, 0x4F,
];

/// "Socket-Type"
pub const SOCKET_TYPE: [u8; 11] = [
    0x53, 0x6F, 0x63, 0x6B, 0x65, 0x74, 0x2D, 0x54, 0x79, 0x70, 0x65,
];

/// "SUB"
pub const SUB: [u8; 3] = [0x53, 0x55, 0x42];

/// "XSUB"
pub const XSUB: [u8; 4] = [0x58, 0x53, 0x55, 0x42];

/// "DISH"
pub const DISH: [u8; 4] = [0x44, 0x49, 0x53, 0x48];

/// Which of the two publishing sockets a connection stands for.
#[derive(Debug, Clone, Copy, PartialEq, Eq, Structural)]
pub enum Role {
    /// PUB, for SUB and XSUB peers.
    Pub,
    /// RADIO, for DISH peers.
    Radio,
}

/// Peer socket types we accept as subscribers.
#[derive(Debug, PartialEq, Eq, Structural, Clone, Copy)]
pub enum PeerSocketType {
    /// Standard SUB peer.
    Sub,
    /// XSUB (extended SUB, forwards subscriptions upstream).
    Xsub,
    /// DISH peer (RADIO-DISH pattern).
    Dish,
}

/// Errors from NULL mechanism encode/parse operations.
#[derive(Debug, PartialEq, Eq, Structural, Clone, Copy)]
pub enum NullError {
    /// Output buffer is too small for the encoded frame.
    BufferTooSmall,
    /// Flags byte has the COMMAND bit (bit 2) clear — this is a message, not a command.
    NotACommand,
    /// Command name is neither "READY" nor "ERROR".
    UnknownCommand,
    /// Peer sent an ERROR command rejecting the handshake.
    PeerError,
    /// Socket-Type property value is not one that fits our socket.
    WrongSocketType,
    /// Could not parse the Socket-Type metadata property.
    MalformedMetadata,
    /// ERROR `reason` exceeds the 255-byte short-frame body limit.
    ReasonTooLong,
}

/// What the metadata of a READY command says about the socket type.
pub enum Announced {
    /// There is no such property.
    Nothing,
    /// A property before it, or the property itself, is cut off.
    Malformed,
    /// The value of the first such property.
    Value(Seq<u8>),
}

/// One metadata property: the name with its length in one byte, the value with
/// its length in four.
pub open spec fn property(name: Seq<u8>, value: Seq<u8>) -> Seq<u8> {
    seq![name.len() as u8] + name + crate::bytes::be_bytes(value.len(), 4) + value
}

/// Goes through the properties in order up to the first that is named
/// Socket-Type, in upper or lower case letters.
pub open spec fn announced(metadata: Seq<u8>) -> Announced
    decreases metadata.len(),
{
    if metadata.len() == 0 {
        Announced::Nothing
    } else {
        let name_end = 1 + metadata[0];
        if name_end + 4 > metadata.len() {
            Announced::Malformed
        } else {
            let value_at = name_end + 4;
            let value_end = value_at + crate::bytes::be_value(
                metadata.subrange(name_end, value_at),
            );
            if value_end > metadata.len() {
                Announced::Malformed
            } else if crate::bytes::same_ignoring_case(
                metadata.subrange(1, name_end),
                SOCKET_TYPE@,
            ) {
                Announced::Value(metadata.subrange(value_at, value_end))
            } else {
                announced(metadata.skip(value_end))
            }
        }
    }
}

/// The verdict of a socket in `role` on the socket type of its peer.
pub open spec fn socket_type_verdict(role: Role, value: Seq<u8>) -> Result<
    PeerSocketType,
    NullError,
> {
    if role == Role::Pub && value == SUB@ {
        Ok(PeerSocketType::Sub)
    } else if role == Role::Pub && value == XSUB@ {
        Ok(PeerSocketType::Xsub)
    } else if role == Role::Radio && value == DISH@ {
        Ok(PeerSocketType::Dish)
    } else {
        Err(NullError::WrongSocketType)
    }
}

/// The verdict of a socket in `role` on a frame that should be its peer's READY.
pub open spec fn ready_verdict(role: Role, is_command: bool, body: Seq<u8>) -> Result<
    PeerSocketType,
    NullError,
> {
    if !is_command {
        Err(NullError::NotACommand)
    } else {
        match crate::command::counted(body) {
            None => Err(NullError::MalformedMetadata),
            Some((name, data)) => if name == crate::command::ERROR@ {
                Err(NullError::PeerError)
            } else if name != crate::command::READY@ {
                Err(NullError::UnknownCommand)
            } else {
                match announced(data) {
                    Announced::Malformed => Err(NullError::MalformedMetadata),
                    Announced::Nothing => Err(NullError::WrongSocketType),
                    Announced::Value(value) => socket_type_verdict(role, value),
                }
            },
        }
    }
}

/// The same of a frame as raw bytes, of which one size byte is read.
pub open spec fn ready_wire_verdict(role: Role, buf: Seq<u8>) -> Result<
    PeerSocketType,
    NullError,
> {
    if buf.len() < 3 || buf.len() < 2 + buf[1] {
        Err(NullError::MalformedMetadata)
    } else {
        ready_verdict(role, buf[0] & 0x04 != 0, buf.subrange(2, 2 + buf[1]))
    }
}

/// Our READY frame.
pub open spec fn our_ready(role: Role) -> Seq<u8> {
    match role {
        Role::Pub => READY_FRAME@,
        Role::Radio => RADIO_READY_FRAME@,
    }
}

/// What an encoder of a fixed frame does to `buf`: the frame over its first
/// bytes, or nothing where `buf` is too short.
pub open spec fn frame_written(
    before: Seq<u8>,
    after: Seq<u8>,
    frame: Seq<u8>,
    result: Result<usize, NullError>,
) -> bool {
    if before.len() < frame.len() {
        result == Err::<usize, NullError>(NullError::BufferTooSmall) && after == before
    } else {
        result == Ok::<usize, NullError>(frame.len() as usize) && after == crate::bytes::overwrite(
            before,
            frame,
        )
    }
}

/// Encode our PUB READY frame into `buf`.
/// Returns the number of bytes written (`READY_LEN`) or `NullError::BufferTooSmall`.
pub fn encode_ready(buf: &mut [u8]) -> (r: Result<usize, NullError>)
    ensures
        frame_written(old(buf)@, final(buf)@, our_ready(Role::Pub), r),
{
    if buf.len() < READY_LEN {
        return Err(NullError::BufferTooSmall);
    }
    let frame: [u8; READY_LEN] = READY_FRAME;
    put(buf, frame.as_slice());
    Ok(READY_LEN)
}

/// Encode our RADIO READY frame into `buf`.
/// Returns the number of bytes written (`RADIO_READY_LEN`) or `NullError::BufferTooSmall`.
pub fn encode_ready_radio(buf: &mut [u8]) -> (r: Result<usize, NullError>)
    ensures
        frame_written(old(buf)@, final(buf)@, our_ready(Role::Radio), r),
{
    if buf.len() < RADIO_READY_LEN {
        return Err(NullError::BufferTooSmall);
    }
    let frame: [u8; RADIO_READY_LEN] = RADIO_READY_FRAME;
    put(buf, frame.as_slice());
    Ok(RADIO_READY_LEN)
}

/// Parse a READY (or ERROR) command frame from raw wire bytes.
/// Returns the peer's socket type if the frame is a valid READY for SUB or XSUB.
pub fn parse_ready(buf: &[u8]) -> (r: Result<PeerSocketType, NullError>)
    ensures
        r == ready_wire_verdict(Role::Pub, buf@),
{
    parse_ready_wire(Role::Pub, buf)
}

/// Parse a RADIO/DISH READY (or ERROR) command frame from raw wire bytes.
/// Returns the peer's socket type if the frame is a valid READY for DISH.
pub fn parse_ready_radio(buf: &[u8]) -> (r: Result<PeerSocketType, NullError>)
    ensures
        r == ready_wire_verdict(Role::Radio, buf@),
{
    parse_ready_wire(Role::Radio, buf)
}

fn parse_ready_wire(role: Role, buf: &[u8]) -> (r: Result<PeerSocketType, NullError>)
    ensures
        r == ready_wire_verdict(role, buf@),
{
    if buf.len() < 3 {
        return Err(NullError::MalformedMetadata);
    }
    let is_command: bool = (buf[0] & 0x04) != 0;
    let body_size: usize = buf[1] as usize;
    if buf.len() < 2 + body_size {
        return Err(NullError::MalformedMetadata);
    }
    parse_ready_for(role, is_command, slice_subrange(buf, 2, 2 + body_size))
}

/// Parse a READY (or ERROR) command from structured frame data.
/// `is_command` must be true (COMMAND flag bit set). `body` is the frame body.
pub fn parse_ready_from(is_command: bool, body: &[u8]) -> (r: Result<PeerSocketType, NullError>)
    ensures
        r == ready_verdict(Role::Pub, is_command, body@),
{
    parse_ready_for(Role::Pub, is_command, body)
}

/// Parse a RADIO/DISH READY (or ERROR) command from structured frame data.
/// `is_command` must be true. `body` is the frame body.
pub fn parse_ready_radio_from(is_command: bool, body: &[u8]) -> (r: Result<
    PeerSocketType,
    NullError,
>)
    ensures
        r == ready_verdict(Role::Radio, is_command, body@),
{
    parse_ready_for(Role::Radio, is_command, body)
}

/// Parse a READY (or ERROR) command for a socket in `role`.
pub fn parse_ready_for(role: Role, is_command: bool, body: &[u8]) -> (r: Result<
    PeerSocketType,
    NullError,
>)
    ensures
        r == ready_verdict(role, is_command, body@),
{
    if !is_command {
        return Err(NullError::NotACommand);
    }
    let (name, metadata) = match split_counted(body) {
        None => {
            return Err(NullError::MalformedMetadata);
        },
        Some(parts) => parts,
    };
    let error: [u8; 5] = crate::command::ERROR;
    let ready: [u8; 5] = crate::command::READY;
    if same(name, error.as_slice()) {
        return Err(NullError::PeerError);
    }
    if !same(name, ready.as_slice()) {
        return Err(NullError::UnknownCommand);
    }
    parse_metadata(role, metadata)
}

/// Finds the Socket-Type property and judges its value.
fn parse_metadata(role: Role, metadata: &[u8]) -> (r: Result<PeerSocketType, NullError>)
    ensures
        r == match announced(metadata@) {
            Announced::Malformed => Err(NullError::MalformedMetadata),
            Announced::Nothing => Err(NullError::WrongSocketType),
            Announced::Value(value) => socket_type_verdict(role, value),
        },
{
    let socket_type: [u8; 11] = SOCKET_TYPE;
    let n: usize = metadata.len();
    let mut pos: usize = 0;
    assert(metadata@.skip(0) =~= metadata@);
    while pos < n
        invariant
            n == metadata@.len(),
            pos <= n,
            socket_type@ == SOCKET_TYPE@,
            announced(metadata@) == announced(metadata@.skip(pos as int)),
        decreases n - pos,
    {
        let ghost rest = metadata@.skip(pos as int);
        let name_len: usize = metadata[pos] as usize;
        let left: usize = n - pos;
        if 1 + name_len + 4 > left {
            return Err(NullError::MalformedMetadata);
        }
        let name_at: usize = pos + 1;
        let size_at: usize = name_at + name_len;
        let value_at: usize = size_at + 4;
        let size_bytes: &[u8] = slice_subrange(metadata, size_at, value_at);
        let value_len: u64 = read_be(size_bytes);
        assert(size_bytes@ =~= rest.subrange(1 + name_len, 5 + name_len));
        if value_len > (n - value_at) as u64 {
            return Err(NullError::MalformedMetadata);
        }
        let next: usize = value_at + value_len as usize;
        let name: &[u8] = slice_subrange(metadata, name_at, size_at);
        let value: &[u8] = slice_subrange(metadata, value_at, next);
        proof {
            assert(name@ =~= rest.subrange(1, 1 + name_len));
            assert(value@ =~= rest.subrange(value_at - pos, next - pos));
            assert(rest.skip(next - pos) =~= metadata@.skip(next as int));
        }
        if equal_ignoring_case(name, socket_type.as_slice()) {
            return judge(role, value);
        }
        pos = next;
    }
    Err(NullError::WrongSocketType)
}

/// Judges the socket type of a peer.
fn judge(role: Role, value: &[u8]) -> (r: Result<PeerSocketType, NullError>)
    ensures
        r == socket_type_verdict(role, value@),
{
    let sub: [u8; 3] = SUB;
    let xsub: [u8; 4] = XSUB;
    let dish: [u8; 4] = DISH;
    match role {
        Role::Pub => {
            if same(value, sub.as_slice()) {
                Ok(PeerSocketType::Sub)
            } else if same(value, xsub.as_slice()) {
                Ok(PeerSocketType::Xsub)
            } else {
                Err(NullError::WrongSocketType)
            }
        },
        Role::Radio => {
            if same(value, dish.as_slice()) {
                Ok(PeerSocketType::Dish)
            } else {
                Err(NullError::WrongSocketType)
            }
        },
    }
}

/// The ERROR command with a reason, which is preceded by its length.
pub open spec fn error_frame(reason: Seq<u8>) -> Seq<u8> {
    crate::command::command_frame(crate::command::ERROR@, seq![reason.len() as u8] + reason)
}

/// Encode an ERROR command frame into `buf`.
/// Frame: flags(0x04) + body-size(1) + name-size(0x05) + "ERROR" + reason-len(1) + reason.
/// Returns number of bytes written, `NullError::ReasonTooLong` or `NullError::BufferTooSmall`.
pub fn encode_error(buf: &mut [u8], reason: &[u8]) -> (r: Result<usize, NullError>)
    ensures
        reason@.len() > 248 ==> r == Err::<usize, NullError>(NullError::ReasonTooLong)
            && final(buf)@ == old(buf)@,
        reason@.len() <= 248 ==> frame_written(old(buf)@, final(buf)@, error_frame(reason@), r),
{
    if reason.len() > 248 {
        return Err(NullError::ReasonTooLong);
    }
    let body_size: usize = 7 + reason.len();
    let total: usize = 2 + body_size;
    assert(error_frame(reason@).len() == total);
    if buf.len() < total {
        return Err(NullError::BufferTooSmall);
    }
    let error: [u8; 5] = crate::command::ERROR;
    buf[0] = 0x04;
    buf[1] = body_size as u8;
    buf[2] = 0x05;
    copy_into(buf, 3, error.as_slice());
    buf[8] = reason.len() as u8;
    copy_into(buf, 9, reason);
    assert(buf@ =~= crate::bytes::overwrite(old(buf)@, error_frame(reason@)));
    Ok(total)
}

/// "PUB"
pub open spec fn pub_name() -> Seq<u8> {
    seq![0x50u8, 0x55, 0x42]
}

/// "RADIO"
pub open spec fn radio_name() -> Seq<u8> {
    seq![0x52u8, 0x41, 0x44, 0x49, 0x4F]
}

/// The name of our own socket type.
pub open spec fn our_type(role: Role) -> Seq<u8> {
    match role {
        Role::Pub => pub_name(),
        Role::Radio => radio_name(),
    }
}

/// The READY command of a socket of the given type.
pub open spec fn ready_frame(socket_type: Seq<u8>) -> Seq<u8> {
    crate::command::command_frame(crate::command::READY@, property(SOCKET_TYPE@, socket_type))
}

/// The pre-computed frames are the READY commands of a PUB and of a RADIO socket.
pub proof fn law_our_ready_names_our_socket()
    ensures
        our_ready(Role::Pub) == ready_frame(our_type(Role::Pub)),
        our_ready(Role::Radio) == ready_frame(our_type(Role::Radio)),
{
    lemma_small_be(3);
    lemma_small_be(5);
    assert(our_ready(Role::Pub) =~= ready_frame(pub_name()));
    assert(our_ready(Role::Radio) =~= ready_frame(radio_name()));
}

/// A small number in four bytes.
proof fn lemma_small_be(n: nat)
    requires
        n < 256,
    ensures
        crate::bytes::be_bytes(n, 4) == seq![0u8, 0, 0, n as u8],
{
    reveal_with_fuel(crate::bytes::be_bytes, 5);
    assert(crate::bytes::be_bytes(n, 4) =~= seq![0u8, 0, 0, n as u8]);
}

/// A property is read back as it was written: where it is the socket type, it
/// decides, whatever follows; otherwise the properties after it do.
pub proof fn law_property_round_trip(name: Seq<u8>, value: Seq<u8>, rest: Seq<u8>)
    requires
        name.len() <= 255,
        value.len() <= u32::MAX,
    ensures
        announced(property(name, value) + rest) == if crate::bytes::same_ignoring_case(
            name,
            SOCKET_TYPE@,
        ) {
            Announced::Value(value)
        } else {
            announced(rest)
        },
{
    let s = property(name, value) + rest;
    let name_end = 1 + name.len() as int;
    crate::bytes::lemma_be_limits();
    crate::bytes::law_be_round_trip(value.len(), 4);
    assert(s[0] == name.len());
    assert(s.subrange(1, name_end) =~= name);
    assert(s.subrange(name_end, name_end + 4) =~= crate::bytes::be_bytes(value.len(), 4));
    let value_end = name_end + 4 + value.len();
    assert(s.subrange(name_end + 4, value_end) =~= value);
    assert(s.skip(value_end) =~= rest);
}

/// The READY command that a peer with a given socket type sends is judged by
/// that type alone, as structured data and as raw bytes.
pub proof fn law_ready_is_judged_by_socket_type(role: Role, socket_type: Seq<u8>)
    requires
        socket_type.len() <= 233,
    ensures
        ready_verdict(
            role,
            true,
            crate::command::command_body(
                crate::command::READY@,
                property(SOCKET_TYPE@, socket_type),
            ),
        ) == socket_type_verdict(role, socket_type),
        ready_wire_verdict(role, ready_frame(socket_type)) == socket_type_verdict(
            role,
            socket_type,
        ),
{
    let data = property(SOCKET_TYPE@, socket_type);
    let body = crate::command::command_body(crate::command::READY@, data);
    crate::command::law_command_round_trip(crate::command::READY@, data);
    law_property_round_trip(SOCKET_TYPE@, socket_type, Seq::empty());
    assert(data + Seq::<u8>::empty() =~= data);
    assert(crate::command::READY@[0] != crate::command::ERROR@[0]);
    crate::bytes::lemma_be_bytes_len(socket_type.len(), 4);
    let wire = ready_frame(socket_type);
    assert(wire[0] == 4);
    assert(4u8 & 0x04 != 0) by (bit_vector);
    assert(wire.subrange(2, 2 + wire[1]) =~= body);
}

/// Two sockets of the same publishing side refuse each other: our own READY is
/// no good as a peer's.
#[verifier::rlimit(40)]
pub proof fn law_our_own_ready_is_refused(role: Role)
    ensures
        ready_wire_verdict(role, our_ready(role)) == Err::<PeerSocketType, NullError>(
            NullError::WrongSocketType,
        ),
{
    lemma_own_type_is_refused(role);
    let own = our_type(role);
    assert(our_ready(role) == ready_frame(own)) by {
        law_our_ready_names_our_socket();
    }
    law_ready_is_judged_by_socket_type(role, own);
}

/// A socket does not accept its own type.
proof fn lemma_own_type_is_refused(role: Role)
    ensures
        socket_type_verdict(role, our_type(role)) == Err::<PeerSocketType, NullError>(
            NullError::WrongSocketType,
        ),
{
    assert(pub_name()[0] != SUB@[0]);
    assert(pub_name().len() != XSUB@.len());
    assert(radio_name().len() != DISH@.len());
}

/// An ERROR command, whatever its reason, is understood as the peer's refusal.
pub proof fn law_error_is_understood(role: Role, reason: Seq<u8>)
    requires
        reason.len() <= 248,
    ensures
        ready_wire_verdict(role, error_frame(reason)) == Err::<PeerSocketType, NullError>(
            NullError::PeerError,
        ),
{
    let data = seq![reason.len() as u8] + reason;
    let body = crate::command::command_body(crate::command::ERROR@, data);
    crate::command::law_command_round_trip(crate::command::ERROR@, data);
    let wire = error_frame(reason);
    assert(wire[0] == 4);
    assert(4u8 & 0x04 != 0) by (bit_vector);
    assert(wire.subrange(2, 2 + wire[1]) =~= body);
}

/// Properties, one after the other.
pub open spec fn properties(list: Seq<(Seq<u8>, Seq<u8>)>) -> Seq<u8>
    decreases list.len(),
{
    if list.len() == 0 {
        Seq::empty()
    } else {
        property(list[0].0, list[0].1) + properties(list.drop_first())
    }
}

/// Properties whose names and values have a length that can be written, and of which
/// none is named Socket-Type.
pub open spec fn other_properties(list: Seq<(Seq<u8>, Seq<u8>)>) -> bool {
    forall|i: int|
        0 <= i < list.len() ==> {
            &&& (#[trigger] list[i]).0.len() <= 255
            &&& list[i].1.len() <= u32::MAX
            &&& !crate::bytes::same_ignoring_case(list[i].0, SOCKET_TYPE@)
        }
}

/// The bytes of a property: the length of the name, the name, the length of the value
/// in four bytes, the value.
pub proof fn law_property_bytes(name: Seq<u8>, value: Seq<u8>)
    requires
        name.len() <= 255,
        value.len() <= u32::MAX,
    ensures
        ({
            let s = property(name, value);
            let n = name.len() as int;
            &&& s.len() == 5 + n + value.len()
            &&& s[0] == n
            &&& s.subrange(1, 1 + n) == name
            &&& crate::bytes::number4(s.subrange(1 + n, 5 + n)) == value.len()
            &&& s.skip(5 + n) == value
        }),
{
    let s = property(name, value);
    let n = name.len() as int;
    crate::bytes::law_bytes_by_places(value.len());
    assert(s.subrange(1, 1 + n) =~= name);
    assert(s.subrange(1 + n, 5 + n) =~= crate::bytes::be_bytes(value.len(), 4));
    assert(s.skip(5 + n) =~= value);
}

/// Properties that are not the socket type are passed over.
proof fn lemma_others_are_passed_over(list: Seq<(Seq<u8>, Seq<u8>)>, rest: Seq<u8>)
    requires
        other_properties(list),
    ensures
        announced(properties(list) + rest) == announced(rest),
    decreases list.len(),
{
    if list.len() == 0 {
        assert(properties(list) + rest =~= rest);
    } else {
        let tail = list.drop_first();
        assert forall|i: int| 0 <= i < tail.len() implies {
            &&& (#[trigger] tail[i]).0.len() <= 255
            &&& tail[i].1.len() <= u32::MAX
            &&& !crate::bytes::same_ignoring_case(tail[i].0, SOCKET_TYPE@)
        } by {
            assert(tail[i] == list[i + 1]);
        }
        lemma_others_are_passed_over(tail, rest);
        law_property_round_trip(list[0].0, list[0].1, properties(tail) + rest);
        assert(properties(list) + rest =~= property(list[0].0, list[0].1) + (properties(tail)
            + rest));
    }
}

/// The verdict on a READY with the given metadata is the verdict on the metadata.
proof fn lemma_ready_with_metadata(role: Role, metadata: Seq<u8>)
    ensures
        ready_verdict(
            role,
            true,
            crate::command::command_body(crate::command::READY@, metadata),
        ) == match announced(metadata) {
            Announced::Malformed => Err(NullError::MalformedMetadata),
            Announced::Nothing => Err(NullError::WrongSocketType),
            Announced::Value(value) => socket_type_verdict(role, value),
        },
{
    crate::command::law_command_round_trip(crate::command::READY@, metadata);
    assert(crate::command::READY@[0] != crate::command::ERROR@[0]);
}

/// The first Socket-Type decides about a READY, in whatever case it is named, however
/// many properties stand before it and whatever follows it: SUB and XSUB are good for
/// a PUB socket, DISH for a RADIO socket, and nothing else is good for either.
pub proof fn law_first_socket_type_decides(
    role: Role,
    before: Seq<(Seq<u8>, Seq<u8>)>,
    name: Seq<u8>,
    value: Seq<u8>,
    after: Seq<u8>,
)
    requires
        other_properties(before),
        crate::bytes::same_ignoring_case(name, SOCKET_TYPE@),
        value.len() <= u32::MAX,
    ensures
        ({
            let metadata = properties(before) + (property(name, value) + after);
            let body = crate::command::command_body(crate::command::READY@, metadata);
            ready_verdict(role, true, body) == if role == Role::Pub && value =~= seq![
                0x53u8,
                0x55,
                0x42,
            ] {
                Ok::<PeerSocketType, NullError>(PeerSocketType::Sub)
            } else if role == Role::Pub && value =~= seq![0x58u8, 0x53, 0x55, 0x42] {
                Ok(PeerSocketType::Xsub)
            } else if role == Role::Radio && value =~= seq![0x44u8, 0x49, 0x53, 0x48] {
                Ok(PeerSocketType::Dish)
            } else {
                Err(NullError::WrongSocketType)
            }
        }),
{
    let metadata = properties(before) + (property(name, value) + after);
    lemma_ready_with_metadata(role, metadata);
    lemma_others_are_passed_over(before, property(name, value) + after);
    law_property_round_trip(name, value, after);
    assert(seq![0x53u8, 0x55, 0x42] =~= SUB@);
    assert(seq![0x58u8, 0x53, 0x55, 0x42] =~= XSUB@);
    assert(seq![0x44u8, 0x49, 0x53, 0x48] =~= DISH@);
}

/// A READY without a Socket-Type, whatever other properties it has, is of the wrong
/// socket type.
pub proof fn law_ready_needs_a_socket_type(role: Role, list: Seq<(Seq<u8>, Seq<u8>)>)
    requires
        other_properties(list),
    ensures
        ready_verdict(
            role,
            true,
            crate::command::command_body(crate::command::READY@, properties(list)),
        ) == Err::<PeerSocketType, NullError>(NullError::WrongSocketType),
{
    lemma_ready_with_metadata(role, properties(list));
    lemma_others_are_passed_over(list, Seq::empty());
    assert(properties(list) + Seq::<u8>::empty() =~= properties(list));
}

/// A READY that breaks off inside a property, before a Socket-Type, is malformed: the
/// length of the value is not there, or the value has fewer bytes than announced.
pub proof fn law_cut_off_ready_is_malformed(
    role: Role,
    before: Seq<(Seq<u8>, Seq<u8>)>,
    last: Seq<u8>,
)
    requires
        other_properties(before),
        last.len() > 0,
        last.len() < 5 + last[0] || last.len() < 5 + last[0] + crate::bytes::number4(
            last.subrange(1 + last[0], 5 + last[0]),
        ),
    ensures
        ready_verdict(
            role,
            true,
            crate::command::command_body(crate::command::READY@, properties(before) + last),
        ) == Err::<PeerSocketType, NullError>(NullError::MalformedMetadata),
{
    lemma_ready_with_metadata(role, properties(before) + last);
    lemma_others_are_passed_over(before, last);
    if last.len() >= 5 + last[0] {
        crate::bytes::law_value_by_places(last.subrange(1 + last[0], 5 + last[0]));
    }
}

/// What is no READY is refused: a message, a body that is too short for the name that
/// it announces, an ERROR with whatever data, and any other command.
pub proof fn law_what_is_no_ready(role: Role, body: Seq<u8>, name: Seq<u8>, data: Seq<u8>)
    requires
        name.len() <= 255,
    ensures
        ready_verdict(role, false, body) == Err::<PeerSocketType, NullError>(
            NullError::NotACommand,
        ),
        body.len() == 0 || body[0] >= body.len() ==> ready_verdict(role, true, body) == Err::<
            PeerSocketType,
            NullError,
        >(NullError::MalformedMetadata),
        name =~= seq![0x45u8, 0x52, 0x52, 0x4F, 0x52] ==> ready_verdict(
            role,
            true,
            seq![name.len() as u8] + name + data,
        ) == Err::<PeerSocketType, NullError>(NullError::PeerError),
        !(name =~= seq![0x45u8, 0x52, 0x52, 0x4F, 0x52]) && !(name =~= seq![
            0x52u8,
            0x45,
            0x41,
            0x44,
            0x59,
        ]) ==> ready_verdict(role, true, seq![name.len() as u8] + name + data) == Err::<
            PeerSocketType,
            NullError,
        >(NullError::UnknownCommand),
{
    crate::command::law_command_round_trip(name, data);
    assert(seq![0x45u8, 0x52, 0x52, 0x4F, 0x52] =~= crate::command::ERROR@);
    assert(seq![0x52u8, 0x45, 0x41, 0x44, 0x59] =~= crate::command::READY@);
}

/// A frame as raw bytes is judged as the frame that it is: by its COMMAND flag and by
/// as many bytes as its size says, whatever follows. With bytes missing it is
/// malformed.
pub proof fn law_raw_ready(role: Role, flags: u8, body: Seq<u8>, rest: Seq<u8>, buf: Seq<u8>)
    requires
        body.len() <= 255,
        body.len() + rest.len() > 0,
    ensures
        ready_wire_verdict(role, seq![flags, body.len() as u8] + body + rest) == ready_verdict(
            role,
            (flags / 4) % 2 == 1,
            body,
        ),
        buf.len() < 3 || buf.len() < 2 + buf[1] ==> ready_wire_verdict(role, buf) == Err::<
            PeerSocketType,
            NullError,
        >(NullError::MalformedMetadata),
{
    let s = seq![flags, body.len() as u8] + body + rest;
    assert(s.subrange(2, 2 + s[1]) =~= body);
    assert((flags & 0x04 != 0) == ((flags / 4) % 2 == 1)) by (bit_vector);
}

/// The bytes of a READY with the given socket type, of fewer than 200 bytes, and nothing
/// else.
pub open spec fn short_ready(socket_type: Seq<u8>) -> Seq<u8> {
    seq![4u8, (22 + socket_type.len()) as u8, 5, 0x52, 0x45, 0x41, 0x44, 0x59] + seq![
        11u8,
        0x53,
        0x6F,
        0x63,
        0x6B,
        0x65,
        0x74,
        0x2D,
        0x54,
        0x79,
        0x70,
        0x65,
    ] + seq![0u8, 0, 0, socket_type.len() as u8] + socket_type
}

/// The bytes of an ERROR with the given reason.
pub open spec fn error_bytes(reason: Seq<u8>) -> Seq<u8> {
    seq![4u8, (7 + reason.len()) as u8, 5, 0x45, 0x52, 0x52, 0x4F, 0x52, reason.len() as u8]
        + reason
}

/// Our READY says PUB or RADIO, and our ERROR gives its reason, byte by byte.
pub proof fn law_our_commands_by_bytes(reason: Seq<u8>)
    requires
        reason.len() <= 248,
    ensures
        our_ready(Role::Pub) == short_ready(seq![0x50u8, 0x55, 0x42]),
        our_ready(Role::Radio) == short_ready(seq![0x52u8, 0x41, 0x44, 0x49, 0x4F]),
        error_frame(reason) == error_bytes(reason),
{
    assert(our_ready(Role::Pub) =~= short_ready(seq![0x50u8, 0x55, 0x42]));
    assert(our_ready(Role::Radio) =~= short_ready(seq![0x52u8, 0x41, 0x44, 0x49, 0x4F]));
    assert(error_frame(reason) =~= error_bytes(reason));
}

} // verus!
