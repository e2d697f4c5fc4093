//! ZMTP commands: a one-byte name length, the name, and the command's data.

use vstd::prelude::*;
use vstd::slice::slice_subrange;

verus! {

/// "READY"
pub const READY: [u8; 5] = [0x52, 0x45, 0x41, 0x44, 0x59];

/// "ERROR"
pub const ERROR: [u8; 5] = [0x45, 0x52, 0x52, 0x4F, 0x52];

/// "HELLO"
pub const HELLO: [u8; 5] = [0x48, 0x45, 0x4C, 0x4C, 0x4F];

/// "WELCOME"
pub const WELCOME: [u8; 7] = [0x57, 0x45, 0x4C, 0x43, 0x4F, 0x4D, 0x45];

/// "SUBSCRIBE"
pub const SUBSCRIBE: [u8; 9] = [0x53, 0x55, 0x42, 0x53, 0x43, 0x52, 0x49, 0x42, 0x45];

/// "CANCEL"
pub const CANCEL: [u8; 6] = [0x43, 0x41, 0x4E, 0x43, 0x45, 0x4C];

/// "JOIN"
pub const JOIN: [u8; 4] = [0x4A, 0x4F, 0x49, 0x4E];

/// "LEAVE"
pub const LEAVE: [u8; 5] = [0x4C, 0x45, 0x41, 0x56, 0x45];

/// "PING"
pub const PING: [u8; 4] = [0x50, 0x49, 0x4E, 0x47];

/// "PONG"
pub const PONG: [u8; 4] = [0x50, 0x4F, 0x4E, 0x47];

/// The body of the command `name` with `data`.
pub open spec fn command_body(name: Seq<u8>, data: Seq<u8>) -> Seq<u8> {
    seq![name.len() as u8] + name + data
}

/// The command `name` with `data` as it goes over the wire.
pub open spec fn command_frame(name: Seq<u8>, data: Seq<u8>) -> Seq<u8> {
    crate::frame::encoded_frame(command_body(name, data), false, true)
}

/// The string at the start of `s`, which is preceded by its length in one byte,
/// and what follows it. The body of a command is the command's name and its data.
pub open spec fn counted(s: Seq<u8>) -> Option<(Seq<u8>, Seq<u8>)> {
    if s.len() == 0 || s.len() < 1 + s[0] {
        None
    } else {
        Some((s.subrange(1, 1 + s[0]), s.skip(1 + s[0])))
    }
}

/// The two parts of a split string as values.
pub open spec fn parts_of(r: Option<(&[u8], &[u8])>) -> Option<(Seq<u8>, Seq<u8>)> {
    match r {
        Some((name, data)) => Some((name@, data@)),
        None => None,
    }
}

/// Splits off a string that is preceded by its length in one byte.
pub fn split_counted(s: &[u8]) -> (r: Option<(&[u8], &[u8])>)
    ensures
        parts_of(r) == counted(s@),
{
    if s.is_empty() {
        return None;
    }
    let n: usize = s[0] as usize;
    if s.len() < 1 + n {
        return None;
    }
    let rest: &[u8] = slice_subrange(s, 1 + n, s.len());
    assert(rest@ =~= s@.skip(1 + s@[0]));
    Some((slice_subrange(s, 1, 1 + n), rest))
}

/// A command that was put together comes apart into what it was made of.
pub proof fn law_command_round_trip(name: Seq<u8>, data: Seq<u8>)
    requires
        name.len() <= 255,
    ensures
        counted(command_body(name, data)) == Some((name, data)),
{
    let body = command_body(name, data);
    assert(body[0] == name.len());
    assert(body.subrange(1, 1 + body[0]) =~= name);
    assert(body.skip(1 + body[0]) =~= data);
}

/// A string is split where it is one byte that holds a length, that many bytes,
/// and whatever follows; a string that is not of this form is not split.
pub proof fn law_counted_is_length_first(s: Seq<u8>, name: Seq<u8>, data: Seq<u8>)
    ensures
        counted(s) == Some((name, data)) <==> s.len() == 1 + name.len() + data.len() && s[0]
            == name.len() && (forall|i: int|
            0 <= i < name.len() ==> #[trigger] name[i] == s[1 + i]) && (forall|i: int|
            0 <= i < data.len() ==> #[trigger] data[i] == s[1 + name.len() + i]),
        counted(s) is None <==> s.len() == 0 || s[0] >= s.len(),
{
    if counted(s) == Some((name, data)) {
        assert(name =~= s.subrange(1, 1 + s[0]));
        assert(data =~= s.skip(1 + s[0]));
    }
    if s.len() == 1 + name.len() + data.len() && s[0] == name.len() && (forall|i: int|
        0 <= i < name.len() ==> #[trigger] name[i] == s[1 + i]) && (forall|i: int|
        0 <= i < data.len() ==> #[trigger] data[i] == s[1 + name.len() + i]) {
        assert(name =~= s.subrange(1, 1 + s[0]));
        assert(data =~= s.skip(1 + s[0]));
    }
}

/// The bytes of a command: the COMMAND flag, the size, the length of the name, the
/// name and the data. A command of more than 255 bytes has its size in eight.
pub proof fn law_command_bytes(name: Seq<u8>, data: Seq<u8>)
    requires
        name.len() <= 255,
        1 + name.len() + data.len() <= u64::MAX,
    ensures
        ({
            let size = 1 + name.len() + data.len();
            let wire = command_frame(name, data);
            if size <= 255 {
                wire == seq![4u8, size as u8, name.len() as u8] + name + data
            } else {
                &&& wire[0] == 6
                &&& crate::bytes::number8(wire.subrange(1, 9)) == size
                &&& wire.skip(9) == seq![name.len() as u8] + name + data
            }
        }),
{
    let wire = command_frame(name, data);
    let body = command_body(name, data);
    crate::bytes::law_bytes_by_places(body.len());
    if body.len() <= 255 {
        assert(wire =~= seq![4u8, body.len() as u8, name.len() as u8] + name + data);
    } else {
        assert(wire.subrange(1, 9) =~= crate::bytes::be_bytes(body.len(), 8));
        assert(wire.skip(9) =~= body);
    }
}

} // verus!
