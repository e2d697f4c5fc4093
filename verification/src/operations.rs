//! What the operations of the library return and leave behind, said of each of them in
//! bytes and in what a peer sees.

use vstd::prelude::*;

use crate::auth::{AuthCheck, Mechanism};
use crate::connection::{ConnError, Connection, State};
use crate::frame::decode_error::DecodeError;
use crate::frame::{
    encode_command_frame, encode_message_frame, DecodedFrame, FrameDecoder, FrameError,
};
use crate::greeting::{
    encode_greeting, encode_plain_greeting, parse_greeting, parse_partial_greeting,
    parse_plain_greeting, GreetingError, PeerGreeting,
};
use crate::group_table::{GroupError, GroupTable};
use crate::io::blocking;
use crate::io::blocking::{
    Ask, BlockingCore, BlockingDriverCore, BlockingRadioDriverCore, Demand, Stage,
};
use crate::io::driver;
use crate::io::driver::{Action, Core, DriverCore, DriverPhase, RadioDriverCore, Todo};
use crate::null::{
    encode_error, encode_ready, encode_ready_radio, parse_ready, parse_ready_from,
    parse_ready_radio, parse_ready_radio_from, NullError, PeerSocketType, Role,
};
use crate::plain::{encode_welcome, parse_hello_from, Authenticator, PlainError};
use crate::radio_connection::RadioConnection;
use crate::registry::Registry;
use crate::session::{PublishHeaders, Session};
use crate::sub_table::{SubError, SubTable};
use crate::{bytes, frame, greeting, null, plain, promises, registry, session};

verus! {

/// The buffer holds `head` at its start, and after it what it held before.
pub open spec fn starts_anew(before: Seq<u8>, after: Seq<u8>, head: Seq<u8>) -> bool {
    &&& after.len() == before.len()
    &&& head.len() <= after.len()
    &&& forall|i: int| 0 <= i < head.len() ==> #[trigger] after[i] == head[i]
    &&& forall|i: int| head.len() <= i < after.len() ==> #[trigger] after[i] == before[i]
}

/// A header encoder writes the header of a body of that length, where it fits.
proof fn lemma_header_is_written(
    before: Seq<u8>,
    after: Seq<u8>,
    len: nat,
    more: bool,
    is_command: bool,
    r: Result<usize, FrameError>,
)
    requires
        len <= u64::MAX,
        frame::header_written(before, after, frame::frame_header(len, more, is_command), r),
    ensures
        header_result(before, after, len, more, is_command, r),
{
    let h = frame::frame_header(len, more, is_command);
    frame::law_header_by_bytes(len, more, is_command);
    if before.len() >= h.len() {
        bytes::law_overwrite_byte_by_byte(before, h);
        assert(after.take(h.len() as int) =~= h);
        if len > 255 {
            assert(after.subrange(1, 9) =~= h.subrange(1, 9));
        }
    }
}

/// What a header encoder returns and leaves: two bytes for a body of up to 255, nine for a
/// longer one; the flags say what they should, and the size is that of the body.
pub open spec fn header_result(
    before: Seq<u8>,
    after: Seq<u8>,
    len: nat,
    more: bool,
    is_command: bool,
    r: Result<usize, FrameError>,
) -> bool {
    let n: nat = if len <= 255 {
        2
    } else {
        9
    };
    if before.len() < n {
        r == Err::<usize, FrameError>(FrameError::BufferTooSmall) && after == before
    } else {
        &&& r == Ok::<usize, FrameError>(n as usize)
        &&& after.len() == before.len()
        &&& after[0] < 8
        &&& after[0] % 2 == 1 <==> more
        &&& (after[0] / 2) % 2 == 1 <==> len > 255
        &&& after[0] / 4 == 1 <==> is_command
        &&& len == if len <= 255 {
            after[1] as int
        } else {
            bytes::number8(after.subrange(1, 9))
        }
        &&& forall|i: int| n <= i < after.len() ==> #[trigger] after[i] == before[i]
    }
}

/// What the two header encoders do.
pub proof fn law_encoders(
    buf: &mut [u8],
    len: usize,
    more: bool,
    r: Result<usize, FrameError>,
)
    ensures
        call_ensures(encode_message_frame, (buf, len, more), r) ==> header_result(
            old(buf)@,
            final(buf)@,
            len as nat,
            more,
            false,
            r,
        ),
        call_ensures(encode_command_frame, (buf, len), r) ==> header_result(
            old(buf)@,
            final(buf)@,
            len as nat,
            false,
            true,
            r,
        ),
{
    if call_ensures(encode_message_frame, (buf, len, more), r) {
        lemma_header_is_written(old(buf)@, final(buf)@, len as nat, more, false, r);
    }
    if call_ensures(encode_command_frame, (buf, len), r) {
        lemma_header_is_written(old(buf)@, final(buf)@, len as nat, false, true, r);
    }
}

/// What the helpers on byte strings return.
pub proof fn law_byte_strings(a: &[u8], b: &[u8], r: bool, n: u64, eight: [u8; 8])
    ensures
        call_ensures(bytes::same, (a, b), r) ==> (r <==> a@.len() == b@.len() && (forall|i: int|
            0 <= i < a@.len() ==> #[trigger] a@[i] == b@[i])),
        call_ensures(bytes::starts_with, (b, a), r) ==> (r <==> exists|rest: Seq<u8>|
            b@ == #[trigger] (a@ + rest)),
        call_ensures(bytes::equal_ignoring_case, (a, b), r) ==> (r <==> a@.len() == b@.len() && (
        forall|i: int|
            0 <= i < a@.len() ==> {
                ||| #[trigger] a@[i] == b@[i]
                ||| 0x41 <= a@[i] <= 0x5A && b@[i] == a@[i] + 32
                ||| 0x41 <= b@[i] <= 0x5A && a@[i] == b@[i] + 32
            })),
        call_ensures(bytes::write_be64, (n,), eight) ==> bytes::number8(eight@) == n,
        a@.len() == 8 && call_ensures(bytes::read_be, (a,), n) ==> n == bytes::number8(a@),
        a@.len() == 4 && call_ensures(bytes::read_be, (a,), n) ==> n == bytes::number4(a@),
{
    bytes::law_prefix_is_byte_by_byte(a@, b@);
    bytes::law_case_is_the_only_difference(a@, b@);
    bytes::law_bytes_by_places(n as nat);
    bytes::law_value_by_places(a@);
    if a@.len() == b@.len() && (forall|i: int| 0 <= i < a@.len() ==> #[trigger] a@[i] == b@[i]) {
        assert(a@ =~= b@);
    }
}

/// What the parsers of greetings return.
pub proof fn law_greeting_parsers(
    g: &[u8; 64],
    head: &[u8; 11],
    r: Result<PeerGreeting, GreetingError>,
    h: Result<(), GreetingError>,
)
    ensures
        call_ensures(parse_greeting, (g,), r) ==> greeting_result(Mechanism::Null, g@, r),
        call_ensures(parse_plain_greeting, (g,), r) ==> greeting_result(Mechanism::Plain, g@, r),
        call_ensures(parse_partial_greeting, (head,), h) ==> h == match promises::greeting_fault(
            Mechanism::Null,
            head@,
        ) {
            None => Ok(()),
            Some(e) => Err(e),
        },
{
    greeting::law_greeting_is_judged_by_its_bytes(Mechanism::Null, g@);
    greeting::law_greeting_is_judged_by_its_bytes(Mechanism::Plain, g@);
    greeting::law_head_is_judged_by_its_bytes(head@);
}

/// A greeting in which nothing is wrong gives its minor version, the twelfth byte; any
/// other one gives what is wrong with it.
pub open spec fn greeting_result(
    mechanism: Mechanism,
    g: Seq<u8>,
    r: Result<PeerGreeting, GreetingError>,
) -> bool {
    match promises::greeting_fault(mechanism, g) {
        None => r is Ok && r->Ok_0.version_minor == g[11],
        Some(e) => r == Err::<PeerGreeting, GreetingError>(e),
    }
}

/// What the encoders of greetings leave.
pub proof fn law_greeting_encoders(buf: &mut [u8; 64])
    ensures
        call_ensures(encode_greeting, (buf,), ()) ==> our_bytes(Mechanism::Null, final(buf)@),
        call_ensures(encode_plain_greeting, (buf,), ()) ==> our_bytes(
            Mechanism::Plain,
            final(buf)@,
        ),
{
    greeting::law_our_greeting_by_bytes(Mechanism::Null);
    greeting::law_our_greeting_by_bytes(Mechanism::Plain);
}

/// The bytes of our greeting: version 3.1, the mechanism, and the server role for PLAIN.
pub open spec fn our_bytes(mechanism: Mechanism, s: Seq<u8>) -> bool {
    &&& s.len() == 64
    &&& s[0] == 0xFF && s[9] == 0x7F && s[10] == 3 && s[11] == 1
    &&& greeting::names_mechanism(mechanism, s)
    &&& s[32] == (if mechanism == Mechanism::Plain {
        1u8
    } else {
        0u8
    })
    &&& forall|i: int| 1 <= i < 9 || 33 <= i < 64 ==> #[trigger] s[i] == 0
}

/// The verdict of a socket on the value of a Socket-Type.
pub open spec fn socket_verdict(role: Role, value: Seq<u8>) -> Result<PeerSocketType, NullError> {
    if role == Role::Pub && value =~= seq![0x53u8, 0x55, 0x42] {
        Ok(PeerSocketType::Sub)
    } else if role == Role::Pub && value =~= seq![0x58u8, 0x53, 0x55, 0x42] {
        Ok(PeerSocketType::Xsub)
    } else if role == Role::Radio && value =~= seq![0x44u8, 0x49, 0x53, 0x48] {
        Ok(PeerSocketType::Dish)
    } else {
        Err(NullError::WrongSocketType)
    }
}

/// The body of a READY: the length of the name, the name, and properties of which the
/// first that is named Socket-Type, in whatever case, has the given value.
pub open spec fn ready_body(
    before: Seq<(Seq<u8>, Seq<u8>)>,
    name: Seq<u8>,
    value: Seq<u8>,
    after: Seq<u8>,
) -> Seq<u8> {
    seq![5u8, 0x52, 0x45, 0x41, 0x44, 0x59] + (null::properties(before) + (null::property(
        name,
        value,
    ) + after))
}

/// What the parsers of READY return: as structured data and as raw bytes, in a frame of up
/// to 255 bytes, the first Socket-Type decides.
pub proof fn law_ready_parsers(
    body: &[u8],
    raw: &[u8],
    before: Seq<(Seq<u8>, Seq<u8>)>,
    name: Seq<u8>,
    value: Seq<u8>,
    after: Seq<u8>,
    rest: Seq<u8>,
    flags: u8,
    r: Result<PeerSocketType, NullError>,
)
    requires
        null::other_properties(before),
        bytes::same_ignoring_case(name, null::SOCKET_TYPE@),
        value.len() <= u32::MAX,
        body@ == ready_body(before, name, value, after),
        (flags / 4) % 2 == 1,
    ensures
        call_ensures(parse_ready_from, (true, body), r) ==> r == socket_verdict(Role::Pub, value),
        call_ensures(parse_ready_radio_from, (true, body), r) ==> r == socket_verdict(
            Role::Radio,
            value,
        ),
        call_ensures(parse_ready_from, (false, body), r) ==> r == Err::<PeerSocketType, NullError>(
            NullError::NotACommand,
        ),
        call_ensures(parse_ready_radio_from, (false, body), r) ==> r == Err::<
            PeerSocketType,
            NullError,
        >(NullError::NotACommand),
        body@.len() <= 255 && raw@ == seq![flags, body@.len() as u8] + body@ + rest ==> {
            &&& call_ensures(parse_ready, (raw,), r) ==> r == socket_verdict(Role::Pub, value)
            &&& call_ensures(parse_ready_radio, (raw,), r) ==> r == socket_verdict(
                Role::Radio,
                value,
            )
        },
{
    let metadata = null::properties(before) + (null::property(name, value) + after);
    assert(body@ =~= crate::command::command_body(crate::command::READY@, metadata));
    null::law_first_socket_type_decides(Role::Pub, before, name, value, after);
    null::law_first_socket_type_decides(Role::Radio, before, name, value, after);
    if body@.len() <= 255 {
        null::law_raw_ready(Role::Pub, flags, body@, rest, raw@);
        null::law_raw_ready(Role::Radio, flags, body@, rest, raw@);
    }
}

/// What the encoders of commands return and leave.
pub proof fn law_command_encoders(
    buf: &mut [u8],
    reason: &[u8],
    r: Result<usize, NullError>,
    w: Result<usize, PlainError>,
)
    ensures
        call_ensures(encode_ready, (buf,), r) ==> command_result(
            old(buf)@,
            final(buf)@,
            null::our_ready(Role::Pub),
            r,
        ),
        call_ensures(encode_ready_radio, (buf,), r) ==> command_result(
            old(buf)@,
            final(buf)@,
            null::our_ready(Role::Radio),
            r,
        ),
        call_ensures(encode_error, (buf, reason), r) ==> if reason@.len() > 248 {
            r == Err::<usize, NullError>(NullError::ReasonTooLong) && final(buf)@ == old(buf)@
        } else {
            command_result(
                old(buf)@,
                final(buf)@,
                null::error_bytes(reason@),
                r,
            )
        },
        call_ensures(encode_welcome, (buf,), w) ==> if old(buf)@.len() < 10 {
            w == Err::<usize, PlainError>(PlainError::BufferTooSmall) && final(buf)@ == old(buf)@
        } else {
            w == Ok::<usize, PlainError>(10) && starts_anew(
                old(buf)@,
                final(buf)@,
                seq![4u8, 8, 7, 0x57, 0x45, 0x4C, 0x43, 0x4F, 0x4D, 0x45],
            )
        },
{
    lemma_starts_anew(old(buf)@, null::our_ready(Role::Pub));
    lemma_starts_anew(old(buf)@, null::our_ready(Role::Radio));
    lemma_starts_anew(old(buf)@, plain::WELCOME_FRAME@);
    if reason@.len() <= 248 {
        lemma_starts_anew(old(buf)@, null::error_frame(reason@));
        null::law_our_commands_by_bytes(reason@);
    }
}

/// What is written over a buffer starts it anew.
proof fn lemma_starts_anew(before: Seq<u8>, head: Seq<u8>)
    ensures
        head.len() <= before.len() ==> starts_anew(before, bytes::overwrite(before, head), head),
{
    if head.len() <= before.len() {
        bytes::law_overwrite_byte_by_byte(before, head);
    }
}

/// A command is written whole where it fits, and not at all where it does not.
pub open spec fn command_result(
    before: Seq<u8>,
    after: Seq<u8>,
    wire: Seq<u8>,
    r: Result<usize, NullError>,
) -> bool {
    if before.len() < wire.len() {
        r == Err::<usize, NullError>(NullError::BufferTooSmall) && after == before
    } else {
        r == Ok::<usize, NullError>(wire.len() as usize) && starts_anew(before, after, wire)
    }
}

/// What the parser of HELLO returns: the user name and the password, where the body is the
/// name HELLO and then both of them, each behind its length.
pub proof fn law_hello_parser(
    body: &[u8],
    data: Seq<u8>,
    username: Seq<u8>,
    password: Seq<u8>,
    r: Result<(&[u8], &[u8]), PlainError>,
)
    requires
        body@ == seq![5u8, 0x48, 0x45, 0x4C, 0x4C, 0x4F] + data,
        call_ensures(parse_hello_from, (true, body), r),
    ensures
        plain::holds_credentials(data, username, password) <==> r is Ok && r->Ok_0.0@ == username
            && r->Ok_0.1@ == password,
        r is Err ==> r->Err_0 == PlainError::MalformedHello,
{
    let name = seq![0x48u8, 0x45, 0x4C, 0x4C, 0x4F];
    assert(body@ =~= seq![5u8] + name + data);
    plain::law_hello_is_read(true, name, data, username, password);
    plain::law_what_is_no_hello(body@, name, data);
    assert(name[0] != 0x45u8);
}

/// What the parsers return of any frame is the verdict on it.
pub proof fn law_verdicts_are_returned(
    is_command: bool,
    body: &[u8],
    r: Result<PeerSocketType, NullError>,
    h: Result<(&[u8], &[u8]), PlainError>,
)
    ensures
        call_ensures(parse_ready_from, (is_command, body), r) ==> r == null::ready_verdict(
            Role::Pub,
            is_command,
            body@,
        ),
        call_ensures(parse_ready_radio_from, (is_command, body), r) ==> r == null::ready_verdict(
            Role::Radio,
            is_command,
            body@,
        ),
        call_ensures(parse_ready, (body,), r) ==> r == null::ready_wire_verdict(Role::Pub, body@),
        call_ensures(parse_ready_radio, (body,), r) ==> r == null::ready_wire_verdict(
            Role::Radio,
            body@,
        ),
        call_ensures(parse_hello_from, (is_command, body), h) ==> match plain::hello_verdict(
            is_command,
            body@,
        ) {
            Ok((username, password)) => h is Ok && h->Ok_0.0@ == username && h->Ok_0.1@ == password,
            Err(e) => h is Err && h->Err_0 == e,
        },
{
}

// ---------------------------------------------------------------------------
// Tables
// ---------------------------------------------------------------------------

/// What a table of prefixes does: it holds what was subscribed and not cancelled, as far as
/// its limits allow, and selects the topics that begin with a prefix that it holds.
pub proof fn law_prefix_table<const M: usize, const L: usize>(
    t: &mut SubTable<M, L>,
    prefix: &[u8],
    topic: &[u8],
    r: Result<(), SubError>,
    yes: bool,
    other: Seq<u8>,
)
    requires
        old(t).wf(),
    ensures
        call_ensures(SubTable::<M, L>::subscribe, (t, prefix), r) ==> {
            let room = prefix@.len() <= L && old(t)@.len() < M;
            &&& final(t)@.contains(other) <==> old(t)@.contains(other) || other == prefix@ && room
            &&& r == if prefix@.len() > L {
                Err::<(), SubError>(SubError::PrefixTooLong)
            } else if !old(t)@.contains(prefix@) && old(t)@.len() >= M {
                Err(SubError::TableFull)
            } else {
                Ok(())
            }
        },
        call_ensures(SubTable::<M, L>::cancel, (t, prefix), ()) ==> (final(t)@.contains(other)
            <==> old(t)@.contains(other) && other != prefix@),
        call_ensures(SubTable::<M, L>::matches, (old(t), topic), yes) ==> (yes <==> exists|
            p: Seq<u8>,
            rest: Seq<u8>,
        |
            old(t)@.contains(p) && topic@ == #[trigger] (p + rest)),
{
    registry::law_selection_by_bytes(old(t)@, topic@);
}

/// What a table of groups does: it holds what was joined and not left, as far as its limits
/// allow, and selects exactly the groups that it holds.
pub proof fn law_group_table<const M: usize, const L: usize>(
    t: &mut GroupTable<M, L>,
    group: &[u8],
    topic: &[u8],
    r: Result<(), GroupError>,
    yes: bool,
    other: Seq<u8>,
)
    requires
        old(t).wf(),
    ensures
        call_ensures(GroupTable::<M, L>::join, (t, group), r) ==> {
            let room = group@.len() <= L && old(t)@.len() < M;
            &&& final(t)@.contains(other) <==> old(t)@.contains(other) || other == group@ && room
            &&& r == if group@.len() > L {
                Err::<(), GroupError>(GroupError::GroupTooLong)
            } else if !old(t)@.contains(group@) && old(t)@.len() >= M {
                Err(GroupError::TableFull)
            } else {
                Ok(())
            }
        },
        call_ensures(GroupTable::<M, L>::leave, (t, group), ()) ==> (final(t)@.contains(other)
            <==> old(t)@.contains(other) && other != group@),
        call_ensures(GroupTable::<M, L>::matches, (old(t), topic), yes) ==> (yes <==> old(
            t,
        )@.contains(topic@)),
{
}

// ---------------------------------------------------------------------------
// Frames
// ---------------------------------------------------------------------------

/// What a frame decoder does: fed after the bytes that it has, it hands out the frame with
/// which all of them begin, once it is whole, and takes no byte after it.
pub proof fn law_decoder<'a, const CAP: usize>(
    d: &'a mut FrameDecoder<CAP>,
    input: &[u8],
    r: Result<(usize, Option<DecodedFrame<'a>>), DecodeError>,
)
    requires
        old(d).wf(),
        !old(d)@.poisoned,
        input@.len() > 0,
        call_ensures(FrameDecoder::<CAP>::feed, (d, input), r),
    ensures
        ({
            let had = old(d)@.pending;
            let all = had + input@;
            match frame::parse_frame(CAP as nat, all) {
                frame::Parse::Whole(f, n) => {
                    &&& r matches Ok((taken, Some(given))) && {
                        &&& had.len() + taken == n
                        &&& given.more == f.more
                        &&& given.is_command == f.is_command
                        &&& given.body@ == f.body
                    }
                    &&& final(d)@.pending.len() == 0
                    &&& !final(d)@.poisoned
                },
                frame::Parse::Partial => {
                    &&& r matches Ok((taken, None)) && taken == input@.len()
                    &&& final(d)@.pending == all
                    &&& !final(d)@.poisoned
                },
                frame::Parse::Refused(e) => {
                    &&& r matches Err(given) && given == e
                    &&& final(d)@.poisoned
                },
            }
        }),
{
    old(d).law_ok();
    frame::law_feed_keeps_ok(CAP as nat, old(d)@, input@);
    frame::law_parse_by_bytes(CAP as nat, old(d)@.pending + input@);
    frame::lemma_whole_needs_more(CAP as nat, old(d)@.pending, input@);
    let fed = frame::decoder_feed(CAP as nat, old(d)@, input@);
    assert(final(d)@ == fed.0);
    assert(frame::feed_result(r) == fed.1);
    assert(input.len() == input@.len());
    match r {
        Ok((_, Some(given))) => {
            assert(fed.1->Ok_0.1 is Some);
            assert(given@ == fed.1->Ok_0.1->Some_0);
        },
        Ok((_, None)) => {
            assert(fed.1->Ok_0.1 is None);
        },
        Err(_) => {},
    }
}

/// A new decoder, and one that was reset, has nothing pending and is not poisoned.
pub proof fn law_new_decoder<const CAP: usize>(d: &mut FrameDecoder<CAP>, r: FrameDecoder<CAP>)
    ensures
        call_ensures(FrameDecoder::<CAP>::new, (), r) ==> r@.pending.len() == 0 && !r@.poisoned,
        call_ensures(FrameDecoder::<CAP>::reset, (d,), ()) ==> final(d)@.pending.len() == 0
            && !final(d)@.poisoned,
{
}

// ---------------------------------------------------------------------------
// Sessions
// ---------------------------------------------------------------------------

/// What a new connection is: a PUB or a RADIO session that has just begun, with the limits
/// that are its parameters.
pub proof fn law_new_connections<const S: usize, const P: usize, const F: usize>(
    c: Connection<S, P, F, ()>,
    d: RadioConnection<S, P, F, ()>,
)
    ensures
        call_ensures(Connection::<S, P, F, ()>::new, (), c) ==> c.wf() && c@ == session::fresh(
            Role::Pub,
            Mechanism::Null,
            F as nat,
            S as nat,
            P as nat,
        ),
        call_ensures(RadioConnection::<S, P, F, ()>::new, (), d) ==> d.wf() && d@
            == session::fresh(Role::Radio, Mechanism::Null, F as nat, S as nat, P as nat),
{
}

/// The same of connections that speak PLAIN. They ask the authenticator that they were
/// given.
pub proof fn law_new_plain_connections<
    const S: usize,
    const P: usize,
    const F: usize,
    A: Authenticator,
>(auth: A, c: Connection<S, P, F, A>, d: RadioConnection<S, P, F, A>)
    ensures
        call_ensures(Connection::<S, P, F, A>::new_plain, (auth,), c) ==> c.wf()
            && c.authenticator() == auth && c@ == session::fresh(
            Role::Pub,
            Mechanism::Plain,
            F as nat,
            S as nat,
            P as nat,
        ),
        call_ensures(RadioConnection::<S, P, F, A>::new_plain, (auth,), d) ==> d.wf()
            && d.authenticator() == auth && d@ == session::fresh(
            Role::Radio,
            Mechanism::Plain,
            F as nat,
            S as nat,
            P as nat,
        ),
{
}

/// What a write returns and leaves: `bytes` at the start of the buffer and their number,
/// where they fit; otherwise the error, and nothing else.
pub open spec fn write_result(
    before: Seq<u8>,
    after: Seq<u8>,
    bytes: Seq<u8>,
    too_small: ConnError,
    r: Result<usize, ConnError>,
) -> bool {
    if before.len() < bytes.len() {
        r == Err::<usize, ConnError>(too_small) && after == before
    } else {
        r == Ok::<usize, ConnError>(bytes.len() as usize) && starts_anew(before, after, bytes)
    }
}

/// A write that is not in order leaves the buffer as it is.
pub open spec fn write_refused(
    before: Seq<u8>,
    after: Seq<u8>,
    r: Result<usize, ConnError>,
) -> bool {
    r == Err::<usize, ConnError>(ConnError::WrongState) && after == before
}

/// What publishing does: it changes nothing about the session; it is refused before the
/// session is established; it writes nothing where the peer has not asked for the topic;
/// and otherwise it writes the message, a frame with the topic and the flag that more
/// follows, and a frame with the payload and without it.
pub proof fn law_publish<R: Registry, const F: usize, A: AuthCheck>(
    conn: &mut Session<R, F, A>,
    topic: &[u8],
    payload: &[u8],
    out: &mut [u8],
    r: Result<usize, ConnError>,
)
    requires
        old(conn).wf(),
        call_ensures(Session::<R, F, A>::publish, (conn, topic, payload, out), r),
    ensures
        final(conn)@ == old(conn)@,
        if old(conn)@.state != State::Established {
            write_refused(old(out)@, final(out)@, r)
        } else if !promises::asked_for(old(conn)@, topic@) {
            r == Ok::<usize, ConnError>(0) && final(out)@ == old(out)@
        } else {
            exists|h: Seq<u8>, k: Seq<u8>|
                {
                    &&& #[trigger] promises::heads_message(h, topic@.len(), true)
                    &&& #[trigger] promises::heads_message(k, payload@.len(), false)
                    &&& write_result(
                        old(out)@,
                        final(out)@,
                        h + topic@ + k + payload@,
                        ConnError::BufferTooSmall,
                        r,
                    )
                }
        },
{
    let none = Seq::<u8>::empty();
    promises::law_when_a_message_is_written(old(conn)@, topic@, payload@, old(out)@.len());
    assert(topic.len() == topic@.len() && payload.len() == payload@.len());
    let (h, k) = promises::law_message_by_bytes(topic@, payload@);
    lemma_starts_anew(old(out)@, session::message_wire(topic@, payload@));
    assert(bytes::overwrite(old(out)@, none) =~= old(out)@);
    assert(session::publish_step(old(conn)@, topic@, payload@, old(out)@.len()).bytes.len() == 0
        ==> session::publish_step(old(conn)@, topic@, payload@, old(out)@.len()).bytes =~= none);
    assert(promises::heads_message(h, topic@.len(), true));
    assert(promises::heads_message(k, payload@.len(), false));
}

/// What the headers for a message are: there where the peer has asked for the topic, and
/// the same as those of the published message.
pub proof fn law_publish_headers<R: Registry, const F: usize, A: AuthCheck>(
    conn: &mut Session<R, F, A>,
    topic: &[u8],
    payload: &[u8],
    r: Result<Option<PublishHeaders>, ConnError>,
)
    requires
        old(conn).wf(),
        call_ensures(Session::<R, F, A>::publish_headers, (conn, topic, payload), r),
    ensures
        final(conn)@ == old(conn)@,
        old(conn)@.state != State::Established <==> r is Err,
        r is Err ==> r->Err_0 == ConnError::WrongState,
        old(conn)@.state == State::Established ==> (promises::asked_for(old(conn)@, topic@)
            <==> r->Ok_0 is Some),
        r matches Ok(Some(h)) ==> {
            &&& h.1 <= 9
            &&& h.3 <= 9
            &&& promises::heads_message(h.0@.take(h.1 as int), topic@.len(), true)
            &&& promises::heads_message(h.2@.take(h.3 as int), payload@.len(), false)
            &&& forall|i: int| h.1 <= i < 9 ==> #[trigger] h.0@[i] == 0
            &&& forall|i: int| h.3 <= i < 9 ==> #[trigger] h.2@[i] == 0
        },
{
    registry::law_selection_by_bytes(old(conn)@.entries, topic@);
    if let Ok(Some(h)) = r {
        let a = frame::frame_header(topic@.len(), true, false);
        let b = frame::frame_header(payload@.len(), false, false);
        assert(topic.len() == topic@.len() && payload.len() == payload@.len());
        promises::lemma_message_header(topic@.len(), true);
        promises::lemma_message_header(payload@.len(), false);
        assert(h.0@.take(h.1 as int) =~= a);
        assert(h.2@.take(h.3 as int) =~= b);
    }
}

/// What feeding does: what the bytes come to, with some verdict of the authenticator, which
/// is one that it may give on the credentials that it is asked about.
pub proof fn law_feed<R: Registry, const F: usize, A: AuthCheck>(
    conn: &mut Session<R, F, A>,
    input: &[u8],
    r: Result<usize, ConnError>,
)
    requires
        old(conn).wf(),
        call_ensures(Session::<R, F, A>::feed, (conn, input), r),
    ensures
        final(conn).wf(),
        exists|verdict: bool|
            {
                let outcome = #[trigger] session::feed_step(old(conn)@, input@, verdict);
                &&& final(conn)@ == outcome.after
                &&& r == outcome.result
                &&& outcome.asked matches Some((username, password)) ==> old(
                    conn,
                ).authenticator().may_answer(username, password, verdict)
            },
{
    let verdict = choose|verdict: bool|
        #[trigger] Session::<R, F, A>::fed(*old(conn), input@, verdict, r, *final(conn));
    assert(Session::<R, F, A>::fed(*old(conn), input@, verdict, r, *final(conn)));
    let outcome = session::feed_step(old(conn)@, input@, verdict);
    assert(final(conn)@ == outcome.after);
}

/// What the writes of the handshake do: READY, WELCOME, ERROR and the rest of our greeting
/// are written when they are in order, as bytes at the start of the buffer.
pub proof fn law_session_writes<R: Registry, const F: usize, A: AuthCheck>(
    conn: &mut Session<R, F, A>,
    out: &mut [u8],
    r: Result<usize, ConnError>,
)
    requires
        old(conn).wf(),
    ensures
        ({
            let v = old(conn)@;
            let small = ConnError::BufferTooSmall;
            &&& call_ensures(Session::<R, F, A>::write_ready, (conn, out), r) ==> if !v.ready_sent
                && (v.state == State::Ready || v.state == State::PlainReady && v.welcome_sent) {
                write_result(old(out)@, final(out)@, null::our_ready(v.role), small, r)
            } else {
                write_refused(old(out)@, final(out)@, r)
            }
            &&& call_ensures(Session::<R, F, A>::write_welcome, (conn, out), r) ==> if v.state
                == State::PlainReady && !v.welcome_sent {
                write_result(
                    old(out)@,
                    final(out)@,
                    seq![4u8, 8, 7, 0x57, 0x45, 0x4C, 0x43, 0x4F, 0x4D, 0x45],
                    ConnError::PlainError(PlainError::BufferTooSmall),
                    r,
                )
            } else {
                write_refused(old(out)@, final(out)@, r)
            }
            &&& call_ensures(Session::<R, F, A>::write_error, (conn, out), r) ==> write_result(
                old(out)@,
                final(out)@,
                promises::refusal_bytes(),
                ConnError::NullError(NullError::BufferTooSmall),
                r,
            )
            &&& call_ensures(Session::<R, F, A>::write_greeting_rest, (conn, out), r) ==> if v.state
                == State::Greeting && v.head_sent && !v.greeting_sent {
                write_result(
                    old(out)@,
                    final(out)@,
                    greeting::our_greeting(v.mechanism).skip(11),
                    small,
                    r,
                )
            } else {
                write_refused(old(out)@, final(out)@, r)
            }
        }),
{
    let v = old(conn)@;
    let room = old(out)@.len();
    promises::law_when_commands_are_written(v, room);
    promises::law_when_the_greeting_is_written(v, room);
    lemma_write(old(out)@, session::write_ready_step(v, room));
    lemma_write(old(out)@, session::write_welcome_step(v, room));
    lemma_write(old(out)@, session::write_error_step(v, room));
    lemma_write(old(out)@, session::write_rest_step(v, room));
    greeting::lemma_our_greeting_len(v.mechanism);
}

/// What a write leaves in the buffer.
proof fn lemma_write(before: Seq<u8>, w: session::WriteOutcome)
    requires
        w.bytes.len() <= before.len(),
    ensures
        starts_anew(before, bytes::overwrite(before, w.bytes), w.bytes),
        w.bytes.len() == 0 ==> bytes::overwrite(before, w.bytes) == before,
{
    lemma_starts_anew(before, w.bytes);
    if w.bytes.len() == 0 {
        assert(bytes::overwrite(before, w.bytes) =~= before);
    }
}

/// What writing a PONG does: where one is pending, it is written with its context and is
/// not pending any more; where none is, nothing happens.
pub proof fn law_write_pong<R: Registry, const F: usize, A: AuthCheck>(
    conn: &mut Session<R, F, A>,
    out: &mut [u8],
    r: Result<Option<usize>, ConnError>,
)
    requires
        old(conn).wf(),
        call_ensures(Session::<R, F, A>::write_pong, (conn, out), r),
    ensures
        ({
            let v = old(conn)@;
            match v.pong {
                None => {
                    &&& r == Ok::<Option<usize>, ConnError>(None)
                    &&& final(out)@ == old(out)@
                    &&& final(conn)@ == v
                },
                Some(context) => if old(out)@.len() < 7 + context.len() {
                    &&& r == Err::<Option<usize>, ConnError>(ConnError::BufferTooSmall)
                    &&& final(out)@ == old(out)@
                    &&& final(conn)@ == v
                } else {
                    &&& r == Ok::<Option<usize>, ConnError>(Some((7 + context.len()) as usize))
                    &&& starts_anew(old(out)@, final(out)@, promises::pong_bytes(context))
                    &&& final(conn)@ == (session::SessionView { pong: None, ..v })
                },
            }
        }),
{
    let v = old(conn)@;
    old(conn).law_consistent();
    promises::law_when_a_pong_is_written(v, old(out)@.len());
    let w = session::write_pong_step(v, old(out)@.len());
    lemma_write(old(out)@, w);
}

/// What the writes of our greeting do: the first 11 bytes of it, or all 64, are written
/// once, as the first thing that is.
pub proof fn law_greeting_writes<const S: usize, const P: usize, const F: usize, A: AuthCheck>(
    c: &mut Connection<S, P, F, A>,
    d: &mut RadioConnection<S, P, F, A>,
    out: &mut [u8],
    r: Result<usize, ConnError>,
)
    requires
        old(c).wf(),
        old(d).wf(),
    ensures
        ({
            let ours = greeting::our_greeting(old(c)@.mechanism);
            let first = old(c)@.state == State::Greeting && !old(c)@.head_sent;
            &&& call_ensures(Connection::<S, P, F, A>::write_greeting, (c, out), r) ==> if first {
                greeting_written(old(out)@, final(out)@, ours.take(11), r)
            } else {
                write_refused(old(out)@, final(out)@, r)
            }
            &&& call_ensures(Connection::<S, P, F, A>::write_full_greeting, (c, out), r)
                ==> if first {
                greeting_written(old(out)@, final(out)@, ours, r)
            } else {
                write_refused(old(out)@, final(out)@, r)
            }
        }),
        ({
            let ours = greeting::our_greeting(old(d)@.mechanism);
            let first = old(d)@.state == State::Greeting && !old(d)@.head_sent;
            &&& call_ensures(RadioConnection::<S, P, F, A>::write_greeting, (d, out), r)
                ==> if first {
                greeting_written(old(out)@, final(out)@, ours, r)
            } else {
                write_refused(old(out)@, final(out)@, r)
            }
            &&& call_ensures(RadioConnection::<S, P, F, A>::write_partial_greeting, (d, out), r)
                ==> if first {
                greeting_written(old(out)@, final(out)@, ours.take(11), r)
            } else {
                write_refused(old(out)@, final(out)@, r)
            }
        }),
{
    old(c).law_consistent();
    old(d).law_consistent();
    lemma_greeting_writes(old(c)@, old(out)@);
    lemma_greeting_writes(old(d)@, old(out)@);
}

/// A greeting, or its first part, is written whole or not at all.
pub open spec fn greeting_written(
    before: Seq<u8>,
    after: Seq<u8>,
    bytes: Seq<u8>,
    r: Result<usize, ConnError>,
) -> bool {
    write_result(before, after, bytes, ConnError::BufferTooSmall, r)
}

/// What the writes of a greeting leave in the buffer.
proof fn lemma_greeting_writes(v: session::SessionView, before: Seq<u8>)
    requires
        v.greeting_sent ==> v.head_sent,
    ensures
        ({
            let ours = greeting::our_greeting(v.mechanism);
            let head = session::write_head_step(v, before.len());
            let whole = session::write_whole_step(v, before.len());
            let both = session::write_full_step(v, before.len());
            let after_head = bytes::overwrite(before, head.bytes);
            let after_whole = bytes::overwrite(before, whole.bytes);
            let after_both = bytes::overwrite(before, both.bytes);
            if v.state == State::Greeting && !v.head_sent {
                &&& greeting_written(before, after_head, ours.take(11), head.result)
                &&& greeting_written(before, after_whole, ours, whole.result)
                &&& greeting_written(before, after_both, ours, both.result)
            } else {
                &&& write_refused(before, after_head, head.result)
                &&& write_refused(before, after_whole, whole.result)
                &&& write_refused(before, after_both, both.result)
            }
        }),
{
    promises::law_when_the_greeting_is_written(v, before.len());
    greeting::lemma_our_greeting_len(v.mechanism);
    lemma_write(before, session::write_head_step(v, before.len()));
    lemma_write(before, session::write_whole_step(v, before.len()));
    lemma_write(before, session::write_full_step(v, before.len()));
}

/// What a session tells of itself: its state, and the version of its peer, whose minor part
/// is the twelfth byte of a greeting in which nothing is wrong, and zero before that.
pub proof fn law_session_tells<R: Registry, const F: usize, A: AuthCheck>(
    conn: &Session<R, F, A>,
    state: &State,
    version: (u8, u8),
    pending: bool,
)
    requires
        conn.wf(),
    ensures
        call_ensures(Session::<R, F, A>::state, (conn,), state) ==> *state == conn@.state,
        call_ensures(Session::<R, F, A>::peer_version, (conn,), version) ==> version == (
            3u8,
            (if conn@.peer_greeting.len() == 64 && promises::greeting_fault(
                conn@.mechanism,
                conn@.peer_greeting,
            ) is None {
                conn@.peer_greeting[11]
            } else {
                0
            }),
        ),
        call_ensures(Session::<R, F, A>::greeting_rest_pending, (conn,), pending) ==> (pending
            <==> conn@.state == State::Greeting && conn@.head_sent && !conn@.greeting_sent
            && conn@.peer_greeting.len() >= 11),
{
    promises::law_when_a_peer_has_greeted(conn@);
}

// ---------------------------------------------------------------------------
// Drivers
// ---------------------------------------------------------------------------

/// What a step of a driver does: what it comes to, with some verdict of the authenticator,
/// is what the driver is told to do.
pub proof fn law_step<'a, R: Registry, const F: usize, A: AuthCheck>(
    core: &'a mut Core<R, F, A>,
    r: Result<Action<'a>, ConnError>,
)
    requires
        old(core).wf(),
        call_ensures(Core::<R, F, A>::step, (core,), r),
    ensures
        final(core).wf(),
        exists|verdict: bool|
            {
                let s = #[trigger] driver::step_of(old(core)@, verdict);
                &&& final(core)@ == s.after
                &&& match s.result {
                    Ok(Todo::Read) => r matches Ok(Action::Read),
                    Ok(Todo::Write(bytes)) => r matches Ok(Action::Write(given)) && given@ == bytes,
                    Ok(Todo::Established) => r matches Ok(Action::Established),
                    Ok(Todo::Parked) => r matches Ok(Action::Parked),
                    Err(e) => r matches Err(given) && given == e,
                }
                &&& s.asked matches Some((username, password)) ==> old(
                    core,
                ).authenticator().may_answer(username, password, verdict)
            },
{
    let verdict = choose|verdict: bool|
        #[trigger] Core::<R, F, A>::stepped(*old(core), verdict, r, *final(core));
    assert(Core::<R, F, A>::stepped(*old(core), verdict, r, *final(core)));
    let s = driver::step_of(old(core)@, verdict);
    assert(final(core)@ == s.after);
}

/// The demand is what was asked for.
pub open spec fn demanded(asked: Result<Ask, ConnError>, r: Result<Demand<'_>, ConnError>) -> bool {
    match asked {
        Ok(Ask::Read) => r matches Ok(Demand::Read),
        Ok(Ask::Write(bytes)) => r matches Ok(Demand::Write(given)) && given@ == bytes,
        Ok(Ask::Farewell(bytes)) => r matches Ok(Demand::Farewell(given)) && given@ == bytes,
        Ok(Ask::Done(established)) => r matches Ok(Demand::Done(given)) && given == established,
        Err(e) => r matches Err(given) && given == e,
    }
}

/// What a poll of a blocking driver does, from its begin or after a read or a write: what
/// it comes to, with some verdict of the authenticator, is what the driver is told to do.
pub proof fn law_poll<'a, R: Registry, const F: usize, A: AuthCheck>(
    core: &'a mut BlockingCore<R, F, A>,
    n: usize,
    r: Result<Demand<'a>, ConnError>,
)
    requires
        old(core).wf(),
        n <= old(core).slot().len(),
    ensures
        call_ensures(BlockingCore::<R, F, A>::poll, (core,), r) ==> exists|verdict: bool|
            {
                let o = #[trigger] blocking::poll_of(old(core)@, verdict);
                final(core)@ == o.after && demanded(o.result, r)
            },
        call_ensures(BlockingCore::<R, F, A>::wrote, (core,), r) ==> exists|verdict: bool|
            {
                let o = #[trigger] blocking::wrote_of(old(core)@, verdict);
                final(core)@ == o.after && demanded(o.result, r)
            },
        call_ensures(BlockingCore::<R, F, A>::received, (core, n), r) ==> exists|verdict: bool|
            {
                let o = #[trigger] blocking::received_of(
                    old(core)@,
                    old(core).slot().take(n as int),
                    verdict,
                );
                final(core)@ == o.after && demanded(o.result, r)
            },
{
    if call_ensures(BlockingCore::<R, F, A>::poll, (core,), r) {
        let verdict = choose|verdict: bool|
            #[trigger] BlockingCore::<R, F, A>::came_to(
                *old(core),
                blocking::poll_of(old(core)@, verdict),
                verdict,
                r,
                *final(core),
            );
        let o = blocking::poll_of(old(core)@, verdict);
        assert(final(core)@ == o.after && demanded(o.result, r));
    }
    if call_ensures(BlockingCore::<R, F, A>::wrote, (core,), r) {
        let verdict = choose|verdict: bool|
            #[trigger] BlockingCore::<R, F, A>::came_to(
                *old(core),
                blocking::wrote_of(old(core)@, verdict),
                verdict,
                r,
                *final(core),
            );
        let o = blocking::wrote_of(old(core)@, verdict);
        assert(final(core)@ == o.after && demanded(o.result, r));
    }
    if call_ensures(BlockingCore::<R, F, A>::received, (core, n), r) {
        let new = old(core).slot().take(n as int);
        let verdict = choose|verdict: bool|
            #[trigger] BlockingCore::<R, F, A>::came_to(
                *old(core),
                blocking::received_of(old(core)@, new, verdict),
                verdict,
                r,
                *final(core),
            );
        let o = blocking::received_of(old(core)@, new, verdict);
        assert(final(core)@ == o.after && demanded(o.result, r));
    }
}

/// What the headers are that a driver gives: those of its session.
pub proof fn law_driver_headers<R: Registry, const F: usize, A: AuthCheck>(
    core: &mut Core<R, F, A>,
    polled: &mut BlockingCore<R, F, A>,
    topic: &[u8],
    payload: &[u8],
    r: Result<Option<PublishHeaders>, ConnError>,
)
    requires
        old(core).wf(),
        old(polled).wf(),
    ensures
        call_ensures(Core::<R, F, A>::publish_headers, (core, topic, payload), r) ==> final(core)@
            == old(core)@ && session::headers_result(old(core)@.conn, topic@, payload@, r),
        call_ensures(BlockingCore::<R, F, A>::publish_headers, (polled, topic, payload), r)
            ==> final(polled)@ == old(polled)@ && session::headers_result(
            old(polled)@.conn,
            topic@,
            payload@,
            r,
        ),
{
}

/// What a driver is when it gets its session: it has received nothing and has nothing to
/// write.
pub proof fn law_new_drivers<const S: usize, const P: usize, const F: usize, A: AuthCheck>(
    c: Connection<S, P, F, A>,
    d: RadioConnection<S, P, F, ()>,
    core: DriverCore<S, P, F, A>,
    radio: RadioDriverCore<S, P, F>,
    blocking: BlockingDriverCore<S, P, F, A>,
    blocking_radio: BlockingRadioDriverCore<S, P, F, ()>,
)
    requires
        c.wf(),
        d.wf(),
    ensures
        call_ensures(DriverCore::<S, P, F, A>::new_null, (c,), core) ==> new_driver(core@, c@),
        call_ensures(DriverCore::<S, P, F, A>::new_plain, (c,), core) ==> new_driver(core@, c@),
        call_ensures(RadioDriverCore::<S, P, F>::new, (d,), radio) ==> new_driver(radio@, d@),
        call_ensures(BlockingDriverCore::<S, P, F, A>::new, (c,), blocking) ==> blocking@.conn
            == c@ && blocking@.rx.len() == 0 && blocking@.fed == 0 && blocking@.stage
            == Stage::Idle,
        call_ensures(BlockingRadioDriverCore::<S, P, F, ()>::new, (d,), blocking_radio)
            ==> blocking_radio@.conn == d@ && blocking_radio@.rx.len() == 0 && blocking_radio@.fed
            == 0 && blocking_radio@.stage == Stage::Idle,
{
}

/// A driver that has just got its session.
pub open spec fn new_driver(core: driver::CoreView, conn: session::SessionView) -> bool {
    &&& core.conn == conn
    &&& core.rx.len() == 0
    &&& core.tx.len() == 0
    &&& core.phase == DriverPhase::AwaitingPeerGreeting
    &&& core.error is None
    &&& core.whole == conn.greeting_sent
}

/// What reading into a driver does: the bytes that were put into the free part of its buffer
/// come after those that it has.
pub proof fn law_received_bytes<R: Registry, const F: usize, A: AuthCheck>(
    core: &mut Core<R, F, A>,
    n: usize,
)
    requires
        old(core).wf(),
        n <= old(core).slot().len(),
        call_ensures(Core::<R, F, A>::advance_rx, (core, n), ()),
    ensures
        final(core)@ == (driver::CoreView {
            rx: old(core)@.rx + old(core).slot().take(n as int),
            ..old(core)@
        }),
        final(core)@.rx.len() + final(core).slot().len() == 512,
{
    final(core).law_consistent();
}

} // verus!
