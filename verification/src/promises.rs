//! What a session promises, said in bytes: which bytes of the peer come to what, and
//! which bytes are written when.

use vstd::prelude::*;

use crate::auth::Mechanism;
use crate::connection::{ConnError, State};
use crate::frame::DecoderState;
use crate::greeting::GreetingError;
use crate::null::{NullError, Role};
use crate::plain::PlainError;
use crate::session::{SessionView, WriteOutcome};
use crate::{bytes, command, entries, frame, greeting, laws, null, plain, registry, session};

verus! {

// ---------------------------------------------------------------------------
// What comes in
// ---------------------------------------------------------------------------

/// A session that has just begun has sent, received and stored nothing.
pub proof fn law_beginning(role: Role, mechanism: Mechanism, cap: nat, max: nat, len: nat)
    ensures
        ({
            let v = session::fresh(role, mechanism, cap, max, len);
            &&& v.role == role && v.mechanism == mechanism && v.state == State::Greeting
            &&& !v.head_sent && !v.greeting_sent && !v.welcome_sent && !v.ready_sent
            &&& v.peer_greeting.len() == 0 && v.decoder.pending.len() == 0 && !v.decoder.poisoned
            &&& v.entries == Set::<Seq<u8>>::empty() && v.pong is None
            &&& v.frame_cap == cap && v.max_entries == max && v.max_len == len
        }),
{
}

/// Which sessions take bytes: one that waits for the peer's READY only after it has
/// written its own, and with PLAIN its WELCOME too, a failed one never, every other one
/// at all times. The others leave everything as it is.
pub proof fn law_when_bytes_are_taken(v: SessionView, input: Seq<u8>, verdict: bool)
    ensures
        session::listens(v) <==> {
            ||| v.state == State::Greeting
            ||| v.state == State::PlainHello
            ||| v.state == State::Established
            ||| v.state == State::Ready && v.ready_sent
            ||| v.state == State::PlainReady && v.welcome_sent && v.ready_sent
        },
        !session::listens(v) ==> session::feed_step(v, input, verdict) == (session::FeedOutcome {
            after: v,
            result: Err(ConnError::WrongState),
            asked: None,
        }),
        session::digest(v, input, verdict) == session::feed_step(v, input, verdict),
{
    reveal(session::digest);
}

/// What is wrong with a greeting, read off its bytes.
pub open spec fn greeting_fault(mechanism: Mechanism, g: Seq<u8>) -> Option<GreetingError> {
    if g.len() >= 11 && (g[0] != 0xFF || g[9] != 0x7F) {
        Some(GreetingError::InvalidSignature)
    } else if g.len() >= 11 && g[10] != 3 {
        Some(GreetingError::UnsupportedVersionMajor)
    } else if g.len() == 64 && !greeting::names_mechanism(mechanism, g) {
        Some(GreetingError::UnsupportedMechanism)
    } else if g.len() == 64 && g[32] != 0 {
        Some(GreetingError::InvalidAsServer)
    } else {
        None
    }
}

/// The bytes of a greeting are collected up to the 64th, and no further. What is wrong
/// with the first 11 is reported when the eleventh comes in, and what is wrong with the
/// whole when it is there, as often as it is looked at; where nothing is, the handshake
/// moves on, if our greeting has been written.
pub proof fn law_greeting_is_collected(v: SessionView, g: Seq<u8>, rest: Seq<u8>, verdict: bool)
    requires
        session::consistent(v),
        v.state == State::Greeting,
        g.len() <= 64,
        g.len() < 64 ==> rest.len() == 0,
        v.peer_greeting.len() <= g.len(),
        v.peer_greeting == g.take(v.peer_greeting.len() as int),
    ensures
        ({
            let had = v.peer_greeting.len() as int;
            let outcome = session::feed_step(v, g.skip(had) + rest, verdict);
            let reported = if had < 11 || g.len() == 64 {
                greeting_fault(v.mechanism, g)
            } else {
                None
            };
            &&& outcome.asked is None
            &&& match reported {
                Some(e) => {
                    &&& outcome.result == Err::<usize, ConnError>(ConnError::GreetingError(e))
                    &&& outcome.after == (SessionView { peer_greeting: g, ..v })
                },
                None => {
                    &&& outcome.result == Ok::<usize, ConnError>((g.len() - had) as usize)
                    &&& outcome.after == (SessionView {
                        peer_greeting: g,
                        state: if g.len() < 64 || !v.greeting_sent {
                            State::Greeting
                        } else if v.mechanism == Mechanism::Null {
                            State::Ready
                        } else {
                            State::PlainHello
                        },
                        ..v
                    })
                    &&& g.len() == 64 ==> session::peer_minor(outcome.after) == g[11]
                    &&& g.len() < 64 ==> session::peer_minor(outcome.after) == 0
                },
            }
        }),
{
    let had = v.peer_greeting.len() as int;
    let input = g.skip(had) + rest;
    assert(v.peer_greeting + input.take(g.len() - had) =~= g);
    if g.len() >= 11 {
        greeting::law_head_is_judged_by_its_bytes(g);
        if had >= 11 {
            assert(v.peer_greeting[0] == g[0] && v.peer_greeting[9] == g[9]
                && v.peer_greeting[10] == g[10]);
        }
    }
    if g.len() == 64 {
        greeting::law_greeting_is_judged_by_its_bytes(v.mechanism, g);
    }
}

/// Bytes that are not a whole frame yet are kept, and change nothing else; bytes that
/// are no frame are refused, for good, and change nothing else either.
pub proof fn law_unfinished_and_refused_frames(v: SessionView, input: Seq<u8>, verdict: bool)
    requires
        session::listens(v),
        v.state != State::Greeting,
        v.decoder == frame::decoder_start(),
        input.len() > 0,
    ensures
        frame::parse_frame(v.frame_cap, input) is Partial ==> session::feed_step(v, input, verdict)
            == (session::FeedOutcome {
            after: SessionView { decoder: DecoderState { pending: input, poisoned: false }, ..v },
            result: Ok(input.len() as usize),
            asked: None,
        }),
        frame::parse_frame(v.frame_cap, input) matches frame::Parse::Refused(e)
            ==> session::feed_step(v, input, verdict) == (session::FeedOutcome {
            after: SessionView {
                decoder: DecoderState { pending: Seq::empty(), poisoned: true },
                ..v
            },
            result: Err(ConnError::DecodeError(e)),
            asked: None,
        }),
{
    assert(v.decoder.pending + input =~= input);
}

/// A frame in the place of HELLO that is none fails the session with what is wrong with
/// it, and nobody is asked.
pub proof fn law_bad_hello_fails(v: SessionView, wire: Seq<u8>, rest: Seq<u8>, verdict: bool)
    requires
        v.state == State::PlainHello,
        v.decoder == frame::decoder_start(),
        laws::one_frame(v.frame_cap, wire),
    ensures
        ({
            let read = laws::frame_in(v.frame_cap, wire);
            plain::hello_verdict(read.is_command, read.body) matches Err(e)
                ==> session::feed_step(v, wire + rest, verdict) == (session::FeedOutcome {
                after: SessionView { state: State::Failed, ..v },
                result: Err(ConnError::PlainError(e)),
                asked: None,
            })
        }),
{
    laws::lemma_whole_frame(v, wire, rest, verdict);
}

/// A READY of up to 255 bytes whose first Socket-Type fits establishes the session,
/// whatever properties stand before and after it; one whose first Socket-Type does not fit
/// fails it.
pub proof fn law_first_socket_type_establishes(
    v: SessionView,
    before: Seq<(Seq<u8>, Seq<u8>)>,
    name: Seq<u8>,
    value: Seq<u8>,
    after: Seq<u8>,
    more: bool,
    verdict: bool,
)
    requires
        v.state == State::Ready && v.ready_sent || v.state == State::PlainReady && v.welcome_sent
            && v.ready_sent,
        v.decoder == frame::decoder_start(),
        null::other_properties(before),
        bytes::same_ignoring_case(name, null::SOCKET_TYPE@),
        value.len() <= u32::MAX,
        ({
            let metadata = null::properties(before) + (null::property(name, value) + after);
            6 + metadata.len() <= 255 && 6 + metadata.len() <= v.frame_cap
        }),
    ensures
        ({
            let metadata = null::properties(before) + (null::property(name, value) + after);
            let body = seq![5u8, 0x52, 0x45, 0x41, 0x44, 0x59] + metadata;
            let wire = frame::encoded_frame(body, more, true);
            let outcome = session::feed_step(v, wire, verdict);
            let good = match v.role {
                Role::Pub => value =~= seq![0x53u8, 0x55, 0x42] || value =~= seq![
                    0x58u8,
                    0x53,
                    0x55,
                    0x42,
                ],
                Role::Radio => value =~= seq![0x44u8, 0x49, 0x53, 0x48],
            };
            if good {
                &&& outcome.result == Ok::<usize, ConnError>(wire.len() as usize)
                &&& outcome.after == (SessionView { state: State::Established, ..v })
            } else {
                &&& outcome.result == Err::<usize, ConnError>(
                    ConnError::NullError(NullError::WrongSocketType),
                )
                &&& outcome.after == (SessionView { state: State::Failed, ..v })
            }
        }),
{
    let metadata = null::properties(before) + (null::property(name, value) + after);
    let body = seq![5u8, 0x52, 0x45, 0x41, 0x44, 0x59] + metadata;
    assert(body =~= command::command_body(command::READY@, metadata));
    null::law_first_socket_type_decides(v.role, before, name, value, after);
    laws::law_any_ready_establishes(v, body, more, verdict);
}

/// What a verdict on a HELLO means.
pub proof fn law_verdict_decides(n: nat)
    requires
        n <= usize::MAX,
    ensures
        session::hello_state(true) == State::PlainReady,
        session::hello_state(false) == State::Failed,
        session::hello_result(true, n) == Ok::<usize, ConnError>(n as usize),
        session::hello_result(false, n) == Err::<usize, ConnError>(
            ConnError::PlainError(PlainError::AuthFailed),
        ),
{
}

/// The frame is a request that the socket knows: its own two commands, a PING from a
/// peer that has PING, or, for PUB, a message that begins with a 0 or a 1.
pub open spec fn is_request(v: SessionView, f: frame::Frame) -> bool {
    if f.is_command {
        command::counted(f.body) matches Some((name, _)) && {
            ||| name == laws::add_name(v.role)
            ||| name == laws::remove_name(v.role)
            ||| name == command::PING@ && session::peer_minor(v) >= 1
        }
    } else {
        v.role == Role::Pub && f.body.len() > 0 && f.body[0] <= 1
    }
}

/// Every other frame is passed over.
pub proof fn law_other_frames_change_nothing(
    v: SessionView,
    wire: Seq<u8>,
    rest: Seq<u8>,
    verdict: bool,
)
    requires
        laws::at_rest(v),
        laws::one_frame(v.frame_cap, wire),
        !is_request(v, laws::frame_in(v.frame_cap, wire)),
    ensures
        session::feed_step(v, wire + rest, verdict) == (session::FeedOutcome {
            after: v,
            result: Ok(wire.len() as usize),
            asked: None,
        }),
{
    laws::law_any_frame_is_applied(v, wire, rest, verdict);
}

/// The names of the requests.
pub proof fn law_names_of_requests()
    ensures
        laws::add_name(Role::Pub) =~= seq![
            0x53u8,
            0x55,
            0x42,
            0x53,
            0x43,
            0x52,
            0x49,
            0x42,
            0x45,
        ],
        laws::remove_name(Role::Pub) =~= seq![0x43u8, 0x41, 0x4E, 0x43, 0x45, 0x4C],
        laws::add_name(Role::Radio) =~= seq![0x4Au8, 0x4F, 0x49, 0x4E],
        laws::remove_name(Role::Radio) =~= seq![0x4Cu8, 0x45, 0x41, 0x56, 0x45],
        command::PING@ =~= seq![0x50u8, 0x49, 0x4E, 0x47],
{
}

/// What a request does to the entries, one by one, and that it does nothing else.
pub proof fn law_requests_by_entry(v: SessionView, key: Seq<u8>, other: Seq<u8>)
    ensures
        session::with_entry(v, key).entries.contains(other) <==> v.entries.contains(other) || (
        other == key && key.len() <= v.max_len && v.entries.len() < v.max_entries),
        session::without_entry(v, key).entries.contains(other) <==> v.entries.contains(other)
            && other != key,
        session::with_entry(v, key) == (SessionView {
            entries: session::with_entry(v, key).entries,
            ..v
        }),
        session::without_entry(v, key) == (SessionView {
            entries: session::without_entry(v, key).entries,
            ..v
        }),
{
    entries::law_insertion_adds_one(v.entries, key, v.max_entries, v.max_len, other);
}

// ---------------------------------------------------------------------------
// What goes out
// ---------------------------------------------------------------------------

/// A write of `bytes` that is in order: it is refused where the buffer is too small, and
/// then nothing changes; otherwise the bytes are written, all of them.
pub open spec fn writes(
    v: SessionView,
    w: WriteOutcome,
    room: nat,
    bytes: Seq<u8>,
    after: SessionView,
    too_small: ConnError,
) -> bool {
    if room < bytes.len() {
        &&& w.result == Err::<usize, ConnError>(too_small)
        &&& w.bytes.len() == 0
        &&& w.after == v
    } else {
        &&& w.result == Ok::<usize, ConnError>(bytes.len() as usize)
        &&& w.bytes == bytes
        &&& w.after == after
    }
}

/// A write that is not in order: nothing is written, and nothing changes.
pub open spec fn writes_nothing(v: SessionView, w: WriteOutcome) -> bool {
    &&& w.result == Err::<usize, ConnError>(ConnError::WrongState)
    &&& w.bytes.len() == 0
    &&& w.after == v
}

/// Our greeting goes out once, in the greeting phase: as a whole, or first 11 bytes and
/// later the other 53. Once both greetings are there, the last write moves the handshake
/// on.
pub proof fn law_when_the_greeting_is_written(v: SessionView, room: nat)
    ensures
        ({
            let ours = greeting::our_greeting(v.mechanism);
            let small = ConnError::BufferTooSmall;
            let over = if session::greeted(v) {
                if v.mechanism == Mechanism::Null {
                    State::Ready
                } else {
                    State::PlainHello
                }
            } else {
                State::Greeting
            };
            let sent = SessionView { head_sent: true, greeting_sent: true, ..v };
            let ended = SessionView { state: over, ..sent };
            let first = v.state == State::Greeting && !v.head_sent;
            let head = session::write_head_step(v, room);
            let rest = session::write_rest_step(v, room);
            let whole = session::write_whole_step(v, room);
            let both = session::write_full_step(v, room);
            &&& if first {
                &&& writes(
                    v,
                    head,
                    room,
                    ours.take(11),
                    SessionView { head_sent: true, ..v },
                    small,
                )
                &&& writes(v, whole, room, ours, sent, small)
                &&& !v.greeting_sent ==> writes(v, both, room, ours, ended, small)
            } else {
                &&& writes_nothing(v, head)
                &&& writes_nothing(v, whole)
                &&& writes_nothing(v, both)
            }
            &&& if v.state == State::Greeting && v.head_sent && !v.greeting_sent {
                writes(v, rest, room, ours.skip(11), ended, small)
            } else {
                writes_nothing(v, rest)
            }
            &&& session::rest_pending(v) <==> v.state == State::Greeting && v.head_sent
                && !v.greeting_sent && v.peer_greeting.len() >= 11
        }),
{
    greeting::lemma_our_greeting_len(v.mechanism);
}

/// A peer has greeted once 64 bytes of it have come in in which nothing is wrong. Its
/// minor version is the twelfth of them.
pub proof fn law_when_a_peer_has_greeted(v: SessionView)
    ensures
        session::greeted(v) <==> v.peer_greeting.len() == 64 && greeting_fault(
            v.mechanism,
            v.peer_greeting,
        ) is None,
        session::peer_minor(v) == if session::greeted(v) {
            v.peer_greeting[11]
        } else {
            0
        },
{
    if v.peer_greeting.len() == 64 {
        greeting::law_greeting_is_judged_by_its_bytes(v.mechanism, v.peer_greeting);
    }
}

/// WELCOME goes out once, after the credentials were accepted; READY goes out once, after
/// the greetings with NULL and after WELCOME with PLAIN. ERROR can go out at any time.
pub proof fn law_when_commands_are_written(v: SessionView, room: nat)
    ensures
        ({
            let small = ConnError::BufferTooSmall;
            let welcome = session::write_welcome_step(v, room);
            let ready = session::write_ready_step(v, room);
            &&& if v.state == State::PlainReady && !v.welcome_sent {
                writes(
                    v,
                    welcome,
                    room,
                    seq![4u8, 8, 7, 0x57, 0x45, 0x4C, 0x43, 0x4F, 0x4D, 0x45],
                    SessionView { welcome_sent: true, ..v },
                    ConnError::PlainError(PlainError::BufferTooSmall),
                )
            } else {
                writes_nothing(v, welcome)
            }
            &&& if !v.ready_sent && (v.state == State::Ready || v.state == State::PlainReady
                && v.welcome_sent) {
                writes(
                    v,
                    ready,
                    room,
                    null::our_ready(v.role),
                    SessionView { ready_sent: true, ..v },
                    small,
                )
            } else {
                writes_nothing(v, ready)
            }
            &&& writes(
                v,
                session::write_error_step(v, room),
                room,
                refusal_bytes(),
                v,
                ConnError::NullError(NullError::BufferTooSmall),
            )
        }),
{
    assert(plain::WELCOME_FRAME@ =~= seq![4u8, 8, 7, 0x57, 0x45, 0x4C, 0x43, 0x4F, 0x4D, 0x45]);
    assert(null::error_frame(session::REFUSAL@) =~= refusal_bytes());
}

/// The ERROR that a peer gets: "Invalid socket type".
pub open spec fn refusal_bytes() -> Seq<u8> {
    seq![
        4u8, 26, 5, 0x45, 0x52, 0x52, 0x4F, 0x52, 19, 0x49, 0x6E, 0x76, 0x61, 0x6C, 0x69, 0x64,
        0x20, 0x73, 0x6F, 0x63, 0x6B, 0x65, 0x74, 0x20, 0x74, 0x79, 0x70, 0x65,
    ]
}

/// The PONG with a context.
pub open spec fn pong_bytes(context: Seq<u8>) -> Seq<u8> {
    seq![4u8, (5 + context.len()) as u8, 4, 0x50, 0x4F, 0x4E, 0x47] + context
}

/// The context that a PING with these data asks to have echoed: what follows the first
/// two bytes, and of that no more than 16.
pub open spec fn context_bytes(data: Seq<u8>) -> Seq<u8> {
    Seq::new(
        (if data.len() <= 2 {
            0
        } else if data.len() <= 18 {
            data.len() - 2
        } else {
            16
        }) as nat,
        |i: int| data[2 + i],
    )
}

/// A pending PONG is written once, whatever its context, also without one; where none is
/// pending nothing is written.
pub proof fn law_when_a_pong_is_written(v: SessionView, room: nat)
    requires
        v.pong matches Some(context) ==> context.len() <= 16,
    ensures
        ({
            let w = session::write_pong_step(v, room);
            match v.pong {
                Some(context) => writes(
                    v,
                    w,
                    room,
                    pong_bytes(context),
                    SessionView { pong: None, ..v },
                    ConnError::BufferTooSmall,
                ),
                None => {
                    &&& w.result == Ok::<usize, ConnError>(0)
                    &&& w.bytes.len() == 0
                    &&& w.after == v
                },
            }
        }),
{
    if let Some(context) = v.pong {
        assert(session::pong_frame(context) =~= pong_bytes(context));
    }
}

/// A PING of a 3.1 peer, in whatever form, with whatever data, leaves a PONG with its
/// context pending, and nothing else; an older peer's PING does nothing.
pub proof fn law_ping_asks_for_a_pong(
    v: SessionView,
    wire: Seq<u8>,
    data: Seq<u8>,
    rest: Seq<u8>,
    verdict: bool,
)
    requires
        laws::at_rest(v),
        laws::says(v.frame_cap, wire, seq![0x50u8, 0x49, 0x4E, 0x47], data),
    ensures
        session::feed_step(v, wire + rest, verdict) == (session::FeedOutcome {
            after: if session::peer_minor(v) >= 1 {
                SessionView { pong: Some(context_bytes(data)), ..v }
            } else {
                v
            },
            result: Ok(wire.len() as usize),
            asked: None,
        }),
{
    laws::law_any_frame_is_applied(v, wire, rest, verdict);
    law_names_of_requests();
    assert(command::PING@ == seq![0x50u8, 0x49, 0x4E, 0x47]);
    assert(command::PING@.len() != command::SUBSCRIBE@.len());
    assert(command::PING@.len() != command::CANCEL@.len());
    assert(command::PING@.len() != command::LEAVE@.len());
    assert(command::PING@[0] != command::JOIN@[0]);
    assert(session::ping_context(data) =~= context_bytes(data));
}

/// The header of a message frame with a body of `len` bytes: the flags, and the size in
/// one byte, or in eight where it is over 255.
pub open spec fn heads_message(h: Seq<u8>, len: nat, more: bool) -> bool {
    if len <= 255 {
        h.len() == 2 && h[0] == (if more {
            1u8
        } else {
            0u8
        }) && h[1] == len
    } else {
        h.len() == 9 && h[0] == (if more {
            3u8
        } else {
            2u8
        }) && bytes::number8(h.subrange(1, 9)) == len
    }
}

/// A message is two frames: the topic, with the flag that more follows, and the payload,
/// without it.
pub proof fn law_message_by_bytes(topic: Seq<u8>, payload: Seq<u8>) -> (heads: (Seq<u8>, Seq<u8>))
    requires
        topic.len() <= u64::MAX,
        payload.len() <= u64::MAX,
    ensures
        heads_message(heads.0, topic.len(), true),
        heads_message(heads.1, payload.len(), false),
        session::message_wire(topic, payload) == heads.0 + topic + heads.1 + payload,
{
    let a = frame::frame_header(topic.len(), true, false);
    let b = frame::frame_header(payload.len(), false, false);
    lemma_message_header(topic.len(), true);
    lemma_message_header(payload.len(), false);
    assert(session::message_wire(topic, payload) =~= a + topic + b + payload);
    (a, b)
}

/// The header of a message frame.
pub proof fn lemma_message_header(len: nat, more: bool)
    requires
        len <= u64::MAX,
    ensures
        heads_message(frame::frame_header(len, more, false), len, more),
{
    bytes::law_bytes_by_places(len);
    let h = frame::frame_header(len, more, false);
    if len > 255 {
        assert(h.subrange(1, 9) =~= bytes::be_bytes(len, 8));
    }
}

/// The peer has asked for the topic.
pub open spec fn asked_for(v: SessionView, topic: Seq<u8>) -> bool {
    match v.role {
        Role::Pub => exists|p: Seq<u8>, rest: Seq<u8>|
            v.entries.contains(p) && topic == #[trigger] (p + rest),
        Role::Radio => v.entries.contains(topic),
    }
}

/// A message goes to an established peer that has asked for its topic, whole or not at
/// all, and to nobody else.
pub proof fn law_when_a_message_is_written(
    v: SessionView,
    topic: Seq<u8>,
    payload: Seq<u8>,
    room: nat,
)
    ensures
        ({
            let w = session::publish_step(v, topic, payload, room);
            let wire = session::message_wire(topic, payload);
            if v.state != State::Established {
                writes_nothing(v, w)
            } else if !asked_for(v, topic) {
                &&& w.result == Ok::<usize, ConnError>(0)
                &&& w.bytes.len() == 0
                &&& w.after == v
            } else {
                writes(v, w, room, wire, v, ConnError::BufferTooSmall)
            }
        }),
{
    registry::law_selection_by_bytes(v.entries, topic);
}

/// To a peer that has asked for one thing only, exactly the topics that begin with it are
/// written, or, for RADIO, exactly that group; after the request is taken back, none is.
pub proof fn law_one_request_and_its_end(
    v: SessionView,
    add: Seq<u8>,
    remove: Seq<u8>,
    key: Seq<u8>,
    topic: Seq<u8>,
    payload: Seq<u8>,
    room: nat,
    verdict: bool,
)
    requires
        laws::at_rest(v),
        v.entries == Set::<Seq<u8>>::empty(),
        v.max_entries > 0,
        key.len() <= v.max_len,
        laws::asks_to_add(v, add, key),
        laws::asks_to_remove(v, remove, key),
        session::message_wire(topic, payload).len() <= room,
    ensures
        ({
            let with = session::feed_step(v, add, verdict).after;
            let without = session::feed_step(with, remove, verdict).after;
            let wanted = match v.role {
                Role::Pub => exists|rest: Seq<u8>| topic == #[trigger] (key + rest),
                Role::Radio => topic == key,
            };
            &&& session::publish_step(with, topic, payload, room).bytes == if wanted {
                session::message_wire(topic, payload)
            } else {
                Seq::empty()
            }
            &&& session::publish_step(without, topic, payload, room).bytes == Seq::<u8>::empty()
        }),
{
    laws::law_any_request_changes_the_table(v, add, key, verdict);
    let with = session::feed_step(v, add, verdict).after;
    laws::law_any_request_changes_the_table(with, remove, key, verdict);
    let without = session::feed_step(with, remove, verdict).after;
    assert(with.entries =~= Set::empty().insert(key));
    assert(without.entries =~= Set::empty());
    bytes::law_prefix_is_byte_by_byte(key, topic);
    if registry::selects(Role::Pub, with.entries, topic) {
        let p = choose|p: Seq<u8>|
            #[trigger] with.entries.contains(p) && bytes::is_prefix(p, topic);
        assert(p == key);
    }
    if bytes::is_prefix(key, topic) {
        assert(with.entries.contains(key));
    }
}

} // verus!
