//! What holds of every session, across the operations.

use vstd::prelude::*;

use crate::auth::Mechanism;
use crate::connection::{ConnError, State};
use crate::null::{NullError, PeerSocketType, Role};
use crate::plain::PlainError;
use crate::session::SessionView;
use crate::{command, entries, frame, greeting, null, plain, registry, session};

verus! {

// ---------------------------------------------------------------------------
// Invariants
// ---------------------------------------------------------------------------

/// Feeding keeps a session consistent, and neither its kind nor its limits change.
pub proof fn law_feed_keeps_consistent(v: SessionView, input: Seq<u8>, verdict: bool)
    requires
        session::consistent(v),
    ensures
        session::consistent(session::feed_step(v, input, verdict).after),
        ({
            let after = session::feed_step(v, input, verdict).after;
            &&& after.role == v.role
            &&& after.mechanism == v.mechanism
            &&& after.frame_cap == v.frame_cap
            &&& after.max_entries == v.max_entries
            &&& after.max_len == v.max_len
            &&& after.head_sent == v.head_sent
            &&& after.greeting_sent == v.greeting_sent
            &&& after.welcome_sent == v.welcome_sent
            &&& after.ready_sent == v.ready_sent
        }),
{
    if v.state == State::Greeting && v.peer_greeting.len() == greeting::GREETING_LEN {
        assert(v.peer_greeting + input.take(0) =~= v.peer_greeting);
    }
    frame::law_feed_keeps_ok(v.frame_cap, v.decoder, input);
}

/// A session takes no more bytes than it is given. It takes at least one,
/// unless the peer's greeting is complete and its session still waits for ours.
pub proof fn law_feed_consumes(v: SessionView, input: Seq<u8>, verdict: bool)
    requires
        session::consistent(v),
        input.len() <= usize::MAX,
    ensures
        session::feed_step(v, input, verdict).result matches Ok(n) ==> {
            &&& n <= input.len()
            &&& n == 0 && input.len() > 0 ==> v.state == State::Greeting && v.peer_greeting.len()
                == greeting::GREETING_LEN
        },
{
    frame::law_feed_keeps_ok(v.frame_cap, v.decoder, input);
}

/// The handshake only moves forward: from the greetings to the mechanism, from
/// HELLO to READY where there is one, and from READY to an established session;
/// or it fails.
pub proof fn law_handshake_moves_forward(v: SessionView, input: Seq<u8>, verdict: bool)
    ensures
        ({
            let next = session::feed_step(v, input, verdict).after.state;
            ||| next == v.state
            ||| v.state == State::Greeting && next == session::after_greetings(v.mechanism)
            ||| v.state == State::PlainHello && next == State::PlainReady
            ||| (v.state == State::Ready || v.state == State::PlainReady) && next
                == State::Established
            ||| (v.state == State::Ready || v.state == State::PlainHello || v.state
                == State::PlainReady) && next == State::Failed
        }),
{
}

/// What a driver relies on: how much is taken, what stays as it is, and where the
/// handshake can move.
pub proof fn lemma_digest(v: SessionView, input: Seq<u8>, verdict: bool)
    requires
        session::consistent(v),
        input.len() <= usize::MAX,
    ensures
        ({
            let outcome = session::digest(v, input, verdict);
            let after = outcome.after;
            &&& outcome.result matches Ok(n) ==> n <= input.len()
            &&& session::consistent(after)
            &&& after.role == v.role
            &&& after.mechanism == v.mechanism
            &&& after.welcome_sent == v.welcome_sent
            &&& after.ready_sent == v.ready_sent
            &&& after.state == State::Greeting ==> v.state == State::Greeting
            &&& after.state == State::Ready && v.state != State::Ready ==> v.state
                == State::Greeting
            &&& after.state == State::PlainReady && v.state != State::PlainReady ==> v.state
                == State::PlainHello
        }),
{
    reveal(session::digest);
    law_feed_consumes(v, input, verdict);
    law_feed_keeps_consistent(v, input, verdict);
    law_handshake_moves_forward(v, input, verdict);
}

/// Once established, a session stays established, whatever the peer sends.
pub proof fn law_established_is_kept(v: SessionView, input: Seq<u8>, verdict: bool)
    requires
        v.state == State::Established,
    ensures
        session::feed_step(v, input, verdict).after.state == State::Established,
{
}

/// A failed session takes nothing, writes no part of a handshake, publishes
/// nothing and stays failed.
pub proof fn law_failed_is_final(
    v: SessionView,
    input: Seq<u8>,
    verdict: bool,
    payload: Seq<u8>,
    room: nat,
)
    requires
        v.state == State::Failed,
    ensures
        session::feed_step(v, input, verdict).after == v,
        session::feed_step(v, input, verdict).result == Err::<usize, ConnError>(
            ConnError::WrongState,
        ),
        session::write_head_step(v, room) == session::refused(v, ConnError::WrongState),
        session::write_rest_step(v, room) == session::refused(v, ConnError::WrongState),
        session::write_whole_step(v, room) == session::refused(v, ConnError::WrongState),
        session::write_welcome_step(v, room) == session::refused(v, ConnError::WrongState),
        session::write_ready_step(v, room) == session::refused(v, ConnError::WrongState),
        session::publish_step(v, input, payload, room) == session::refused(
            v,
            ConnError::WrongState,
        ),
{
}

/// The deadlock rule: before our READY has been written, the peer's READY is
/// not looked at, so that no session becomes established without it.
pub proof fn law_our_ready_goes_first(v: SessionView, input: Seq<u8>, verdict: bool)
    requires
        session::consistent(v),
        !v.ready_sent,
    ensures
        session::feed_step(v, input, verdict).after.state != State::Established,
        v.state == State::Ready || v.state == State::PlainReady ==> {
            &&& session::feed_step(v, input, verdict).after == v
            &&& session::feed_step(v, input, verdict).result == Err::<usize, ConnError>(
                ConnError::WrongState,
            )
        },
{
}

/// An established PLAIN session has had its peer's credentials accepted: a
/// session that waits for HELLO moves on only with the authenticator's consent.
pub proof fn law_plain_needs_consent(v: SessionView, input: Seq<u8>)
    requires
        session::consistent(v),
        v.state == State::PlainHello,
    ensures
        ({
            let refused = session::feed_step(v, input, false);
            refused.asked is Some ==> refused.after.state == State::Failed && refused.result
                == Err::<usize, ConnError>(ConnError::PlainError(PlainError::AuthFailed))
        }),
        ({
            let granted = session::feed_step(v, input, true);
            granted.asked is Some <==> granted.after.state == State::PlainReady
        }),
        session::feed_step(v, input, false).after.state != State::PlainReady,
{
}

/// What a session publishes it publishes only when it is established, and the
/// entries and the pending PONG of a session that is not are none.
pub proof fn law_nothing_before_established(v: SessionView, topic: Seq<u8>, payload: Seq<u8>, room: nat)
    requires
        session::consistent(v),
        v.state != State::Established,
    ensures
        session::publish_step(v, topic, payload, room) == session::refused(
            v,
            ConnError::WrongState,
        ),
        !v.entries.contains(topic),
        v.pong is None,
{
}

/// Writing keeps a session consistent.
pub proof fn law_writing_keeps_consistent(v: SessionView, room: nat)
    requires
        session::consistent(v),
    ensures
        session::consistent(session::write_head_step(v, room).after),
        session::consistent(session::write_rest_step(v, room).after),
        v.role == Role::Radio ==> session::consistent(session::write_whole_step(v, room).after),
        session::consistent(session::write_welcome_step(v, room).after),
        session::consistent(session::write_ready_step(v, room).after),
        session::consistent(session::write_error_step(v, room).after),
        session::consistent(session::write_pong_step(v, room).after),
{
}

// ---------------------------------------------------------------------------
// The handshake
// ---------------------------------------------------------------------------

/// The two parts of our greeting, one after the other, are the whole greeting,
/// whatever happens between the two.
pub proof fn law_greeting_in_two_parts(v: SessionView, w: SessionView, room: nat)
    requires
        v.mechanism == w.mechanism,
        session::write_head_step(v, room).result is Ok,
        session::write_rest_step(w, room).result is Ok,
    ensures
        session::write_head_step(v, room).bytes + session::write_rest_step(w, room).bytes
            == greeting::our_greeting(v.mechanism),
{
    let g = greeting::our_greeting(v.mechanism);
    greeting::lemma_our_greeting_len(v.mechanism);
    assert(g.take(greeting::GREETING_PARTIAL_LEN as int) + g.skip(
        greeting::GREETING_PARTIAL_LEN as int,
    ) =~= g);
}

/// A greeting that comes in two pieces, the first of them not refused, is taken
/// as it is in one, up to its end.
#[verifier::rlimit(40)]
pub proof fn law_greeting_in_pieces(v: SessionView, a: Seq<u8>, b: Seq<u8>, verdict: bool)
    requires
        session::consistent(v),
        v.state == State::Greeting,
        session::feed_step(v, a, verdict).result is Ok,
        v.peer_greeting.len() + a.len() < greeting::GREETING_LEN,
        a.len() + b.len() <= usize::MAX,
    ensures
        ({
            let first = session::feed_step(v, a, verdict);
            let second = session::feed_step(first.after, b, verdict);
            let both = session::feed_step(v, a + b, verdict);
            &&& second.after == both.after
            &&& match both.result {
                Ok(n) => second.result == Ok::<usize, ConnError>((n - a.len()) as usize),
                Err(e) => second.result == Err::<usize, ConnError>(e),
            }
        }),
{
    let had = v.peer_greeting;
    let first = session::feed_step(v, a, verdict);
    assert(a.take(a.len() as int) =~= a);
    assert(first.after.peer_greeting == had + a);
    let room = greeting::GREETING_LEN - had.len();
    let n = if a.len() + b.len() < room {
        (a.len() + b.len()) as int
    } else {
        room
    };
    assert((had + a) + b.take(n - a.len()) =~= had + (a + b).take(n));
    let bytes = had + (a + b).take(n);
    if had.len() < greeting::GREETING_PARTIAL_LEN && had.len() + a.len()
        >= greeting::GREETING_PARTIAL_LEN {
        assert(greeting::partial_verdict(had + a) == greeting::partial_verdict(bytes));
    }
}

/// A good greeting from the peer, in one piece, whatever follows it.
pub proof fn lemma_good_greeting(v: SessionView, g: Seq<u8>, rest: Seq<u8>, verdict: bool)
    requires
        v.state == State::Greeting,
        v.peer_greeting.len() == 0,
        g.len() == greeting::GREETING_LEN,
        greeting::greeting_verdict(v.mechanism, g) is Ok,
    ensures
        session::feed_step(v, g + rest, verdict).result == Ok::<usize, ConnError>(
            greeting::GREETING_LEN,
        ),
        session::feed_step(v, g + rest, verdict).asked is None,
        session::feed_step(v, g + rest, verdict).after == (SessionView {
            peer_greeting: g,
            state: if v.greeting_sent {
                session::after_greetings(v.mechanism)
            } else {
                v.state
            },
            ..v
        }),
{
    assert(v.peer_greeting + (g + rest).take(g.len() as int) =~= g);
}

/// The bytes are those of one frame, whole. Its header may be of either form.
pub open spec fn one_frame(cap: nat, wire: Seq<u8>) -> bool {
    frame::parse_frame(cap, wire) matches frame::Parse::Whole(_, len) && len == wire.len()
}

/// The frame that the bytes are.
pub open spec fn frame_in(cap: nat, wire: Seq<u8>) -> frame::Frame {
    frame::parse_frame(cap, wire)->Whole_0
}

/// The bytes of one frame, fed to a session that is between two frames, whatever
/// follows them.
pub proof fn lemma_whole_frame(v: SessionView, wire: Seq<u8>, rest: Seq<u8>, verdict: bool)
    requires
        session::listens(v),
        v.state != State::Greeting,
        v.decoder == frame::decoder_start(),
        one_frame(v.frame_cap, wire),
    ensures
        session::feed_step(v, wire + rest, verdict) == session::frame_step(
            v,
            frame_in(v.frame_cap, wire),
            wire.len(),
            verdict,
        ),
{
    frame::law_parse_is_stable(v.frame_cap, wire, rest);
    assert(v.decoder.pending + (wire + rest) =~= wire + rest);
    assert((SessionView { decoder: frame::decoder_start(), ..v }) == v);
}

/// An encoded frame is one frame.
proof fn lemma_encoded_frame_is_whole(cap: nat, body: Seq<u8>, more: bool, is_command: bool)
    requires
        body.len() <= cap,
        body.len() <= u64::MAX,
    ensures
        one_frame(cap, frame::encoded_frame(body, more, is_command)),
        frame_in(cap, frame::encoded_frame(body, more, is_command)) == (frame::Frame {
            more,
            is_command,
            body,
        }),
{
    let wire = frame::encoded_frame(body, more, is_command);
    frame::law_frame_round_trip(cap, body, more, is_command, Seq::empty());
    assert(wire + Seq::<u8>::empty() =~= wire);
}

/// The session after our greeting has been written in two parts, the peer's
/// greeting `g` in between.
pub open spec fn after_split_greetings(v: SessionView, g: Seq<u8>) -> SessionView {
    let headed = session::write_head_step(v, greeting::GREETING_LEN as nat).after;
    let fed = session::feed_step(headed, g, false).after;
    session::write_rest_step(fed, greeting::GREETING_LEN as nat).after
}

/// The exchange of greetings: with a good greeting of the peer, it ends in the
/// state in which the mechanism begins, and the peer's minor version is known.
pub proof fn law_greetings_exchanged(v: SessionView, g: Seq<u8>)
    requires
        v == session::fresh(v.role, v.mechanism, v.frame_cap, v.max_entries, v.max_len),
        g.len() == greeting::GREETING_LEN,
        greeting::greeting_verdict(v.mechanism, g) is Ok,
    ensures
        after_split_greetings(v, g) == (SessionView {
            head_sent: true,
            greeting_sent: true,
            peer_greeting: g,
            state: session::after_greetings(v.mechanism),
            ..v
        }),
        session::peer_minor(after_split_greetings(v, g)) == g[11],
        ({
            let whole = session::write_whole_step(v, greeting::GREETING_LEN as nat).after;
            session::feed_step(whole, g, false).after == after_split_greetings(v, g)
        }),
{
    let headed = session::write_head_step(v, greeting::GREETING_LEN as nat).after;
    assert(g + Seq::<u8>::empty() =~= g);
    lemma_good_greeting(headed, g, Seq::empty(), false);
    let whole = session::write_whole_step(v, greeting::GREETING_LEN as nat).after;
    lemma_good_greeting(whole, g, Seq::empty(), false);
}

/// The bytes are a READY that a socket in `role` accepts: one command of up to 255
/// bytes, whose first Socket-Type, whatever other properties stand before and after
/// it, names a socket that fits.
pub open spec fn good_ready(role: Role, cap: nat, wire: Seq<u8>) -> bool {
    let read = frame_in(cap, wire);
    &&& one_frame(cap, wire)
    &&& read.body.len() <= 255
    &&& null::ready_verdict(role, read.is_command, read.body) is Ok
}

/// A READY has a header and at most 255 bytes more.
pub proof fn lemma_ready_is_short(role: Role, cap: nat, wire: Seq<u8>)
    requires
        good_ready(role, cap, wire),
    ensures
        0 < wire.len() <= 264,
{
}

/// Any frame in the place of the peer's READY, after ours, in whatever form its
/// header is: the session is established where the frame is a READY that fits, and
/// has failed, with the reason, where it is not.
pub proof fn law_any_frame_is_judged(v: SessionView, wire: Seq<u8>, verdict: bool)
    requires
        session::listens(v),
        v.state == State::Ready || v.state == State::PlainReady,
        v.decoder == frame::decoder_start(),
        one_frame(v.frame_cap, wire),
    ensures
        ({
            let outcome = session::feed_step(v, wire, verdict);
            let read = frame_in(v.frame_cap, wire);
            let judged = if read.body.len() > 255 {
                Err(NullError::MalformedMetadata)
            } else {
                null::ready_verdict(v.role, read.is_command, read.body)
            };
            &&& outcome.asked is None
            &&& match judged {
                Ok(_) => {
                    &&& outcome.result == Ok::<usize, ConnError>(wire.len() as usize)
                    &&& outcome.after == (SessionView { state: State::Established, ..v })
                },
                Err(e) => {
                    &&& outcome.result == Err::<usize, ConnError>(ConnError::NullError(e))
                    &&& outcome.after == (SessionView { state: State::Failed, ..v })
                },
            }
        }),
{
    lemma_whole_frame(v, wire, Seq::empty(), verdict);
    assert(wire + Seq::<u8>::empty() =~= wire);
}

/// Any command in the place of the peer's READY, after ours: the session is
/// established where it is a READY that fits, with whatever properties, and has
/// failed where it is not.
pub proof fn law_any_ready_establishes(
    v: SessionView,
    body: Seq<u8>,
    more: bool,
    verdict: bool,
)
    requires
        session::listens(v),
        v.state == State::Ready || v.state == State::PlainReady,
        v.decoder == frame::decoder_start(),
        body.len() <= 255,
        body.len() <= v.frame_cap,
    ensures
        ({
            let wire = frame::encoded_frame(body, more, true);
            let outcome = session::feed_step(v, wire, verdict);
            match null::ready_verdict(v.role, true, body) {
                Ok(_) => {
                    &&& outcome.result == Ok::<usize, ConnError>(wire.len() as usize)
                    &&& outcome.after == (SessionView { state: State::Established, ..v })
                },
                Err(e) => {
                    &&& outcome.result == Err::<usize, ConnError>(ConnError::NullError(e))
                    &&& outcome.after == (SessionView { state: State::Failed, ..v })
                },
            }
        }),
{
    lemma_encoded_frame_is_whole(v.frame_cap, body, more, true);
    law_any_frame_is_judged(v, frame::encoded_frame(body, more, true), verdict);
}

/// A READY that holds the Socket-Type alone is one that fits where the socket type
/// does.
pub proof fn law_socket_type_makes_a_ready(role: Role, cap: nat, socket_type: Seq<u8>)
    requires
        socket_type.len() <= 233,
        22 + socket_type.len() <= cap,
    ensures
        good_ready(role, cap, null::ready_frame(socket_type)) <==> null::socket_type_verdict(
            role,
            socket_type,
        ) is Ok,
{
    let data = null::property(null::SOCKET_TYPE@, socket_type);
    let body = command::command_body(command::READY@, data);
    crate::bytes::lemma_be_bytes_len(socket_type.len(), 4);
    lemma_encoded_frame_is_whole(cap, body, false, true);
    null::law_ready_is_judged_by_socket_type(role, socket_type);
}

/// The peer's READY, after ours: the session is established where the socket
/// type fits, and has failed where it does not.
pub proof fn law_ready_establishes(v: SessionView, socket_type: Seq<u8>, verdict: bool)
    requires
        session::listens(v),
        v.state == State::Ready || v.state == State::PlainReady,
        v.decoder == frame::decoder_start(),
        socket_type.len() <= 233,
        22 + socket_type.len() <= v.frame_cap,
    ensures
        ({
            let wire = null::ready_frame(socket_type);
            let outcome = session::feed_step(v, wire, verdict);
            match null::socket_type_verdict(v.role, socket_type) {
                Ok(_) => {
                    &&& outcome.result == Ok::<usize, ConnError>(wire.len() as usize)
                    &&& outcome.after == (SessionView { state: State::Established, ..v })
                },
                Err(e) => {
                    &&& outcome.result == Err::<usize, ConnError>(ConnError::NullError(e))
                    &&& outcome.after == (SessionView { state: State::Failed, ..v })
                },
            }
        }),
{
    let data = null::property(null::SOCKET_TYPE@, socket_type);
    let body = command::command_body(command::READY@, data);
    crate::bytes::lemma_be_bytes_len(socket_type.len(), 4);
    assert(body.len() == 22 + socket_type.len());
    law_any_ready_establishes(v, body, false, verdict);
    null::law_ready_is_judged_by_socket_type(v.role, socket_type);
}

/// The NULL handshake completes: greetings, our READY, a READY of the peer that
/// fits. Our READY is the one that names our socket.
pub proof fn law_null_handshake(v: SessionView, g: Seq<u8>, ready: Seq<u8>)
    requires
        v == session::fresh(v.role, Mechanism::Null, v.frame_cap, v.max_entries, v.max_len),
        g.len() == greeting::GREETING_LEN,
        greeting::greeting_verdict(Mechanism::Null, g) is Ok,
        good_ready(v.role, v.frame_cap, ready),
    ensures
        ({
            let greeted = after_split_greetings(v, g);
            let ours = session::write_ready_step(greeted, greeting::GREETING_LEN as nat);
            let end = session::feed_step(ours.after, ready, false);
            &&& greeted.state == State::Ready
            &&& ours.bytes == null::ready_frame(null::our_type(v.role))
            &&& end.result == Ok::<usize, ConnError>(ready.len() as usize)
            &&& end.after.state == State::Established
            &&& session::peer_minor(end.after) == g[11]
        }),
{
    law_greetings_exchanged(v, g);
    null::law_our_ready_names_our_socket();
    let greeted = after_split_greetings(v, g);
    let ours = session::write_ready_step(greeted, greeting::GREETING_LEN as nat);
    law_any_frame_is_judged(ours.after, ready, false);
}

/// The credentials in bytes that are a HELLO: one command, whose data begin with a
/// user name and a password.
pub open spec fn hello_in(cap: nat, wire: Seq<u8>) -> Option<(Seq<u8>, Seq<u8>)> {
    let read = frame_in(cap, wire);
    if !one_frame(cap, wire) {
        None
    } else {
        match plain::hello_verdict(read.is_command, read.body) {
            Ok(pair) => Some(pair),
            Err(_) => None,
        }
    }
}

/// A HELLO made of a user name and a password holds them.
pub proof fn law_credentials_make_a_hello(cap: nat, username: Seq<u8>, password: Seq<u8>)
    requires
        username.len() <= 255,
        password.len() <= 255,
        8 + username.len() + password.len() <= cap,
    ensures
        hello_in(
            cap,
            command::command_frame(command::HELLO@, plain::hello_data(username, password)),
        ) == Some((username, password)),
{
    let body = command::command_body(command::HELLO@, plain::hello_data(username, password));
    lemma_encoded_frame_is_whole(cap, body, false, true);
    plain::law_hello_round_trip(username, password);
}

/// A HELLO, whatever follows it: the authenticator is asked about its
/// credentials, and decides.
pub proof fn law_any_hello_is_decided(
    v: SessionView,
    hello: Seq<u8>,
    rest: Seq<u8>,
    verdict: bool,
)
    requires
        v.state == State::PlainHello,
        v.decoder == frame::decoder_start(),
        hello_in(v.frame_cap, hello) is Some,
    ensures
        session::feed_step(v, hello + rest, verdict) == (session::FeedOutcome {
            after: SessionView { state: session::hello_state(verdict), ..v },
            result: session::hello_result(verdict, hello.len()),
            asked: hello_in(v.frame_cap, hello),
        }),
{
    lemma_whole_frame(v, hello, rest, verdict);
}

/// The PLAIN handshake: after the greetings, a HELLO with credentials that the
/// authenticator accepts, our WELCOME and READY, and a READY of the peer that fits
/// complete it. With credentials that the authenticator refuses the session fails.
pub proof fn law_plain_handshake(
    v: SessionView,
    g: Seq<u8>,
    hello: Seq<u8>,
    ready: Seq<u8>,
)
    requires
        v == session::fresh(v.role, Mechanism::Plain, v.frame_cap, v.max_entries, v.max_len),
        g.len() == greeting::GREETING_LEN,
        greeting::greeting_verdict(Mechanism::Plain, g) is Ok,
        hello_in(v.frame_cap, hello) is Some,
        good_ready(v.role, v.frame_cap, ready),
    ensures
        ({
            let room = greeting::GREETING_LEN as nat;
            let greeted = after_split_greetings(v, g);
            let granted = session::feed_step(greeted, hello, true);
            let denied = session::feed_step(greeted, hello, false);
            let welcome = session::write_welcome_step(granted.after, room);
            let ours = session::write_ready_step(welcome.after, room);
            let end = session::feed_step(ours.after, ready, false);
            &&& granted.asked == hello_in(v.frame_cap, hello)
            &&& denied.asked == hello_in(v.frame_cap, hello)
            &&& denied.result == Err::<usize, ConnError>(
                ConnError::PlainError(PlainError::AuthFailed),
            )
            &&& denied.after.state == State::Failed
            &&& granted.result == Ok::<usize, ConnError>(hello.len() as usize)
            &&& session::write_ready_step(granted.after, room) == session::refused(
                granted.after,
                ConnError::WrongState,
            )
            &&& welcome.bytes == plain::WELCOME_FRAME@
            &&& ours.bytes == null::our_ready(v.role)
            &&& end.result == Ok::<usize, ConnError>(ready.len() as usize)
            &&& end.after.state == State::Established
        }),
{
    law_greetings_exchanged(v, g);
    let room = greeting::GREETING_LEN as nat;
    let greeted = after_split_greetings(v, g);
    assert(hello + Seq::<u8>::empty() =~= hello);
    law_any_hello_is_decided(greeted, hello, Seq::empty(), true);
    law_any_hello_is_decided(greeted, hello, Seq::empty(), false);
    let granted = session::feed_step(greeted, hello, true);
    let welcome = session::write_welcome_step(granted.after, room);
    let ours = session::write_ready_step(welcome.after, room);
    law_any_frame_is_judged(ours.after, ready, false);
}

/// The ERROR command that a session writes, after it has failed or before, is
/// understood by a peer of either kind as its refusal.
pub proof fn law_refusal_is_understood(v: SessionView, room: nat, role: Role)
    requires
        room >= 28,
    ensures
        session::write_error_step(v, room).result == Ok::<usize, ConnError>(28),
        null::ready_wire_verdict(role, session::write_error_step(v, room).bytes) == Err::<
            PeerSocketType,
            NullError,
        >(NullError::PeerError),
{
    assert(null::error_frame(session::REFUSAL@).len() == 28);
    null::law_error_is_understood(role, session::REFUSAL@);
}

// ---------------------------------------------------------------------------
// Established sessions
// ---------------------------------------------------------------------------

/// A session in which requests can be made: established, and between two frames.
pub open spec fn at_rest(v: SessionView) -> bool {
    v.state == State::Established && v.decoder == frame::decoder_start()
}

/// The name of the command that adds an entry.
pub open spec fn add_name(role: Role) -> Seq<u8> {
    match role {
        Role::Pub => command::SUBSCRIBE@,
        Role::Radio => command::JOIN@,
    }
}

/// The name of the command that removes an entry.
pub open spec fn remove_name(role: Role) -> Seq<u8> {
    match role {
        Role::Pub => command::CANCEL@,
        Role::Radio => command::LEAVE@,
    }
}

/// A command is not too long for the session's frames, nor for a frame's length.
pub open spec fn command_fits(v: SessionView, name: Seq<u8>, data: Seq<u8>) -> bool {
    1 + name.len() + data.len() <= v.frame_cap && 1 + name.len() + data.len() <= u64::MAX
}

/// The bytes are one command with that name and those data, whatever the form of
/// its header.
pub open spec fn says(cap: nat, wire: Seq<u8>, name: Seq<u8>, data: Seq<u8>) -> bool {
    &&& one_frame(cap, wire)
    &&& frame_in(cap, wire).is_command
    &&& command::counted(frame_in(cap, wire).body) == Some((name, data))
}

/// A command that is not too long says its name and its data.
pub proof fn law_command_says_its_data(v: SessionView, name: Seq<u8>, data: Seq<u8>)
    requires
        name.len() <= 255,
        command_fits(v, name, data),
    ensures
        says(v.frame_cap, command::command_frame(name, data), name, data),
{
    lemma_encoded_frame_is_whole(
        v.frame_cap,
        command::command_body(name, data),
        false,
        true,
    );
    command::law_command_round_trip(name, data);
}

/// Any frame, fed to an established session, is taken whole and applied, whatever
/// follows it.
pub proof fn law_any_frame_is_applied(
    v: SessionView,
    wire: Seq<u8>,
    rest: Seq<u8>,
    verdict: bool,
)
    requires
        at_rest(v),
        one_frame(v.frame_cap, wire),
    ensures
        session::feed_step(v, wire + rest, verdict) == (session::FeedOutcome {
            after: session::apply_frame(v, frame_in(v.frame_cap, wire)),
            result: Ok(wire.len() as usize),
            asked: None,
        }),
{
    lemma_whole_frame(v, wire, rest, verdict);
}

/// The bytes ask for `key` to be added: they are the command for that, or, for a
/// PUB socket, a message that begins with a 1.
pub open spec fn asks_to_add(v: SessionView, wire: Seq<u8>, key: Seq<u8>) -> bool {
    ||| says(v.frame_cap, wire, add_name(v.role), key)
    ||| v.role == Role::Pub && is_message(v.frame_cap, wire, seq![1u8] + key)
}

/// The bytes ask for `key` to be removed: they are the command for that, or, for a
/// PUB socket, a message that begins with a 0.
pub open spec fn asks_to_remove(v: SessionView, wire: Seq<u8>, key: Seq<u8>) -> bool {
    ||| says(v.frame_cap, wire, remove_name(v.role), key)
    ||| v.role == Role::Pub && is_message(v.frame_cap, wire, seq![0u8] + key)
}

/// The bytes are one message frame with that body, whatever the form of its header.
pub open spec fn is_message(cap: nat, wire: Seq<u8>, body: Seq<u8>) -> bool {
    &&& one_frame(cap, wire)
    &&& !frame_in(cap, wire).is_command
    &&& frame_in(cap, wire).body == body
}

/// A request, in whatever form, is taken whole: it adds an entry as far as the
/// limits allow, or removes one. The session stays between two frames.
pub proof fn law_any_request_changes_the_table(
    v: SessionView,
    wire: Seq<u8>,
    key: Seq<u8>,
    verdict: bool,
)
    requires
        at_rest(v),
    ensures
        asks_to_add(v, wire, key) ==> session::feed_step(v, wire, verdict) == (
        session::FeedOutcome {
            after: session::with_entry(v, key),
            result: Ok(wire.len() as usize),
            asked: None,
        }),
        asks_to_remove(v, wire, key) ==> session::feed_step(v, wire, verdict) == (
        session::FeedOutcome {
            after: session::without_entry(v, key),
            result: Ok(wire.len() as usize),
            asked: None,
        }),
{
    assert(wire + Seq::<u8>::empty() =~= wire);
    if one_frame(v.frame_cap, wire) {
        law_any_frame_is_applied(v, wire, Seq::empty(), verdict);
    }
    assert((seq![1u8] + key).skip(1) =~= key);
    assert((seq![0u8] + key).skip(1) =~= key);
    assert(command::CANCEL@.len() != command::SUBSCRIBE@.len());
    assert(command::JOIN@.len() != command::LEAVE@.len());
}

/// SUBSCRIBE and JOIN add an entry as far as the limits allow, and CANCEL and
/// LEAVE remove one. The session stays between two frames.
pub proof fn law_requests_change_the_table(v: SessionView, key: Seq<u8>, verdict: bool)
    requires
        at_rest(v),
    ensures
        command_fits(v, add_name(v.role), key) ==> {
            let wire = command::command_frame(add_name(v.role), key);
            &&& asks_to_add(v, wire, key)
            &&& session::feed_step(v, wire, verdict).after == session::with_entry(v, key)
        },
        command_fits(v, remove_name(v.role), key) ==> {
            let wire = command::command_frame(remove_name(v.role), key);
            &&& asks_to_remove(v, wire, key)
            &&& session::feed_step(v, wire, verdict).after == session::without_entry(v, key)
        },
{
    if command_fits(v, add_name(v.role), key) {
        let wire = command::command_frame(add_name(v.role), key);
        law_command_says_its_data(v, add_name(v.role), key);
        law_any_request_changes_the_table(v, wire, key, verdict);
    }
    if command_fits(v, remove_name(v.role), key) {
        let wire = command::command_frame(remove_name(v.role), key);
        law_command_says_its_data(v, remove_name(v.role), key);
        law_any_request_changes_the_table(v, wire, key, verdict);
    }
}

/// Subscriptions in the form of messages do the same for a PUB socket as the
/// commands, and nothing for a RADIO socket.
pub proof fn law_message_subscriptions(v: SessionView, key: Seq<u8>, more: bool, verdict: bool)
    requires
        at_rest(v),
        1 + key.len() <= v.frame_cap,
        1 + key.len() <= u64::MAX,
    ensures
        ({
            let add = frame::encoded_frame(seq![1u8] + key, more, false);
            let remove = frame::encoded_frame(seq![0u8] + key, more, false);
            if v.role == Role::Pub {
                &&& asks_to_add(v, add, key)
                &&& asks_to_remove(v, remove, key)
                &&& session::feed_step(v, add, verdict).after == session::with_entry(v, key)
                &&& session::feed_step(v, remove, verdict).after == session::without_entry(v, key)
            } else {
                &&& session::feed_step(v, add, verdict).after == v
                &&& session::feed_step(v, remove, verdict).after == v
            }
        }),
{
    let none = Seq::<u8>::empty();
    let add = frame::encoded_frame(seq![1u8] + key, more, false);
    let remove = frame::encoded_frame(seq![0u8] + key, more, false);
    lemma_encoded_frame_is_whole(v.frame_cap, seq![1u8] + key, more, false);
    lemma_encoded_frame_is_whole(v.frame_cap, seq![0u8] + key, more, false);
    assert(add + none =~= add);
    assert(remove + none =~= remove);
    law_any_frame_is_applied(v, add, none, verdict);
    law_any_frame_is_applied(v, remove, none, verdict);
    law_any_request_changes_the_table(v, add, key, verdict);
    law_any_request_changes_the_table(v, remove, key, verdict);
}

/// What is asked for is delivered: after a request for `key`, in whatever form, that
/// the limits allow, a message under a topic that the key selects is written out.
pub proof fn law_request_then_publish(
    v: SessionView,
    wire: Seq<u8>,
    key: Seq<u8>,
    topic: Seq<u8>,
    payload: Seq<u8>,
    room: nat,
    verdict: bool,
)
    requires
        at_rest(v),
        asks_to_add(v, wire, key),
        key.len() <= v.max_len,
        v.entries.contains(key) || v.entries.len() < v.max_entries,
        match v.role {
            Role::Pub => crate::bytes::is_prefix(key, topic),
            Role::Radio => key == topic,
        },
        session::message_wire(topic, payload).len() <= room,
    ensures
        ({
            let asked = session::feed_step(v, wire, verdict).after;
            let sent = session::publish_step(asked, topic, payload, room);
            &&& sent.result == Ok::<usize, ConnError>(
                session::message_wire(topic, payload).len() as usize,
            )
            &&& sent.bytes == session::message_wire(topic, payload)
        }),
{
    law_any_request_changes_the_table(v, wire, key, verdict);
    let table = entries::inserted(v.entries, key, v.max_entries, v.max_len);
    assert(table.contains(key));
    assert(registry::selects(v.role, table, topic));
}

/// What is taken back is no longer delivered: after a request to remove `key`, in
/// whatever form, a message under a topic that no other entry selects is not
/// written.
pub proof fn law_removal_ends_delivery(
    v: SessionView,
    wire: Seq<u8>,
    key: Seq<u8>,
    topic: Seq<u8>,
    payload: Seq<u8>,
    room: nat,
    verdict: bool,
)
    requires
        at_rest(v),
        asks_to_remove(v, wire, key),
        !registry::selects(v.role, v.entries.remove(key), topic),
    ensures
        ({
            let asked = session::feed_step(v, wire, verdict).after;
            let sent = session::publish_step(asked, topic, payload, room);
            &&& sent.result == Ok::<usize, ConnError>(0)
            &&& sent.bytes == Seq::<u8>::empty()
            &&& sent.after == asked
        }),
{
    law_any_request_changes_the_table(v, wire, key, verdict);
}

/// What nobody asked for is not delivered: in an established session without
/// entries nothing is written, whatever the topic.
pub proof fn law_no_request_no_message(
    v: SessionView,
    topic: Seq<u8>,
    payload: Seq<u8>,
    room: nat,
)
    requires
        v.state == State::Established,
        v.entries == Set::<Seq<u8>>::empty(),
    ensures
        session::publish_step(v, topic, payload, room).result == Ok::<usize, ConnError>(0),
        session::publish_step(v, topic, payload, room).bytes == Seq::<u8>::empty(),
{
}

/// A published message reads back as two frames, the topic with MORE set and
/// the payload without, and nothing else.
pub proof fn law_message_round_trip(topic: Seq<u8>, payload: Seq<u8>, cap: nat)
    requires
        topic.len() <= cap,
        payload.len() <= cap,
        topic.len() <= u64::MAX,
        payload.len() <= u64::MAX,
    ensures
        ({
            let wire = session::message_wire(topic, payload);
            let first = frame::encoded_frame(topic, true, false).len();
            &&& frame::parse_frame(cap, wire) == frame::Parse::Whole(
                frame::Frame { more: true, is_command: false, body: topic },
                first,
            )
            &&& frame::parse_frame(cap, wire.skip(first as int)) == frame::Parse::Whole(
                frame::Frame { more: false, is_command: false, body: payload },
                (wire.len() - first) as nat,
            )
        }),
{
    let a = frame::encoded_frame(topic, true, false);
    let b = frame::encoded_frame(payload, false, false);
    frame::law_frame_round_trip(cap, topic, true, false, b);
    frame::law_frame_round_trip(cap, payload, false, false, Seq::empty());
    assert(b + Seq::<u8>::empty() =~= b);
    assert((a + b).skip(a.len() as int) =~= b);
}

/// A PING, whatever its form, is answered with its own context, which follows the
/// two bytes of its time-to-live, up to 16 bytes, and once: a peer of version 3.1
/// or later gets the PONG, and a second one is not pending. An older peer's PING is
/// passed over.
pub proof fn law_ping_is_echoed(
    v: SessionView,
    wire: Seq<u8>,
    data: Seq<u8>,
    room: nat,
    verdict: bool,
)
    requires
        at_rest(v),
        says(v.frame_cap, wire, command::PING@, data),
        room >= 7 + session::ping_context(data).len(),
    ensures
        ({
            let pinged = session::feed_step(v, wire, verdict).after;
            let context = if data.len() < 2 {
                Seq::empty()
            } else {
                data.skip(2)
            };
            let echo = if context.len() <= session::MAX_CONTEXT {
                context
            } else {
                context.take(session::MAX_CONTEXT as int)
            };
            let answer = session::write_pong_step(pinged, room);
            if session::peer_minor(v) >= 1 {
                &&& answer.bytes == command::command_frame(command::PONG@, echo)
                &&& answer.result == Ok::<usize, ConnError>((7 + echo.len()) as usize)
                &&& answer.after == (SessionView { pong: None, ..v })
            } else {
                pinged == v
            }
        }),
{
    assert(wire + Seq::<u8>::empty() =~= wire);
    law_any_frame_is_applied(v, wire, Seq::empty(), verdict);
    assert(command::PING@.len() != command::SUBSCRIBE@.len());
    assert(command::PING@.len() != command::CANCEL@.len());
    assert(command::PING@.len() != command::LEAVE@.len());
    assert(command::PING@[0] != command::JOIN@[0]);
    let context = if data.len() < 2 {
        Seq::empty()
    } else {
        data.skip(2)
    };
    let echo = if context.len() <= session::MAX_CONTEXT {
        context
    } else {
        context.take(session::MAX_CONTEXT as int)
    };
    assert(session::ping_context(data) =~= echo);
}

/// How the frames of the peer are cut into pieces does not matter: where a first
/// piece does not complete a frame, feeding the second one afterwards comes to
/// the same as feeding both at once, counted from the end of the first piece.
pub proof fn law_frames_in_pieces(v: SessionView, a: Seq<u8>, b: Seq<u8>, verdict: bool)
    requires
        session::consistent(v),
        session::listens(v),
        v.state != State::Greeting,
        frame::decoder_feed(v.frame_cap, v.decoder, a).1 matches Ok((_, frame)) && frame is None,
        b.len() > 0,
        a.len() + b.len() <= usize::MAX,
    ensures
        ({
            let first = session::feed_step(v, a, verdict);
            let second = session::feed_step(first.after, b, verdict);
            let both = session::feed_step(v, a + b, verdict);
            &&& first.result == Ok::<usize, ConnError>(a.len() as usize)
            &&& second.after == both.after
            &&& second.asked == both.asked
            &&& match both.result {
                Ok(n) => second.result == Ok::<usize, ConnError>((n - a.len()) as usize),
                Err(e) => second.result == Err::<usize, ConnError>(e),
            }
        }),
{
    let cap = v.frame_cap;
    frame::law_feed_keeps_ok(cap, v.decoder, a);
    frame::law_feed_keeps_ok(cap, v.decoder, a + b);
    frame::law_pieces_do_not_matter(cap, v.decoder, a, b);
    let between = frame::decoder_feed(cap, v.decoder, a).0;
    let (end, both) = frame::decoder_feed(cap, v.decoder, a + b);
    let first = session::feed_step(v, a, verdict);
    assert(first.after == (SessionView { decoder: between, ..v }));
    assert((SessionView { decoder: end, ..first.after }) == (SessionView { decoder: end, ..v }));
}

/// The headers for a message, each in front of what it announces, make up the
/// message.
pub proof fn law_headers_make_the_message(
    headers: crate::session::PublishHeaders,
    topic: Seq<u8>,
    payload: Seq<u8>,
)
    requires
        session::headers_for(headers, topic, payload),
    ensures
        headers.0@.take(headers.1 as int) + topic + headers.2@.take(headers.3 as int) + payload
            == session::message_wire(topic, payload),
{
    frame::lemma_frame_header_len(topic.len(), true, false);
    frame::lemma_frame_header_len(payload.len(), false, false);
    let th = frame::frame_header(topic.len(), true, false);
    let ph = frame::frame_header(payload.len(), false, false);
    assert(headers.0@.take(headers.1 as int) =~= th);
    assert(headers.2@.take(headers.3 as int) =~= ph);
    assert(th + topic + ph + payload =~= session::message_wire(topic, payload));
}

/// An established session after it was fed all of `bytes`, as often as it takes,
/// or up to the first error.
pub open spec fn absorb(v: SessionView, bytes: Seq<u8>) -> SessionView
    decreases bytes.len(),
{
    if bytes.len() == 0 {
        v
    } else {
        let outcome = session::digest(v, bytes, false);
        match outcome.result {
            Err(_) => outcome.after,
            Ok(n) => if n == 0 || n > bytes.len() {
                outcome.after
            } else {
                absorb(outcome.after, bytes.skip(n as int))
            },
        }
    }
}

/// The requests of a peer have the same effect in whatever pieces they arrive:
/// an established session that has absorbed one piece and then another is as if
/// it had absorbed both at once.
pub proof fn law_pieces_have_the_same_effect(v: SessionView, a: Seq<u8>, b: Seq<u8>)
    requires
        session::consistent(v),
        v.state == State::Established,
        a.len() + b.len() <= usize::MAX,
    ensures
        absorb(absorb(v, a), b) == absorb(v, a + b),
    decreases a.len(),
{
    if a.len() == 0 {
        assert(a + b =~= b);
    } else if b.len() == 0 {
        assert(a + b =~= a);
    } else {
        let first = session::digest(v, a, false);
        let both = session::digest(v, a + b, false);
        lemma_first_piece(v, a, b);
        match first.result {
            Err(_) => {},
            Ok(n) => {
                if frame::decoder_feed(v.frame_cap, v.decoder, a).1->Ok_0.1 is Some {
                    assert((a + b).skip(n as int) =~= a.skip(n as int) + b);
                    law_pieces_have_the_same_effect(first.after, a.skip(n as int), b);
                } else {
                    assert(a.skip(n as int) =~= Seq::<u8>::empty());
                    assert(absorb(v, a) == absorb(first.after, a.skip(n as int)));
                    let second = session::digest(first.after, b, false);
                    if let Ok(m) = both.result {
                        assert((a + b).skip(m as int) =~= b.skip(m - a.len()));
                    }
                }
            },
        }
    }
}

/// What feeding a first piece tells of feeding both: an error is the error of
/// both; a frame is the frame of both; and a piece without a frame is taken whole,
/// and changes nothing about what both come to.
proof fn lemma_first_piece(v: SessionView, a: Seq<u8>, b: Seq<u8>)
    requires
        session::consistent(v),
        v.state == State::Established,
        a.len() > 0,
        b.len() > 0,
        a.len() + b.len() <= usize::MAX,
    ensures
        ({
            let first = session::digest(v, a, false);
            let both = session::digest(v, a + b, false);
            let second = session::digest(first.after, b, false);
            &&& session::consistent(first.after)
            &&& first.after.state == State::Established
            &&& match frame::decoder_feed(v.frame_cap, v.decoder, a).1 {
                Err(_) => {
                    &&& first.result is Err
                    &&& both == first
                    &&& second.result is Err
                    &&& second.after == first.after
                },
                Ok((_, Some(_))) => {
                    &&& both == first
                    &&& first.result matches Ok(n) && 0 < n <= a.len()
                },
                Ok((_, None)) => {
                    &&& first.result == Ok::<usize, ConnError>(a.len() as usize)
                    &&& second.after == both.after
                    &&& match both.result {
                        Ok(m) => a.len() < m <= a.len() + b.len() && second.result == Ok::<
                            usize,
                            ConnError,
                        >((m - a.len()) as usize),
                        Err(_) => second.result is Err,
                    }
                },
            }
        }),
{
    reveal(session::digest);
    let cap = v.frame_cap;
    law_feed_keeps_consistent(v, a, false);
    frame::law_feed_keeps_ok(cap, v.decoder, a);
    match frame::decoder_feed(cap, v.decoder, a).1 {
        Err(_) => {
            assert(v.decoder.pending + (a + b) =~= (v.decoder.pending + a) + b);
            frame::law_parse_is_stable(cap, v.decoder.pending + a, b);
        },
        Ok((_, Some(_))) => {
            frame::law_frame_ends_where_it_ends(cap, v.decoder, a, b);
        },
        Ok((_, None)) => {
            law_frames_in_pieces(v, a, b, false);
            frame::law_pieces_do_not_matter(cap, v.decoder, a, b);
            frame::law_feed_keeps_ok(cap, v.decoder, a + b);
            frame::law_feed_keeps_ok(cap, frame::decoder_feed(cap, v.decoder, a).0, b);
        },
    }
}

} // verus!
