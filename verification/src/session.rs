//! One peer's session: the handshake, the peer's requests and what is sent to it.
//!
//! A session is sans-IO. It is fed the bytes that the peer has sent, and writes
//! what has to be sent to the peer into buffers of the caller. PUB and RADIO
//! sockets share it; they differ in the table in which the peer's interests are
//! kept and in the commands that fill it.

use vstd::prelude::*;
use vstd::slice::slice_subrange;

use crate::auth::{AuthCheck, Mechanism};
use crate::bytes::{copy_into, put, put_frames, same};
use crate::command::split_counted;
use crate::connection::{ConnError, State};
use crate::frame::{encode_message_frame, FrameDecoder, MAX_FRAME_HEADER};
use crate::greeting::{
    check_head, encode_greeting_for, parse_greeting_for, GREETING_LEN, GREETING_PARTIAL_LEN,
    GREETING_REST_LEN,
};
use crate::null::{encode_error, encode_ready, encode_ready_radio, parse_ready_for, NullError, Role};
use crate::plain::{encode_welcome, parse_hello_from, PlainError};
use crate::registry::Registry;

verus! {

/// Longest context that a PONG echoes.
pub const MAX_CONTEXT: usize = 16;

/// "Invalid socket type"
pub const REFUSAL: [u8; 19] = [
    0x49, 0x6E, 0x76, 0x61, 0x6C, 0x69, 0x64, 0x20, 0x73, 0x6F, 0x63, 0x6B, 0x65, 0x74, 0x20, 0x74,
    0x79, 0x70, 0x65,
];

/// The value of a session.
pub struct SessionView {
    /// The kind of our socket.
    pub role: Role,
    /// The security mechanism.
    pub mechanism: Mechanism,
    /// How far the handshake has come.
    pub state: State,
    /// The first bytes of our greeting have been written.
    pub head_sent: bool,
    /// All of our greeting has been written.
    pub greeting_sent: bool,
    /// The bytes of the peer's greeting that have come in.
    pub peer_greeting: Seq<u8>,
    /// Our WELCOME has been written.
    pub welcome_sent: bool,
    /// Our READY has been written.
    pub ready_sent: bool,
    /// The frame decoder.
    pub decoder: crate::frame::DecoderState,
    /// The prefixes or groups that the peer has asked for.
    pub entries: Set<Seq<u8>>,
    /// The context of a PING that has not been answered yet.
    pub pong: Option<Seq<u8>>,
    /// How many bytes the body of an inbound frame can have.
    pub frame_cap: nat,
    /// How many entries there can be.
    pub max_entries: nat,
    /// How many bytes an entry can have.
    pub max_len: nat,
}

/// The peer's greeting has come in and is good.
pub open spec fn greeted(v: SessionView) -> bool {
    v.peer_greeting.len() == GREETING_LEN && crate::greeting::greeting_verdict(
        v.mechanism,
        v.peer_greeting,
    ) is Ok
}

/// The peer's minor version: zero until its greeting has come in.
pub open spec fn peer_minor(v: SessionView) -> u8 {
    if greeted(v) {
        v.peer_greeting[11]
    } else {
        0
    }
}

/// The state that follows the exchange of greetings.
pub open spec fn after_greetings(mechanism: Mechanism) -> State {
    match mechanism {
        Mechanism::Null => State::Ready,
        Mechanism::Plain => State::PlainHello,
    }
}

/// The entries keep to the limits.
pub open spec fn within_limits(v: SessionView) -> bool {
    &&& v.entries.finite()
    &&& v.entries.len() <= v.max_entries
    &&& forall|key: Seq<u8>| #[trigger] v.entries.contains(key) ==> key.len() <= v.max_len
}

/// What holds of a session at all times: what has been sent and received fits
/// the state that the handshake is in.
pub open spec fn consistent(v: SessionView) -> bool {
    &&& v.peer_greeting.len() <= GREETING_LEN
    &&& v.greeting_sent ==> v.head_sent
    &&& v.state != State::Greeting ==> v.greeting_sent && greeted(v)
    &&& v.state == State::Greeting && v.greeting_sent && greeted(v) ==> v.role == Role::Radio
    &&& v.state == State::Ready ==> v.mechanism == Mechanism::Null
    &&& v.state == State::PlainHello ==> v.mechanism == Mechanism::Plain
    &&& v.state == State::PlainReady ==> v.mechanism == Mechanism::Plain
    &&& v.welcome_sent ==> v.mechanism == Mechanism::Plain && (v.state == State::PlainReady
        || v.state == State::Established || v.state == State::Failed)
    &&& v.ready_sent ==> v.state == State::Ready || v.state == State::PlainReady || v.state
        == State::Established || v.state == State::Failed
    &&& v.ready_sent && v.mechanism == Mechanism::Plain ==> v.welcome_sent
    &&& v.state == State::Established ==> v.ready_sent
    &&& v.state != State::Established ==> v.entries == Set::<Seq<u8>>::empty() && v.pong is None
    &&& v.pong matches Some(context) ==> context.len() <= MAX_CONTEXT
    &&& within_limits(v)
    &&& crate::frame::decoder_ok(v.frame_cap, v.decoder)
}

/// A session that has just begun.
pub open spec fn fresh(
    role: Role,
    mechanism: Mechanism,
    frame_cap: nat,
    max_entries: nat,
    max_len: nat,
) -> SessionView {
    SessionView {
        role,
        mechanism,
        state: State::Greeting,
        head_sent: false,
        greeting_sent: false,
        peer_greeting: Seq::empty(),
        welcome_sent: false,
        ready_sent: false,
        decoder: crate::frame::decoder_start(),
        entries: Set::empty(),
        pong: None,
        frame_cap,
        max_entries,
        max_len,
    }
}

// ---------------------------------------------------------------------------
// What comes in
// ---------------------------------------------------------------------------

/// What feeding a session comes to.
pub struct FeedOutcome {
    /// The session afterwards.
    pub after: SessionView,
    /// The number of bytes taken, or the error.
    pub result: Result<usize, ConnError>,
    /// The user name and the password that the authenticator was asked about.
    pub asked: Option<(Seq<u8>, Seq<u8>)>,
}

/// Bytes of the peer's greeting. The first 11 bytes are judged as soon as they
/// are there, and the whole greeting when it is.
pub open spec fn feed_greeting_step(v: SessionView, input: Seq<u8>) -> FeedOutcome {
    let room = GREETING_LEN - v.peer_greeting.len();
    let n = if input.len() < room {
        input.len() as int
    } else {
        room
    };
    let had = v.peer_greeting.len();
    let bytes = v.peer_greeting + input.take(n);
    let next = SessionView { peer_greeting: bytes, ..v };
    let head = crate::greeting::partial_verdict(bytes);
    if had < GREETING_PARTIAL_LEN && bytes.len() >= GREETING_PARTIAL_LEN && head is Err {
        FeedOutcome {
            after: next,
            result: Err(ConnError::GreetingError(head->Err_0)),
            asked: None,
        }
    } else if bytes.len() == GREETING_LEN {
        match crate::greeting::greeting_verdict(v.mechanism, bytes) {
            Err(e) => FeedOutcome {
                after: next,
                result: Err(ConnError::GreetingError(e)),
                asked: None,
            },
            Ok(_) => FeedOutcome {
                after: SessionView {
                    state: if v.greeting_sent {
                        after_greetings(v.mechanism)
                    } else {
                        v.state
                    },
                    ..next
                },
                result: Ok(n as usize),
                asked: None,
            },
        }
    } else {
        FeedOutcome { after: next, result: Ok(n as usize), asked: None }
    }
}

/// The context that a PING asks to have echoed: what follows the two bytes of
/// its time-to-live, up to 16 bytes.
pub open spec fn ping_context(data: Seq<u8>) -> Seq<u8> {
    if data.len() <= 2 {
        Seq::empty()
    } else if data.len() <= 2 + MAX_CONTEXT {
        data.skip(2)
    } else {
        data.subrange(2, 2 + MAX_CONTEXT)
    }
}

/// The session with an entry added, as far as the limits allow.
pub open spec fn with_entry(v: SessionView, key: Seq<u8>) -> SessionView {
    SessionView {
        entries: crate::entries::inserted(v.entries, key, v.max_entries, v.max_len),
        ..v
    }
}

/// The session with an entry removed.
pub open spec fn without_entry(v: SessionView, key: Seq<u8>) -> SessionView {
    SessionView { entries: v.entries.remove(key), ..v }
}

/// What a frame does to an established session. Commands that are cut off or
/// not known are passed over. A PUB socket also takes subscriptions in the form
/// of messages, as older peers send them.
pub open spec fn apply_frame(v: SessionView, frame: crate::frame::Frame) -> SessionView {
    if frame.is_command {
        match crate::command::counted(frame.body) {
            None => v,
            Some((name, data)) => if v.role == Role::Pub && name == crate::command::SUBSCRIBE@ {
                with_entry(v, data)
            } else if v.role == Role::Pub && name == crate::command::CANCEL@ {
                without_entry(v, data)
            } else if v.role == Role::Radio && name == crate::command::JOIN@ {
                with_entry(v, data)
            } else if v.role == Role::Radio && name == crate::command::LEAVE@ {
                without_entry(v, data)
            } else if name == crate::command::PING@ && peer_minor(v) >= 1 {
                SessionView { pong: Some(ping_context(data)), ..v }
            } else {
                v
            },
        }
    } else if v.role == Role::Pub && frame.body.len() > 0 && frame.body[0] == 1 {
        with_entry(v, frame.body.skip(1))
    } else if v.role == Role::Pub && frame.body.len() > 0 && frame.body[0] == 0 {
        without_entry(v, frame.body.skip(1))
    } else {
        v
    }
}

/// What a frame does to the handshake or to an established session. `n` bytes
/// have been taken; `verdict` is the authenticator's, where it is asked.
pub open spec fn frame_step(
    v: SessionView,
    frame: crate::frame::Frame,
    n: nat,
    verdict: bool,
) -> FeedOutcome {
    let failed = SessionView { state: State::Failed, ..v };
    if v.state == State::Established {
        FeedOutcome { after: apply_frame(v, frame), result: Ok(n as usize), asked: None }
    } else if v.state == State::PlainHello {
        match crate::plain::hello_verdict(frame.is_command, frame.body) {
            Err(e) => FeedOutcome {
                after: failed,
                result: Err(ConnError::PlainError(e)),
                asked: None,
            },
            Ok(pair) => FeedOutcome {
                after: SessionView { state: hello_state(verdict), ..v },
                result: hello_result(verdict, n),
                asked: Some(pair),
            },
        }
    } else if frame.body.len() > 255 {
        FeedOutcome {
            after: failed,
            result: Err(ConnError::NullError(NullError::MalformedMetadata)),
            asked: None,
        }
    } else {
        match crate::null::ready_verdict(v.role, frame.is_command, frame.body) {
            Err(e) => FeedOutcome {
                after: failed,
                result: Err(ConnError::NullError(e)),
                asked: None,
            },
            Ok(_) => FeedOutcome {
                after: SessionView { state: State::Established, ..v },
                result: Ok(n as usize),
                asked: None,
            },
        }
    }
}

/// The state after the authenticator's verdict on a HELLO.
pub open spec fn hello_state(verdict: bool) -> State {
    if verdict {
        State::PlainReady
    } else {
        State::Failed
    }
}

/// What `feed` returns after the authenticator's verdict on a HELLO.
pub open spec fn hello_result(verdict: bool, n: nat) -> Result<usize, ConnError> {
    if verdict {
        Ok(n as usize)
    } else {
        Err(ConnError::PlainError(PlainError::AuthFailed))
    }
}

/// Bytes of frames.
pub open spec fn feed_frames_step(v: SessionView, input: Seq<u8>, verdict: bool) -> FeedOutcome {
    let (decoder, decoded) = crate::frame::decoder_feed(v.frame_cap, v.decoder, input);
    let next = SessionView { decoder, ..v };
    match decoded {
        Err(e) => FeedOutcome {
            after: next,
            result: Err(ConnError::DecodeError(e)),
            asked: None,
        },
        Ok((n, None)) => FeedOutcome { after: next, result: Ok(n as usize), asked: None },
        Ok((n, Some(frame))) => frame_step(next, frame, n, verdict),
    }
}

/// The session may be fed now: a peer's READY is not looked at before ours has
/// been written, and a failed session takes nothing.
pub open spec fn listens(v: SessionView) -> bool {
    match v.state {
        State::Ready => v.ready_sent,
        State::PlainReady => v.welcome_sent && v.ready_sent,
        State::Failed => false,
        _ => true,
    }
}

/// What feeding `input` to a session comes to.
pub open spec fn feed_step(v: SessionView, input: Seq<u8>, verdict: bool) -> FeedOutcome {
    if !listens(v) {
        FeedOutcome { after: v, result: Err(ConnError::WrongState), asked: None }
    } else if v.state == State::Greeting {
        feed_greeting_step(v, input)
    } else {
        feed_frames_step(v, input, verdict)
    }
}

/// The same as [`feed_step`], kept folded where only what is known of it matters.
#[verifier::opaque]
pub open spec fn digest(v: SessionView, input: Seq<u8>, verdict: bool) -> FeedOutcome {
    feed_step(v, input, verdict)
}

// ---------------------------------------------------------------------------
// What goes out
// ---------------------------------------------------------------------------

/// What writing to a buffer of `room` bytes comes to.
pub struct WriteOutcome {
    /// The session afterwards.
    pub after: SessionView,
    /// The number of bytes written, or the error.
    pub result: Result<usize, ConnError>,
    /// The bytes written.
    pub bytes: Seq<u8>,
}

/// Nothing is written.
pub open spec fn refused(v: SessionView, e: ConnError) -> WriteOutcome {
    WriteOutcome { after: v, result: Err(e), bytes: Seq::empty() }
}

/// The first bytes of our greeting.
pub open spec fn write_head_step(v: SessionView, room: nat) -> WriteOutcome {
    if v.state != State::Greeting || v.head_sent {
        refused(v, ConnError::WrongState)
    } else if room < GREETING_PARTIAL_LEN {
        refused(v, ConnError::BufferTooSmall)
    } else {
        WriteOutcome {
            after: SessionView { head_sent: true, ..v },
            result: Ok(GREETING_PARTIAL_LEN),
            bytes: crate::greeting::our_greeting(v.mechanism).take(GREETING_PARTIAL_LEN as int),
        }
    }
}

/// The rest of our greeting. Where the peer's greeting is there already, the
/// exchange of greetings is over.
pub open spec fn write_rest_step(v: SessionView, room: nat) -> WriteOutcome {
    if v.state != State::Greeting || !v.head_sent || v.greeting_sent {
        refused(v, ConnError::WrongState)
    } else if room < GREETING_REST_LEN {
        refused(v, ConnError::BufferTooSmall)
    } else {
        WriteOutcome {
            after: SessionView {
                greeting_sent: true,
                state: if greeted(v) {
                    after_greetings(v.mechanism)
                } else {
                    v.state
                },
                ..v
            },
            result: Ok(GREETING_REST_LEN),
            bytes: crate::greeting::our_greeting(v.mechanism).skip(GREETING_PARTIAL_LEN as int),
        }
    }
}

/// All of our greeting at once. The exchange of greetings ends with the next
/// bytes that are fed.
pub open spec fn write_whole_step(v: SessionView, room: nat) -> WriteOutcome {
    if v.state != State::Greeting || v.head_sent {
        refused(v, ConnError::WrongState)
    } else if room < GREETING_LEN {
        refused(v, ConnError::BufferTooSmall)
    } else {
        WriteOutcome {
            after: SessionView { head_sent: true, greeting_sent: true, ..v },
            result: Ok(GREETING_LEN),
            bytes: crate::greeting::our_greeting(v.mechanism),
        }
    }
}

/// Both parts of our greeting, one right after the other.
pub open spec fn write_full_step(v: SessionView, room: nat) -> WriteOutcome {
    if v.state != State::Greeting || v.head_sent {
        refused(v, ConnError::WrongState)
    } else if room < GREETING_LEN {
        refused(v, ConnError::BufferTooSmall)
    } else {
        WriteOutcome {
            after: write_rest_step(write_head_step(v, room).after, room).after,
            result: Ok(GREETING_LEN),
            bytes: crate::greeting::our_greeting(v.mechanism),
        }
    }
}

/// The rest of our greeting is due: the peer has begun to greet.
pub open spec fn rest_pending(v: SessionView) -> bool {
    v.state == State::Greeting && v.head_sent && !v.greeting_sent && v.peer_greeting.len()
        >= GREETING_PARTIAL_LEN
}

/// Our READY command, after WELCOME where the mechanism has it.
pub open spec fn write_ready_step(v: SessionView, room: nat) -> WriteOutcome {
    let ready = crate::null::our_ready(v.role);
    if !(v.state == State::Ready || v.state == State::PlainReady && v.welcome_sent)
        || v.ready_sent {
        refused(v, ConnError::WrongState)
    } else if room < ready.len() {
        refused(v, ConnError::BufferTooSmall)
    } else {
        WriteOutcome {
            after: SessionView { ready_sent: true, ..v },
            result: Ok(ready.len() as usize),
            bytes: ready,
        }
    }
}

/// Our WELCOME command.
pub open spec fn write_welcome_step(v: SessionView, room: nat) -> WriteOutcome {
    if v.state != State::PlainReady || v.welcome_sent {
        refused(v, ConnError::WrongState)
    } else if room < crate::plain::WELCOME_LEN {
        refused(v, ConnError::PlainError(PlainError::BufferTooSmall))
    } else {
        WriteOutcome {
            after: SessionView { welcome_sent: true, ..v },
            result: Ok(crate::plain::WELCOME_LEN),
            bytes: crate::plain::WELCOME_FRAME@,
        }
    }
}

/// Our ERROR command.
pub open spec fn write_error_step(v: SessionView, room: nat) -> WriteOutcome {
    let frame = crate::null::error_frame(REFUSAL@);
    if room < frame.len() {
        refused(v, ConnError::NullError(NullError::BufferTooSmall))
    } else {
        WriteOutcome { after: v, result: Ok(frame.len() as usize), bytes: frame }
    }
}

/// The PONG command that answers a PING with `context`.
pub open spec fn pong_frame(context: Seq<u8>) -> Seq<u8> {
    crate::command::command_frame(crate::command::PONG@, context)
}

/// Our PONG command, where a PING waits for it.
pub open spec fn write_pong_step(v: SessionView, room: nat) -> WriteOutcome {
    match v.pong {
        None => WriteOutcome { after: v, result: Ok(0), bytes: Seq::empty() },
        Some(context) => if room < pong_frame(context).len() {
            refused(v, ConnError::BufferTooSmall)
        } else {
            WriteOutcome {
                after: SessionView { pong: None, ..v },
                result: Ok(pong_frame(context).len() as usize),
                bytes: pong_frame(context),
            }
        },
    }
}

/// A message as it goes over the wire: the topic and the payload, a frame each.
pub open spec fn message_wire(topic: Seq<u8>, payload: Seq<u8>) -> Seq<u8> {
    crate::frame::encoded_frame(topic, true, false) + crate::frame::encoded_frame(
        payload,
        false,
        false,
    )
}

/// A message for the peer, if it has asked for it.
pub open spec fn publish_step(
    v: SessionView,
    topic: Seq<u8>,
    payload: Seq<u8>,
    room: nat,
) -> WriteOutcome {
    if v.state != State::Established {
        refused(v, ConnError::WrongState)
    } else if !crate::registry::selects(v.role, v.entries, topic) {
        WriteOutcome { after: v, result: Ok(0), bytes: Seq::empty() }
    } else if room < message_wire(topic, payload).len() {
        refused(v, ConnError::BufferTooSmall)
    } else {
        WriteOutcome {
            after: v,
            result: Ok(message_wire(topic, payload).len() as usize),
            bytes: message_wire(topic, payload),
        }
    }
}

// ---------------------------------------------------------------------------
// The session itself
// ---------------------------------------------------------------------------

/// Headers returned by [`Session::publish_headers`]:
/// `(topic_hdr, topic_hdr_len, payload_hdr, payload_hdr_len)`.
pub type PublishHeaders = ([u8; MAX_FRAME_HEADER], usize, [u8; MAX_FRAME_HEADER], usize);

/// Sans-IO ZMTP 3.1 session with one peer.
/// `R` = table of the peer's interests, which also tells PUB from RADIO.
/// `FRAME_CAP` = max body bytes buffered in the internal frame decoder.
/// `A` = authenticator type; `()` for the NULL mechanism.
pub struct Session<R: Registry, const FRAME_CAP: usize, A: AuthCheck> {
    mechanism: Mechanism,
    state: State,
    head_sent: bool,
    greeting_sent: bool,
    peer_greeting_received: bool,
    peer_version_minor: u8,
    welcome_sent: bool,
    ready_sent: bool,
    greeting_buf: [u8; GREETING_LEN],
    greeting_pos: usize,
    frame_decoder: FrameDecoder<FRAME_CAP>,
    table: R,
    pending_pong: Option<([u8; MAX_CONTEXT], usize)>,
    auth: A,
}

impl<R: Registry, const FRAME_CAP: usize, A: AuthCheck> View for Session<R, FRAME_CAP, A> {
    type V = SessionView;

    closed spec fn view(&self) -> SessionView {
        SessionView {
            role: R::role(),
            mechanism: self.mechanism,
            state: self.state,
            head_sent: self.head_sent,
            greeting_sent: self.greeting_sent,
            peer_greeting: self.greeting_buf@.take(self.greeting_pos as int),
            welcome_sent: self.welcome_sent,
            ready_sent: self.ready_sent,
            decoder: self.frame_decoder@,
            entries: self.table.entries(),
            pong: match self.pending_pong {
                None => None,
                Some((context, len)) => Some(context@.take(len as int)),
            },
            frame_cap: FRAME_CAP as nat,
            max_entries: R::max_entries(),
            max_len: R::max_len(),
        }
    }
}

impl<R: Registry, const FRAME_CAP: usize, A: AuthCheck> Session<R, FRAME_CAP, A> {
    /// The parts are well formed and agree with each other.
    spec fn parts_wf(&self) -> bool {
        &&& self.greeting_pos <= GREETING_LEN
        &&& self.frame_decoder.wf()
        &&& self.table.valid()
        &&& self.pending_pong matches Some((_, len)) ==> len <= MAX_CONTEXT
        &&& self.peer_greeting_received == greeted(self@)
        &&& self.peer_version_minor == peer_minor(self@)
    }

    /// The session is well formed.
    pub closed spec fn wf(&self) -> bool {
        self.parts_wf() && consistent(self@)
    }

    /// Who decides about credentials.
    pub closed spec fn authenticator(&self) -> A {
        self.auth
    }

    /// What holds of every session that was made and used through its methods.
    pub proof fn law_consistent(&self)
        requires
            self.wf(),
        ensures
            consistent(self@),
            self@.role == R::role(),
            self@.frame_cap == FRAME_CAP,
            self@.max_entries == R::max_entries(),
            self@.max_len == R::max_len(),
    {
    }

    /// `before`, fed `input`, became `after` and returned `r`, where the
    /// authenticator, if it was asked, gave `verdict`.
    pub open spec fn fed(
        before: Self,
        input: Seq<u8>,
        verdict: bool,
        r: Result<usize, ConnError>,
        after: Self,
    ) -> bool {
        let outcome = feed_step(before@, input, verdict);
        &&& after@ == outcome.after
        &&& r == outcome.result
        &&& after.authenticator() == before.authenticator()
        &&& outcome.asked matches Some((username, password))
            ==> before.authenticator().may_answer(username, password, verdict)
    }

    /// As [`Session::fed`], in terms of [`digest`].
    pub(crate) open spec fn digested(
        before: Self,
        input: Seq<u8>,
        verdict: bool,
        r: Result<usize, ConnError>,
        after: Self,
    ) -> bool {
        let outcome = digest(before@, input, verdict);
        &&& after@ == outcome.after
        &&& r == outcome.result
        &&& after.authenticator() == before.authenticator()
        &&& outcome.asked matches Some((username, password))
            ==> before.authenticator().may_answer(username, password, verdict)
    }

    /// `before`, asked to write into `out_before`, became `after`, left
    /// `out_after` there and returned `r`.
    pub open spec fn wrote(
        outcome: WriteOutcome,
        before: Self,
        out_before: Seq<u8>,
        r: Result<usize, ConnError>,
        after: Self,
        out_after: Seq<u8>,
    ) -> bool {
        &&& after@ == outcome.after
        &&& r == outcome.result
        &&& out_after == crate::bytes::overwrite(out_before, outcome.bytes)
        &&& after.authenticator() == before.authenticator()
    }

    /// Begins a session.
    pub(crate) fn start(mechanism: Mechanism, auth: A) -> (r: Self)
        ensures
            r.wf(),
            r@ == fresh(
                R::role(),
                mechanism,
                FRAME_CAP as nat,
                R::max_entries(),
                R::max_len(),
            ),
            r.authenticator() == auth,
    {
        let r = Session {
            mechanism,
            state: State::Greeting,
            head_sent: false,
            greeting_sent: false,
            peer_greeting_received: false,
            peer_version_minor: 0,
            welcome_sent: false,
            ready_sent: false,
            greeting_buf: [0u8; GREETING_LEN],
            greeting_pos: 0,
            frame_decoder: FrameDecoder::new(),
            table: R::empty(),
            pending_pong: None,
            auth,
        };
        assert(r@.peer_greeting =~= Seq::<u8>::empty());
        r
    }

    /// Current handshake [`State`] of the connection.
    #[must_use]
    pub fn state(&self) -> (r: &State)
        ensures
            *r == self@.state,
    {
        &self.state
    }

    /// Returns the peer's ZMTP version as (major, minor).
    #[must_use]
    pub fn peer_version(&self) -> (r: (u8, u8))
        requires
            self.wf(),
        ensures
            r == (3u8, peer_minor(self@)),
    {
        (3, self.peer_version_minor)
    }

    /// Write the first 11 bytes of our greeting (signature + version major).
    pub(crate) fn write_head(&mut self, out: &mut [u8]) -> (r: Result<usize, ConnError>)
        requires
            old(self).wf(),
        ensures
            final(self).wf(),
            Self::wrote(
                write_head_step(old(self)@, old(out)@.len()),
                *old(self),
                old(out)@,
                r,
                *final(self),
                final(out)@,
            ),
    {
        assert(out@ =~= crate::bytes::overwrite(out@, Seq::empty()));
        if self.state != State::Greeting || self.head_sent {
            return Err(ConnError::WrongState);
        }
        if out.len() < GREETING_PARTIAL_LEN {
            return Err(ConnError::BufferTooSmall);
        }
        let mut arr: [u8; GREETING_LEN] = [0u8; GREETING_LEN];
        encode_greeting_for(self.mechanism, &mut arr);
        put(out, slice_subrange(arr.as_slice(), 0, GREETING_PARTIAL_LEN));
        self.head_sent = true;
        Ok(GREETING_PARTIAL_LEN)
    }

    /// Write our full 64-byte greeting.
    pub(crate) fn write_whole(&mut self, out: &mut [u8]) -> (r: Result<usize, ConnError>)
        requires
            old(self).wf(),
            R::role() == Role::Radio,
        ensures
            final(self).wf(),
            Self::wrote(
                write_whole_step(old(self)@, old(out)@.len()),
                *old(self),
                old(out)@,
                r,
                *final(self),
                final(out)@,
            ),
    {
        assert(out@ =~= crate::bytes::overwrite(out@, Seq::empty()));
        if self.state != State::Greeting || self.head_sent {
            return Err(ConnError::WrongState);
        }
        if out.len() < GREETING_LEN {
            return Err(ConnError::BufferTooSmall);
        }
        let mut arr: [u8; GREETING_LEN] = [0u8; GREETING_LEN];
        encode_greeting_for(self.mechanism, &mut arr);
        put(out, arr.as_slice());
        self.head_sent = true;
        self.greeting_sent = true;
        Ok(GREETING_LEN)
    }

    /// Write the remaining 53 bytes of our greeting into `out`.
    /// Call after receiving the peer's partial greeting (11 bytes).
    /// If the peer's full greeting is already received, transitions state to Ready (NULL)
    /// or `PlainHello` (PLAIN).
    ///
    /// # Errors
    /// Returns `ConnError::WrongState` if not in the correct handshake state.
    /// Returns `ConnError::BufferTooSmall` if `out` is smaller than the remaining greeting bytes.
    pub fn write_greeting_rest(&mut self, out: &mut [u8]) -> (r: Result<usize, ConnError>)
        requires
            old(self).wf(),
        ensures
            final(self).wf(),
            Self::wrote(
                write_rest_step(old(self)@, old(out)@.len()),
                *old(self),
                old(out)@,
                r,
                *final(self),
                final(out)@,
            ),
    {
        assert(out@ =~= crate::bytes::overwrite(out@, Seq::empty()));
        if self.state != State::Greeting || !self.head_sent || self.greeting_sent {
            return Err(ConnError::WrongState);
        }
        if out.len() < GREETING_REST_LEN {
            return Err(ConnError::BufferTooSmall);
        }
        let mut arr: [u8; GREETING_LEN] = [0u8; GREETING_LEN];
        encode_greeting_for(self.mechanism, &mut arr);
        let rest: &[u8] = slice_subrange(arr.as_slice(), GREETING_PARTIAL_LEN, GREETING_LEN);
        assert(rest@ =~= arr@.skip(GREETING_PARTIAL_LEN as int));
        put(out, rest);
        self.greeting_sent = true;
        if self.peer_greeting_received {
            self.state = Self::greetings_over(self.mechanism);
        }
        Ok(GREETING_REST_LEN)
    }

    /// Write both parts of our greeting.
    pub(crate) fn write_both(&mut self, out: &mut [u8]) -> (r: Result<usize, ConnError>)
        requires
            old(self).wf(),
        ensures
            final(self).wf(),
            Self::wrote(
                write_full_step(old(self)@, old(out)@.len()),
                *old(self),
                old(out)@,
                r,
                *final(self),
                final(out)@,
            ),
    {
        assert(out@ =~= crate::bytes::overwrite(out@, Seq::empty()));
        if self.state != State::Greeting || self.head_sent {
            return Err(ConnError::WrongState);
        }
        if out.len() < GREETING_LEN {
            return Err(ConnError::BufferTooSmall);
        }
        let mut arr: [u8; GREETING_LEN] = [0u8; GREETING_LEN];
        encode_greeting_for(self.mechanism, &mut arr);
        put(out, arr.as_slice());
        self.head_sent = true;
        self.greeting_sent = true;
        if self.peer_greeting_received {
            self.state = Self::greetings_over(self.mechanism);
        }
        Ok(GREETING_LEN)
    }

    /// The state that follows the exchange of greetings.
    fn greetings_over(mechanism: Mechanism) -> (r: State)
        ensures
            r == after_greetings(mechanism),
    {
        match mechanism {
            Mechanism::Null => State::Ready,
            Mechanism::Plain => State::PlainHello,
        }
    }

    /// Returns `true` if the whole of our greeting has been written.
    pub(crate) fn greeting_is_sent(&self) -> (r: bool)
        ensures
            r == self@.greeting_sent,
    {
        self.greeting_sent
    }

    /// Returns `true` if we have sent our partial greeting, received the peer's partial greeting,
    /// but have not yet sent the remaining 53 bytes.
    pub fn greeting_rest_pending(&self) -> (r: bool)
        requires
            self.wf(),
        ensures
            r == rest_pending(self@),
    {
        self.state == State::Greeting && self.head_sent && !self.greeting_sent && self.greeting_pos
            >= GREETING_PARTIAL_LEN
    }

    /// Write our READY command into `out`. Call after receiving a valid peer greeting.
    /// For PLAIN, `write_welcome` must be called first.
    /// Returns the length of the command, or Err.
    ///
    /// # Errors
    /// Returns `ConnError::WrongState` if not in `Ready` state (or `PlainReady` for PLAIN).
    /// Returns `ConnError::BufferTooSmall` if `out` is smaller than the command.
    pub fn write_ready(&mut self, out: &mut [u8]) -> (r: Result<usize, ConnError>)
        requires
            old(self).wf(),
        ensures
            final(self).wf(),
            Self::wrote(
                write_ready_step(old(self)@, old(out)@.len()),
                *old(self),
                old(out)@,
                r,
                *final(self),
                final(out)@,
            ),
    {
        assert(out@ =~= crate::bytes::overwrite(out@, Seq::empty()));
        let in_ready_state: bool = self.state == State::Ready || (self.state == State::PlainReady
            && self.welcome_sent);
        if !in_ready_state || self.ready_sent {
            return Err(ConnError::WrongState);
        }
        let written: Result<usize, NullError> = match R::socket_role() {
            Role::Pub => encode_ready(out),
            Role::Radio => encode_ready_radio(out),
        };
        match written {
            Ok(n) => {
                self.ready_sent = true;
                Ok(n)
            },
            Err(_) => Err(ConnError::BufferTooSmall),
        }
    }

    /// Encode a WELCOME command into `out`. Must be called after `feed` transitions to
    /// `PlainReady`, and before `write_ready`.
    ///
    /// # Errors
    /// Returns `ConnError::WrongState` if not in `PlainReady` state or already sent.
    /// Returns `ConnError::PlainError` if the WELCOME frame cannot be encoded.
    pub fn write_welcome(&mut self, out: &mut [u8]) -> (r: Result<usize, ConnError>)
        requires
            old(self).wf(),
        ensures
            final(self).wf(),
            Self::wrote(
                write_welcome_step(old(self)@, old(out)@.len()),
                *old(self),
                old(out)@,
                r,
                *final(self),
                final(out)@,
            ),
    {
        assert(out@ =~= crate::bytes::overwrite(out@, Seq::empty()));
        if self.state != State::PlainReady || self.welcome_sent {
            return Err(ConnError::WrongState);
        }
        match encode_welcome(out) {
            Ok(n) => {
                self.welcome_sent = true;
                Ok(n)
            },
            Err(e) => Err(ConnError::PlainError(e)),
        }
    }

    /// Encode an ERROR command into `out`. Can be called after transitioning to Failed.
    ///
    /// # Errors
    /// Returns `ConnError::NullError` if the ERROR frame cannot be encoded.
    pub fn write_error(&mut self, out: &mut [u8]) -> (r: Result<usize, ConnError>)
        requires
            old(self).wf(),
        ensures
            final(self).wf(),
            Self::wrote(
                write_error_step(old(self)@, old(out)@.len()),
                *old(self),
                old(out)@,
                r,
                *final(self),
                final(out)@,
            ),
    {
        assert(out@ =~= crate::bytes::overwrite(out@, Seq::empty()));
        let reason: [u8; 19] = REFUSAL;
        match encode_error(out, reason.as_slice()) {
            Ok(n) => Ok(n),
            Err(e) => Err(ConnError::NullError(e)),
        }
    }

    /// Encode and clear a pending PONG command (queued by a received PING).
    /// Returns `Ok(None)` when no PONG is pending, `Ok(Some(n))` on success.
    ///
    /// # Errors
    /// Returns `ConnError::BufferTooSmall` if `out` cannot hold the encoded PONG frame.
    pub fn write_pong(&mut self, out: &mut [u8]) -> (r: Result<Option<usize>, ConnError>)
        requires
            old(self).wf(),
        ensures
            final(self).wf(),
            match r {
                Ok(None) => old(self)@.pong is None,
                Ok(Some(_)) => old(self)@.pong is Some,
                Err(_) => true,
            },
            Self::wrote(
                write_pong_step(old(self)@, old(out)@.len()),
                *old(self),
                old(out)@,
                pong_length(r),
                *final(self),
                final(out)@,
            ),
    {
        assert(out@ =~= crate::bytes::overwrite(out@, Seq::empty()));
        let (context, len) = match self.pending_pong {
            None => {
                return Ok(None);
            },
            Some(pending) => pending,
        };
        // body = name-size(1) + "PONG"(4) + context(0-16) — always fits a short frame
        let body_len: usize = 1 + 4 + len;
        let total: usize = 2 + body_len;
        let ghost sent = context@.take(len as int);
        assert(pong_frame(sent).len() == total);
        if out.len() < total {
            return Err(ConnError::BufferTooSmall);
        }
        self.pending_pong = None;
        let name: [u8; 4] = crate::command::PONG;
        out[0] = 0x04;
        out[1] = body_len as u8;
        out[2] = 4;
        copy_into(out, 3, name.as_slice());
        copy_into(out, 7, slice_subrange(context.as_slice(), 0, len));
        assert(context@.subrange(0, len as int) =~= sent);
        assert(out@ =~= crate::bytes::overwrite(old(out)@, pong_frame(sent)));
        Ok(Some(total))
    }

    /// Feed incoming bytes from the peer into the connection.
    /// Drives the handshake and, once established, processes the peer's requests.
    /// Returns Ok(consumed) — may be less than `input.len()` if a frame boundary was hit.
    ///
    /// # Errors
    /// Returns `ConnError::GreetingError` if the peer greeting is invalid.
    /// Returns `ConnError::NullError` if the READY/ERROR handshake fails.
    /// Returns `ConnError::PlainError` if PLAIN authentication fails.
    /// Returns `ConnError::DecodeError` if an inbound frame is malformed.
    /// Returns `ConnError::WrongState` if the connection is in `Failed` state.
    pub fn feed(&mut self, input: &[u8]) -> (r: Result<usize, ConnError>)
        requires
            old(self).wf(),
        ensures
            final(self).wf(),
            exists|verdict: bool|
                #[trigger] Self::fed(*old(self), input@, verdict, r, *final(self)),
    {
        match self.state {
            State::Greeting => {
                let r: Result<usize, ConnError> = self.feed_greeting(input);
                assert(Self::fed(*old(self), input@, false, r, *self));
                r
            },
            State::Ready => {
                let r: Result<usize, ConnError> = if self.ready_sent {
                    self.feed_ready(input)
                } else {
                    Err(ConnError::WrongState)
                };
                assert(Self::fed(*old(self), input@, false, r, *self));
                r
            },
            State::PlainHello => self.feed_plain_hello(input),
            State::PlainReady => {
                let r: Result<usize, ConnError> = if self.welcome_sent && self.ready_sent {
                    self.feed_ready(input)
                } else {
                    Err(ConnError::WrongState)
                };
                assert(Self::fed(*old(self), input@, false, r, *self));
                r
            },
            State::Established => {
                let r: Result<usize, ConnError> = self.feed_established(input);
                assert(Self::fed(*old(self), input@, false, r, *self));
                r
            },
            State::Failed => {
                let r: Result<usize, ConnError> = Err(ConnError::WrongState);
                assert(Self::fed(*old(self), input@, false, r, *self));
                r
            },
        }
    }

    /// [`Session::feed`], in terms of [`digest`].
    pub(crate) fn take_in(&mut self, input: &[u8]) -> (r: Result<usize, ConnError>)
        requires
            old(self).wf(),
        ensures
            final(self).wf(),
            exists|verdict: bool|
                #[trigger] Self::digested(*old(self), input@, verdict, r, *final(self)),
    {
        reveal(digest);
        let ghost start = *self;
        let r: Result<usize, ConnError> = self.feed(input);
        let ghost verdict = choose|verdict: bool|
            #[trigger] Self::fed(start, input@, verdict, r, *self);
        assert(Self::digested(start, input@, verdict, r, *self));
        r
    }

    /// Bytes of the peer's greeting.
    fn feed_greeting(&mut self, input: &[u8]) -> (r: Result<usize, ConnError>)
        requires
            old(self).wf(),
            old(self)@.state == State::Greeting,
        ensures
            final(self).wf(),
            final(self)@ == feed_greeting_step(old(self)@, input@).after,
            r == feed_greeting_step(old(self)@, input@).result,
            final(self).authenticator() == old(self).authenticator(),
    {
        let had: usize = self.greeting_pos;
        let needed: usize = GREETING_LEN - had;
        let n: usize = if input.len() < needed { input.len() } else { needed };
        let ghost before = self.greeting_buf@;
        copy_into(&mut self.greeting_buf, had, slice_subrange(input, 0, n));
        self.greeting_pos = had + n;
        let ghost bytes = before.take(had as int) + input@.take(n as int);
        assert(self.greeting_buf@.take(had + n) =~= bytes);
        assert(n == 0 ==> bytes =~= before.take(had as int));

        if had < GREETING_PARTIAL_LEN && self.greeting_pos >= GREETING_PARTIAL_LEN {
            let pos: usize = self.greeting_pos;
            let head: &[u8] = slice_subrange(self.greeting_buf.as_slice(), 0, pos);
            assert(head@ =~= bytes);
            match check_head(head) {
                Err(e) => {
                    return Err(ConnError::GreetingError(e));
                },
                Ok(_) => {},
            }
        }
        if self.greeting_pos == GREETING_LEN {
            assert(self.greeting_buf@ =~= bytes);
            match parse_greeting_for(self.mechanism, &self.greeting_buf) {
                Err(e) => {
                    return Err(ConnError::GreetingError(e));
                },
                Ok(greeting) => {
                    self.peer_version_minor = greeting.version_minor;
                    self.peer_greeting_received = true;
                    if self.greeting_sent {
                        self.state = Self::greetings_over(self.mechanism);
                    }
                },
            }
        }
        Ok(n)
    }

    /// Bytes of the peer's READY command.
    fn feed_ready(&mut self, input: &[u8]) -> (r: Result<usize, ConnError>)
        requires
            old(self).wf(),
            listens(old(self)@),
            old(self)@.state == State::Ready || old(self)@.state == State::PlainReady,
        ensures
            final(self).wf(),
            final(self)@ == feed_frames_step(old(self)@, input@, false).after,
            r == feed_frames_step(old(self)@, input@, false).result,
            final(self).authenticator() == old(self).authenticator(),
    {
        proof {
            crate::frame::law_feed_keeps_ok(FRAME_CAP as nat, self.frame_decoder@, input@);
        }
        let (consumed, frame) = match self.frame_decoder.feed(input) {
            Err(e) => {
                return Err(ConnError::DecodeError(e));
            },
            Ok((consumed, None)) => {
                return Ok(consumed);
            },
            Ok((consumed, Some(frame))) => (consumed, frame),
        };
        // Handshake commands must be short frames (body up to 255 bytes), whatever
        // FRAME_CAP is.
        if frame.body.len() > 255 {
            self.state = State::Failed;
            return Err(ConnError::NullError(NullError::MalformedMetadata));
        }
        match parse_ready_for(R::socket_role(), frame.is_command, frame.body) {
            Ok(_) => {
                self.state = State::Established;
                Ok(consumed)
            },
            Err(e) => {
                self.state = State::Failed;
                Err(ConnError::NullError(e))
            },
        }
    }

    /// Bytes of the peer's HELLO command.
    fn feed_plain_hello(&mut self, input: &[u8]) -> (r: Result<usize, ConnError>)
        requires
            old(self).wf(),
            old(self)@.state == State::PlainHello,
        ensures
            final(self).wf(),
            exists|verdict: bool|
                #[trigger] Self::fed(*old(self), input@, verdict, r, *final(self)),
    {
        proof {
            crate::frame::law_feed_keeps_ok(FRAME_CAP as nat, self.frame_decoder@, input@);
        }
        let (consumed, frame) = match self.frame_decoder.feed(input) {
            Err(e) => {
                let r: Result<usize, ConnError> = Err(ConnError::DecodeError(e));
                assert(Self::fed(*old(self), input@, false, r, *self));
                return r;
            },
            Ok((consumed, None)) => {
                let r: Result<usize, ConnError> = Ok(consumed);
                assert(Self::fed(*old(self), input@, false, r, *self));
                return r;
            },
            Ok((consumed, Some(frame))) => (consumed, frame),
        };
        match parse_hello_from(frame.is_command, frame.body) {
            Ok((username, password)) => {
                let verdict: bool = self.auth.check(username, password);
                let (state, r) = hello_decided(verdict, consumed);
                self.state = state;
                assert(Self::fed(*old(self), input@, verdict, r, *self));
                r
            },
            Err(e) => {
                self.state = State::Failed;
                let r: Result<usize, ConnError> = Err(ConnError::PlainError(e));
                assert(Self::fed(*old(self), input@, false, r, *self));
                r
            },
        }
    }

    /// Bytes of the peer's requests.
    fn feed_established(&mut self, input: &[u8]) -> (r: Result<usize, ConnError>)
        requires
            old(self).wf(),
            old(self)@.state == State::Established,
        ensures
            final(self).wf(),
            final(self)@ == feed_frames_step(old(self)@, input@, false).after,
            r == feed_frames_step(old(self)@, input@, false).result,
            final(self).authenticator() == old(self).authenticator(),
    {
        proof {
            crate::frame::law_feed_keeps_ok(FRAME_CAP as nat, self.frame_decoder@, input@);
        }
        let (consumed, frame) = match self.frame_decoder.feed(input) {
            Err(e) => {
                return Err(ConnError::DecodeError(e));
            },
            Ok((consumed, None)) => {
                return Ok(consumed);
            },
            Ok((consumed, Some(frame))) => (consumed, frame),
        };
        match request_of(R::socket_role(), self.peer_version_minor >= 1, frame.is_command, frame.body) {
            Request::Add(key) => self.table.add(key),
            Request::Remove(key) => self.table.remove(key),
            Request::Echo(context) => {
                let mut buf: [u8; MAX_CONTEXT] = [0u8; MAX_CONTEXT];
                put(&mut buf, context);
                assert(buf@.take(context@.len() as int) =~= context@);
                self.pending_pong = Some((buf, context.len()));
            },
            Request::Nothing => {},
        }
        Ok(consumed)
    }

    /// Encode the two ZMTP frame headers for a publish, after checking the peer's interests.
    /// Returns `Ok(None)` if none of them matches; `Ok(Some(...))` with
    /// `(topic_hdr, th_len, payload_hdr, ph_len)` otherwise.
    ///
    /// # Errors
    /// Returns `ConnError::WrongState` if not in `Established` state.
    /// Returns `ConnError::FrameError` if the frame headers cannot be encoded.
    pub fn publish_headers(&mut self, topic: &[u8], payload: &[u8]) -> (r: Result<
        Option<PublishHeaders>,
        ConnError,
    >)
        requires
            old(self).wf(),
        ensures
            final(self).wf(),
            final(self)@ == old(self)@,
            final(self).authenticator() == old(self).authenticator(),
            headers_result(old(self)@, topic@, payload@, r),
    {
        if self.state != State::Established {
            return Err(ConnError::WrongState);
        }
        if !self.table.wants(topic) {
            return Ok(None);
        }
        proof {
            crate::frame::lemma_frame_header_len(topic@.len(), true, false);
            crate::frame::lemma_frame_header_len(payload@.len(), false, false);
        }
        let mut th: [u8; MAX_FRAME_HEADER] = [0u8; MAX_FRAME_HEADER];
        let th_n: usize = match encode_message_frame(&mut th, topic.len(), true) {
            Ok(n) => n,
            Err(e) => {
                return Err(ConnError::FrameError(e));
            },
        };
        let mut ph: [u8; MAX_FRAME_HEADER] = [0u8; MAX_FRAME_HEADER];
        let ph_n: usize = match encode_message_frame(&mut ph, payload.len(), false) {
            Ok(n) => n,
            Err(e) => {
                return Err(ConnError::FrameError(e));
            },
        };
        assert([0u8; MAX_FRAME_HEADER]@ =~= crate::greeting::zeros(MAX_FRAME_HEADER as nat));
        Ok(Some((th, th_n, ph, ph_n)))
    }

    /// Publish a message to the peer. Only valid in Established state.
    /// Encodes a multipart message (MORE frame for topic, LAST frame for payload).
    /// Returns Ok(0) if the peer has not asked for the topic.
    ///
    /// # Errors
    /// Returns `ConnError::WrongState` if not in `Established` state.
    /// Returns `ConnError::BufferTooSmall` if `out` cannot hold the encoded message.
    /// Returns `ConnError::FrameError` if the frame headers cannot be encoded.
    pub fn publish(&mut self, topic: &[u8], payload: &[u8], out: &mut [u8]) -> (r: Result<
        usize,
        ConnError,
    >)
        requires
            old(self).wf(),
        ensures
            final(self).wf(),
            Self::wrote(
                publish_step(old(self)@, topic@, payload@, old(out)@.len()),
                *old(self),
                old(out)@,
                r,
                *final(self),
                final(out)@,
            ),
    {
        assert(out@ =~= crate::bytes::overwrite(out@, Seq::empty()));
        let (th, th_n, ph, ph_n) = match self.publish_headers(topic, payload) {
            Err(e) => {
                return Err(e);
            },
            Ok(None) => {
                return Ok(0);
            },
            Ok(Some(headers)) => headers,
        };
        proof {
            crate::frame::lemma_frame_header_len(topic@.len(), true, false);
            crate::frame::lemma_frame_header_len(payload@.len(), false, false);
        }
        let room: usize = out.len();
        if room < th_n + ph_n {
            return Err(ConnError::BufferTooSmall);
        }
        let left: usize = room - (th_n + ph_n);
        if left < topic.len() || left - topic.len() < payload.len() {
            return Err(ConnError::BufferTooSmall);
        }
        let total: usize = th_n + topic.len() + ph_n + payload.len();
        let topic_header: &[u8] = slice_subrange(th.as_slice(), 0, th_n);
        let payload_header: &[u8] = slice_subrange(ph.as_slice(), 0, ph_n);
        assert(topic_header@ =~= crate::frame::frame_header(topic@.len(), true, false));
        assert(payload_header@ =~= crate::frame::frame_header(payload@.len(), false, false));
        put_frames(out, topic_header, topic, payload_header, payload);
        Ok(total)
    }
}

/// What [`Session::publish_headers`] returns: the headers, where the peer has
/// asked for the topic.
pub open spec fn headers_result(
    v: SessionView,
    topic: Seq<u8>,
    payload: Seq<u8>,
    r: Result<Option<PublishHeaders>, ConnError>,
) -> bool {
    if v.state != State::Established {
        r == Err::<Option<PublishHeaders>, ConnError>(ConnError::WrongState)
    } else if !crate::registry::selects(v.role, v.entries, topic) {
        r == Ok::<Option<PublishHeaders>, ConnError>(None)
    } else {
        r matches Ok(Some(headers)) && headers_for(headers, topic, payload)
    }
}

/// The headers of the two frames of a message, each at the start of an array
/// that is zero after it.
pub open spec fn headers_for(headers: PublishHeaders, topic: Seq<u8>, payload: Seq<u8>) -> bool {
    let (th, th_n, ph, ph_n) = headers;
    let topic_header = crate::frame::frame_header(topic.len(), true, false);
    let payload_header = crate::frame::frame_header(payload.len(), false, false);
    &&& th_n == topic_header.len()
    &&& ph_n == payload_header.len()
    &&& th@ == crate::bytes::overwrite(
        crate::greeting::zeros(MAX_FRAME_HEADER as nat),
        topic_header,
    )
    &&& ph@ == crate::bytes::overwrite(
        crate::greeting::zeros(MAX_FRAME_HEADER as nat),
        payload_header,
    )
}

/// The number of bytes that a PONG took.
pub open spec fn pong_length(r: Result<Option<usize>, ConnError>) -> Result<usize, ConnError> {
    match r {
        Ok(Some(n)) => Ok(n),
        Ok(None) => Ok(0),
        Err(e) => Err(e),
    }
}

/// Where the authenticator is not asked, its verdict does not matter.
pub proof fn lemma_verdict_matters_when_asked(v: SessionView, input: Seq<u8>, verdict: bool)
    ensures
        feed_step(v, input, verdict).asked == feed_step(v, input, !verdict).asked,
        feed_step(v, input, verdict).asked is None ==> feed_step(v, input, verdict) == feed_step(
            v,
            input,
            !verdict,
        ),
        feed_step(v, input, verdict).asked is Some ==> v.state == State::PlainHello && feed_step(
            v,
            input,
            verdict,
        ).after.state == hello_state(verdict) && (feed_step(v, input, verdict).result is Ok
            <==> verdict),
{
}

/// The same in terms of [`digest`].
pub proof fn lemma_digest_verdict(v: SessionView, input: Seq<u8>, verdict: bool)
    ensures
        digest(v, input, verdict).asked == digest(v, input, !verdict).asked,
        digest(v, input, verdict).asked is None ==> digest(v, input, verdict) == digest(
            v,
            input,
            !verdict,
        ),
        digest(v, input, verdict).asked is Some ==> v.state == State::PlainHello && digest(
            v,
            input,
            verdict,
        ).after.state == hello_state(verdict) && (digest(v, input, verdict).result is Ok
            <==> verdict),
{
    reveal(digest);
    lemma_verdict_matters_when_asked(v, input, verdict);
}

/// What the peer asks for with a frame.
enum Request<'a> {
    /// To have an entry added.
    Add(&'a [u8]),
    /// To have an entry removed.
    Remove(&'a [u8]),
    /// To have a PONG with this context.
    Echo(&'a [u8]),
    /// Nothing that we know of.
    Nothing,
}

/// What a request does to an established session.
spec fn apply_request(v: SessionView, request: Request<'_>) -> SessionView {
    match request {
        Request::Add(key) => with_entry(v, key@),
        Request::Remove(key) => without_entry(v, key@),
        Request::Echo(context) => SessionView { pong: Some(context@), ..v },
        Request::Nothing => v,
    }
}

/// Reads the request in a frame for a socket in `role`; `echoes` says whether
/// the peer's version has PING.
fn request_of<'a>(role: Role, echoes: bool, is_command: bool, body: &'a [u8]) -> (r: Request<'a>)
    ensures
        r matches Request::Echo(context) ==> context@.len() <= MAX_CONTEXT,
        forall|v: SessionView, more: bool|
            v.role == role && (peer_minor(v) >= 1) == echoes ==> #[trigger] apply_frame(
                v,
                crate::frame::Frame { more, is_command, body: body@ },
            ) == apply_request(v, r),
{
    if is_command {
        let (name, data) = match split_counted(body) {
            None => {
                return Request::Nothing;
            },
            Some(parts) => parts,
        };
        let subscribe: [u8; 9] = crate::command::SUBSCRIBE;
        let cancel: [u8; 6] = crate::command::CANCEL;
        let join: [u8; 4] = crate::command::JOIN;
        let leave: [u8; 5] = crate::command::LEAVE;
        let ping: [u8; 4] = crate::command::PING;
        match role {
            Role::Pub => {
                if same(name, subscribe.as_slice()) {
                    return Request::Add(data);
                }
                if same(name, cancel.as_slice()) {
                    return Request::Remove(data);
                }
            },
            Role::Radio => {
                if same(name, join.as_slice()) {
                    return Request::Add(data);
                }
                if same(name, leave.as_slice()) {
                    return Request::Remove(data);
                }
            },
        }
        if same(name, ping.as_slice()) && echoes {
            return Request::Echo(context_of(data));
        }
        Request::Nothing
    } else {
        if body.is_empty() || role != Role::Pub {
            return Request::Nothing;
        }
        let key: &[u8] = slice_subrange(body, 1, body.len());
        assert(key@ =~= body@.skip(1));
        if body[0] == 0x01 {
            Request::Add(key)
        } else if body[0] == 0x00 {
            Request::Remove(key)
        } else {
            Request::Nothing
        }
    }
}

/// The context of a PING.
fn context_of(data: &[u8]) -> (r: &[u8])
    ensures
        r@ == ping_context(data@),
{
    if data.len() <= 2 {
        let none: &[u8] = slice_subrange(data, 0, 0);
        assert(none@ =~= Seq::<u8>::empty());
        return none;
    }
    let end: usize = if data.len() - 2 <= MAX_CONTEXT { data.len() } else { 2 + MAX_CONTEXT };
    let context: &[u8] = slice_subrange(data, 2, end);
    assert(context@ =~= ping_context(data@));
    context
}

/// What the authenticator's verdict on a HELLO means: the state that follows, and
/// what `feed`, which has taken `consumed` bytes, returns.
pub fn hello_decided(verdict: bool, consumed: usize) -> (r: (State, Result<usize, ConnError>))
    ensures
        r == (hello_state(verdict), hello_result(verdict, consumed as nat)),
{
    if verdict {
        (State::PlainReady, Ok(consumed))
    } else {
        (State::Failed, Err(ConnError::PlainError(PlainError::AuthFailed)))
    }
}

} // verus!
