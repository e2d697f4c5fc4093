//! The core of a driver that is asked, step by step, what to do next.

use vstd::prelude::*;
use vstd::slice::slice_subrange;

use crate::auth::AuthCheck;
use crate::connection::{ConnError, Connection, State};
use crate::group_table::GroupTable;
use crate::io::rx::{RxBuf, RX_LEN, TX_LEN};
use crate::null::Role;
use crate::radio_connection::RadioConnection;
use crate::registry::Registry;
use crate::session;
use crate::session::{PublishHeaders, Session, SessionView, WriteOutcome};
use crate::sub_table::SubTable;

verus! {

/// What a driver is waiting for, or has in its transmit buffer.
#[derive(Debug, PartialEq, Eq, Structural, Clone, Copy)]
pub enum DriverPhase {
    /// The peer's greeting is awaited.
    AwaitingPeerGreeting,
    /// The rest of our greeting is being sent.
    SendingGreetingRest,
    /// Our READY is being sent.
    SendingReady,
    /// The peer's READY is awaited.
    AwaitingPeerReady,
    /// PLAIN: the peer's HELLO is awaited.
    AwaitingPlainHello,
    /// PLAIN: our WELCOME is being sent.
    SendingPlainWelcome,
    /// PLAIN: our READY is being sent.
    SendingPlainReady,
    /// PLAIN: the peer's READY is awaited.
    AwaitingPlainReady,
    /// The handshake is over.
    Established,
    /// The handshake has failed.
    Failed,
}

/// What a driver has to do next.
#[derive(Debug)]
pub enum Action<'a> {
    /// Read from the transport into the free part of the receive buffer.
    Read,
    /// Write these bytes to the transport, all of them.
    Write(&'a [u8]),
    /// The handshake is over.
    Established,
    /// Some bytes are left in the receive buffer for a later step.
    Parked,
}

/// The value of an [`Action`].
pub enum Todo {
    /// Read.
    Read,
    /// Write these bytes.
    Write(Seq<u8>),
    /// The handshake is over.
    Established,
    /// Some bytes are left.
    Parked,
}

impl<'a> View for Action<'a> {
    type V = Todo;

    open spec fn view(&self) -> Todo {
        match self {
            Action::Read => Todo::Read,
            Action::Write(bytes) => Todo::Write(bytes@),
            Action::Established => Todo::Established,
            Action::Parked => Todo::Parked,
        }
    }
}

/// The value of a step's result.
pub open spec fn todo_of(r: Result<Action<'_>, ConnError>) -> Result<Todo, ConnError> {
    match r {
        Ok(action) => Ok(action@),
        Err(e) => Err(e),
    }
}

/// The value of a driver core.
pub struct CoreView {
    /// The session with the peer.
    pub conn: SessionView,
    /// Received bytes that have not been fed yet.
    pub rx: Seq<u8>,
    /// Bytes that have to be written next.
    pub tx: Seq<u8>,
    /// The phase.
    pub phase: DriverPhase,
    /// The error that a failed driver reports.
    pub error: Option<ConnError>,
    /// The whole of our greeting had been written before the core got its session.
    pub whole: bool,
}

/// What feeding the received bytes comes to.
pub struct RunOutcome {
    /// The core afterwards, its received bytes still in place.
    pub after: CoreView,
    /// How many received bytes are done with, or the error.
    pub result: Result<nat, ConnError>,
    /// The credentials that the authenticator was asked about.
    pub asked: Option<(Seq<u8>, Seq<u8>)>,
}

/// A core that has the bytes of `w` to write.
pub open spec fn queued(c: CoreView, w: WriteOutcome, phase: DriverPhase) -> CoreView {
    CoreView { conn: w.after, tx: w.bytes, phase, ..c }
}

/// The phase of a core whose session has gone from `was` to its state: the wait
/// for HELLO begins when the greetings are over.
pub open spec fn hello_phase(c: CoreView, was: State) -> DriverPhase {
    if c.conn.state == State::PlainHello && was != State::PlainHello && was != State::PlainReady {
        DriverPhase::AwaitingPlainHello
    } else {
        c.phase
    }
}

/// READY is written as soon as the peer's greeting has been taken, before more
/// bytes are fed. A PUB driver that writes the rest of its greeting itself does
/// not do so. It goes on feeding, which fails with `WrongState` where there are
/// bytes left, and writes READY in the next step.
pub open spec fn prompt(c: CoreView) -> bool {
    c.whole || c.conn.role == Role::Radio
}

/// What has to be written after the session has taken some bytes, which took it
/// from `was` to its state: the rest of our greeting, our READY or our WELCOME
/// when the time for it has come, or a PONG.
pub open spec fn reply(c: CoreView, was: State) -> Option<CoreView> {
    let room = TX_LEN as nat;
    if session::rest_pending(c.conn) {
        Some(queued(c, session::write_rest_step(c.conn, room), DriverPhase::SendingGreetingRest))
    } else if c.conn.state == State::Ready && was != State::Ready && prompt(c) {
        Some(queued(c, session::write_ready_step(c.conn, room), DriverPhase::SendingReady))
    } else if c.conn.state == State::PlainReady && was != State::PlainReady {
        Some(
            queued(c, session::write_welcome_step(c.conn, room), DriverPhase::SendingPlainWelcome),
        )
    } else if c.conn.pong is Some {
        Some(queued(c, session::write_pong_step(c.conn, room), hello_phase(c, was)))
    } else {
        None
    }
}

/// A core whose session has failed with `e`: the peer is told with an ERROR.
pub open spec fn broken(c: CoreView, e: ConnError) -> CoreView {
    CoreView {
        error: Some(e),
        ..queued(c, session::write_error_step(c.conn, TX_LEN as nat), DriverPhase::Failed)
    }
}

/// What feeding the received bytes once comes to.
pub struct TurnOutcome {
    /// The core afterwards, its received bytes still in place.
    pub after: CoreView,
    /// How many received bytes are done with, and whether more can be fed; or the
    /// error.
    pub result: Result<(nat, bool), ConnError>,
    /// The credentials that the authenticator was asked about.
    pub asked: Option<(Seq<u8>, Seq<u8>)>,
}

/// Feeds the received bytes from `at` on to the session once. No more can be fed
/// where something has to be written or the session took none of them.
#[verifier::opaque]
pub open spec fn turn(c: CoreView, at: nat, verdict: bool) -> TurnOutcome {
    let fed = session::digest(c.conn, c.rx.skip(at as int), verdict);
    let next = CoreView { conn: fed.after, ..c };
    match fed.result {
        Err(e) => if fed.after.state == State::Failed {
            TurnOutcome { after: broken(next, e), result: Ok((at, false)), asked: fed.asked }
        } else {
            TurnOutcome { after: next, result: Err(e), asked: fed.asked }
        },
        Ok(n) => if n == 0 {
            TurnOutcome { after: next, result: Ok((at, false)), asked: fed.asked }
        } else {
            match reply(next, c.conn.state) {
                Some(core) => TurnOutcome {
                    after: core,
                    result: Ok((at + n as nat, false)),
                    asked: fed.asked,
                },
                None => TurnOutcome {
                    after: CoreView { phase: hello_phase(next, c.conn.state), ..next },
                    result: Ok((at + n as nat, true)),
                    asked: fed.asked,
                },
            }
        },
    }
}

/// Feeds the received bytes from `at` on to the session until no more can be fed.
#[verifier::opaque]
pub open spec fn run(c: CoreView, at: nat, verdict: bool) -> RunOutcome
    decreases
        (if at < c.rx.len() {
            c.rx.len() - at
        } else {
            0
        }),
{
    if at >= c.rx.len() {
        RunOutcome { after: c, result: Ok(at), asked: None }
    } else {
        proof {
            reveal(turn);
        }
        let once = turn(c, at, verdict);
        match once.result {
            Err(e) => RunOutcome { after: once.after, result: Err(e), asked: once.asked },
            Ok((n, more)) => if more {
                run(once.after, n, verdict)
            } else {
                RunOutcome { after: once.after, result: Ok(n), asked: once.asked }
            },
        }
    }
}

/// Where the authenticator is not asked, its verdict does not matter; where it
/// is, no more can be fed.
proof fn lemma_turn_verdict(c: CoreView, at: nat, verdict: bool)
    ensures
        turn(c, at, verdict).asked is None ==> turn(c, at, !verdict) == turn(c, at, verdict),
        turn(c, at, verdict).asked is Some ==> !(turn(c, at, verdict).result matches Ok((_, more))
            && more),
{
    reveal(turn);
    session::lemma_digest_verdict(c.conn, c.rx.skip(at as int), verdict);
}

/// What a step comes to.
pub struct StepOutcome {
    /// The core afterwards.
    pub after: CoreView,
    /// What to do next, or the error.
    pub result: Result<Todo, ConnError>,
    /// The credentials that the authenticator was asked about.
    pub asked: Option<(Seq<u8>, Seq<u8>)>,
}

/// The bytes that wait are to be written.
pub open spec fn emit(c: CoreView, asked: Option<(Seq<u8>, Seq<u8>)>) -> StepOutcome {
    StepOutcome {
        after: CoreView { tx: Seq::empty(), ..c },
        result: Ok(Todo::Write(c.tx)),
        asked,
    }
}

/// Our READY is to be written, if its time has come.
pub open spec fn emit_ready(c: CoreView, phase: DriverPhase) -> StepOutcome {
    let w = session::write_ready_step(c.conn, TX_LEN as nat);
    match w.result {
        Ok(_) => emit(queued(c, w, phase), None),
        Err(e) => StepOutcome { after: c, result: Err(e), asked: None },
    }
}

/// The phase that follows once the bytes of a phase have been written.
pub open spec fn settled(phase: DriverPhase) -> DriverPhase {
    match phase {
        DriverPhase::SendingGreetingRest => DriverPhase::AwaitingPeerGreeting,
        DriverPhase::SendingReady => DriverPhase::AwaitingPeerReady,
        DriverPhase::SendingPlainReady => DriverPhase::AwaitingPlainReady,
        _ => phase,
    }
}

/// The phase is one in which the peer's READY is awaited.
pub open spec fn awaits_ready(phase: DriverPhase) -> bool {
    phase == DriverPhase::AwaitingPeerReady || phase == DriverPhase::AwaitingPlainReady
}

/// The handshake is over.
pub open spec fn done(c: CoreView, asked: Option<(Seq<u8>, Seq<u8>)>) -> StepOutcome {
    StepOutcome {
        after: CoreView { phase: DriverPhase::Established, ..c },
        result: Ok(Todo::Established),
        asked,
    }
}

/// A step in which received bytes are fed to the session.
#[verifier::opaque]
pub open spec fn feed_some(c: CoreView, verdict: bool) -> StepOutcome {
    if awaits_ready(c.phase) && c.conn.state == State::Established {
        done(c, None)
    } else if c.rx.len() == 0 {
        StepOutcome { after: c, result: Ok(Todo::Read), asked: None }
    } else {
        let ran = run(c, 0, verdict);
        match ran.result {
            Err(e) => StepOutcome { after: ran.after, result: Err(e), asked: ran.asked },
            Ok(n) => {
                let left = CoreView { rx: ran.after.rx.skip(n as int), ..ran.after };
                if left.tx.len() > 0 {
                    emit(left, ran.asked)
                } else if awaits_ready(c.phase) && left.conn.state == State::Established {
                    done(left, ran.asked)
                } else if left.rx.len() > 0 {
                    StepOutcome { after: left, result: Ok(Todo::Parked), asked: ran.asked }
                } else {
                    StepOutcome { after: left, result: Ok(Todo::Read), asked: ran.asked }
                }
            },
        }
    }
}

/// What a step comes to: waiting bytes are written first; then the phase that
/// they stood for moves on; then received bytes are fed.
pub open spec fn step_of(c: CoreView, verdict: bool) -> StepOutcome {
    if c.tx.len() > 0 {
        emit(c, None)
    } else if c.phase == DriverPhase::SendingPlainWelcome {
        emit_ready(c, DriverPhase::SendingPlainReady)
    } else if c.phase == DriverPhase::Failed {
        StepOutcome {
            after: CoreView { error: None, ..c },
            result: Err(
                match c.error {
                    Some(e) => e,
                    None => ConnError::WrongState,
                },
            ),
            asked: None,
        }
    } else {
        let moved = CoreView { phase: settled(c.phase), ..c };
        if moved.phase == DriverPhase::AwaitingPeerGreeting && c.conn.state == State::Ready {
            emit_ready(moved, DriverPhase::SendingReady)
        } else if moved.phase == DriverPhase::AwaitingPeerGreeting && c.conn.state
            == State::PlainHello {
            feed_some(CoreView { phase: DriverPhase::AwaitingPlainHello, ..c }, verdict)
        } else {
            feed_some(moved, verdict)
        }
    }
}

/// An [`Action`] whose bytes are the first ones of the transmit buffer.
#[derive(Debug, PartialEq, Eq, Structural, Clone, Copy)]
enum Next {
    Read,
    Write(usize),
    Established,
    Parked,
}

/// The core of a driver, with the session that it drives.
pub struct Core<R: Registry, const FRAME_CAP: usize, A: AuthCheck> {
    conn: Session<R, FRAME_CAP, A>,
    rx: RxBuf,
    tx_buf: [u8; TX_LEN],
    tx_len: usize,
    phase: DriverPhase,
    error: Option<ConnError>,
    whole: bool,
}

/// The core of a driver for a PUB connection.
pub type DriverCore<
    const SUB_CAP: usize,
    const PREFIX_CAP: usize,
    const FRAME_CAP: usize,
    A = (),
> = Core<SubTable<SUB_CAP, PREFIX_CAP>, FRAME_CAP, A>;

/// The core of a driver for a RADIO connection.
pub type RadioDriverCore<
    const GROUP_CAP: usize,
    const GROUP_LEN_CAP: usize,
    const FRAME_CAP: usize,
> = Core<GroupTable<GROUP_CAP, GROUP_LEN_CAP>, FRAME_CAP, ()>;

impl<R: Registry, const FRAME_CAP: usize, A: AuthCheck> View for Core<R, FRAME_CAP, A> {
    type V = CoreView;

    closed spec fn view(&self) -> CoreView {
        CoreView {
            conn: self.conn@,
            rx: self.rx@,
            tx: self.tx_buf@.take(self.tx_len as int),
            phase: self.phase,
            error: self.error,
            whole: self.whole,
        }
    }
}

/// A core that has just been given its session.
pub open spec fn core_start(conn: SessionView) -> CoreView {
    CoreView {
        conn,
        rx: Seq::empty(),
        tx: Seq::empty(),
        phase: DriverPhase::AwaitingPeerGreeting,
        error: None,
        whole: conn.greeting_sent,
    }
}

impl<R: Registry, const FRAME_CAP: usize, A: AuthCheck> Core<R, FRAME_CAP, A> {
    /// The session is well formed, and the buffers are not overfull.
    pub closed spec fn wf(&self) -> bool {
        &&& self.conn.wf()
        &&& self.rx.wf()
        &&& self.tx_len <= TX_LEN
    }

    /// The free part of the receive buffer.
    pub closed spec fn slot(&self) -> Seq<u8> {
        self.rx.free()
    }

    /// Who decides about credentials.
    pub closed spec fn authenticator(&self) -> A {
        self.conn.authenticator()
    }

    /// What holds of every core that was made and used through its methods.
    pub proof fn law_consistent(&self)
        requires
            self.wf(),
        ensures
            session::consistent(self@.conn),
            self@.rx.len() + self.slot().len() == RX_LEN,
            self@.tx.len() <= TX_LEN,
    {
        self.conn.law_consistent();
        self.rx.lemma_size();
    }

    /// `before`, after a step, became `after` and returned `r`, where the
    /// authenticator, if it was asked, gave `verdict`.
    pub open spec fn stepped(
        before: Self,
        verdict: bool,
        r: Result<Action<'_>, ConnError>,
        after: Self,
    ) -> bool {
        let outcome = step_of(before@, verdict);
        &&& after@ == outcome.after
        &&& todo_of(r) == outcome.result
        &&& after.authenticator() == before.authenticator()
        &&& outcome.asked matches Some((username, password))
            ==> before.authenticator().may_answer(username, password, verdict)
    }

    /// `before`, after its received bytes were fed, became `after` and returned `r`.
    spec fn ran(before: Self, verdict: bool, r: Result<usize, ConnError>, after: Self) -> bool {
        let outcome = run(before@, 0, verdict);
        &&& after@ == outcome.after
        &&& after@.rx == before@.rx
        &&& match r {
            Ok(n) => outcome.result == Ok::<nat, ConnError>(n as nat) && n <= before@.rx.len(),
            Err(e) => outcome.result == Err::<nat, ConnError>(e),
        }
        &&& after.authenticator() == before.authenticator()
        &&& outcome.asked matches Some((username, password))
            ==> before.authenticator().may_answer(username, password, verdict)
    }

    fn begin(conn: Session<R, FRAME_CAP, A>) -> (r: Self)
        requires
            conn.wf(),
        ensures
            r.wf(),
            r@ == core_start(conn@),
            r.authenticator() == conn.authenticator(),
    {
        let whole: bool = conn.greeting_is_sent();
        let r = Core {
            conn,
            rx: RxBuf::new(),
            tx_buf: [0u8; TX_LEN],
            tx_len: 0,
            phase: DriverPhase::AwaitingPeerGreeting,
            error: None,
            whole,
        };
        assert(r@.tx =~= Seq::<u8>::empty());
        r
    }

    /// The free part of the receive buffer, to be read into.
    pub fn rx_slot(&mut self) -> (r: &mut [u8])
        requires
            old(self).wf(),
        ensures
            r@ == old(self).slot(),
            final(self).slot() == final(r)@,
            final(self).wf(),
            final(self)@ == old(self)@,
            final(self).authenticator() == old(self).authenticator(),
    {
        self.rx.slot()
    }

    /// Takes note that `n` bytes have been read into the receive buffer.
    pub fn advance_rx(&mut self, n: usize)
        requires
            old(self).wf(),
            n <= old(self).slot().len(),
        ensures
            final(self).wf(),
            final(self)@ == (CoreView {
                rx: old(self)@.rx + old(self).slot().take(n as int),
                ..old(self)@
            }),
            final(self).authenticator() == old(self).authenticator(),
    {
        self.rx.advance(n);
    }

    /// Returns `true` once the handshake is over.
    pub fn is_established(&self) -> (r: bool)
        ensures
            r == (self@.conn.state == State::Established),
    {
        *self.conn.state() == State::Established
    }

    /// The session that is driven.
    pub fn conn(&self) -> (r: &Session<R, FRAME_CAP, A>)
        requires
            self.wf(),
        ensures
            r.wf(),
            r@ == self@.conn,
            r.authenticator() == self.authenticator(),
    {
        &self.conn
    }

    /// Encode the two frame headers for a publish, if the peer has asked for the topic.
    ///
    /// # Errors
    /// Returns `ConnError::WrongState` if not in `Established` state.
    pub fn publish_headers(&mut self, topic: &[u8], payload: &[u8]) -> (r: Result<
        Option<PublishHeaders>,
        ConnError,
    >)
        requires
            old(self).wf(),
        ensures
            final(self).wf(),
            final(self)@ == old(self)@,
            final(self).authenticator() == old(self).authenticator(),
            session::headers_result(old(self)@.conn, topic@, payload@, r),
    {
        self.conn.publish_headers(topic, payload)
    }

    /// Decides what to do next.
    ///
    /// # Errors
    /// Returns what the session failed with, once the peer has been told, and
    /// every error that does not fail the session.
    pub fn step(&mut self) -> (r: Result<Action<'_>, ConnError>)
        requires
            old(self).wf(),
        ensures
            final(self).wf(),
            exists|verdict: bool| #[trigger] Self::stepped(*old(self), verdict, r, *final(self)),
    {
        let ghost start = *self;
        let next: Result<Next, ConnError> = self.decide();
        let ghost verdict = choose|verdict: bool|
            #[trigger] Self::decided(start, verdict, next, *self);
        let r: Result<Action<'_>, ConnError> = match next {
            Ok(Next::Read) => Ok(Action::Read),
            Ok(Next::Write(n)) => {
                let bytes: &[u8] = slice_subrange(self.tx_buf.as_slice(), 0, n);
                assert(bytes@ =~= self.tx_buf@.take(n as int));
                Ok(Action::Write(bytes))
            },
            Ok(Next::Established) => Ok(Action::Established),
            Ok(Next::Parked) => Ok(Action::Parked),
            Err(e) => Err(e),
        };
        assert(Self::stepped(start, verdict, r, *self));
        r
    }

    /// The value of a decision: the bytes to be written stand at the start of the
    /// transmit buffer.
    spec fn next_todo(&self, r: Result<Next, ConnError>) -> Result<Todo, ConnError> {
        match r {
            Ok(Next::Read) => Ok(Todo::Read),
            Ok(Next::Write(n)) => Ok(Todo::Write(self.tx_buf@.take(n as int))),
            Ok(Next::Established) => Ok(Todo::Established),
            Ok(Next::Parked) => Ok(Todo::Parked),
            Err(e) => Err(e),
        }
    }

    /// As [`Core::stepped`], with the bytes still in the transmit buffer.
    spec fn decided(before: Self, verdict: bool, r: Result<Next, ConnError>, after: Self) -> bool {
        let outcome = step_of(before@, verdict);
        &&& after@ == outcome.after
        &&& after.next_todo(r) == outcome.result
        &&& r matches Ok(Next::Write(n)) ==> n <= TX_LEN
        &&& after.authenticator() == before.authenticator()
        &&& outcome.asked matches Some((username, password))
            ==> before.authenticator().may_answer(username, password, verdict)
    }

    fn decide(&mut self) -> (r: Result<Next, ConnError>)
        requires
            old(self).wf(),
        ensures
            final(self).wf(),
            exists|verdict: bool| #[trigger] Self::decided(*old(self), verdict, r, *final(self)),
    {
        let ghost start = *self;
        assert(self@.tx.len() == self.tx_len);
        if self.tx_len > 0 {
            let r: Result<Next, ConnError> = self.take_tx();
            assert(Self::decided(start, false, r, *self));
            return r;
        }
        match self.phase {
            DriverPhase::SendingGreetingRest => {
                self.phase = DriverPhase::AwaitingPeerGreeting;
            },
            DriverPhase::SendingReady => {
                self.phase = DriverPhase::AwaitingPeerReady;
            },
            DriverPhase::SendingPlainWelcome => {
                let r: Result<Next, ConnError> = self.send_ready(DriverPhase::SendingPlainReady);
                assert(Self::decided(start, false, r, *self));
                return r;
            },
            DriverPhase::SendingPlainReady => {
                self.phase = DriverPhase::AwaitingPlainReady;
            },
            DriverPhase::Failed => {
                let e: ConnError = match self.error {
                    Some(e) => e,
                    None => ConnError::WrongState,
                };
                self.error = None;
                let r: Result<Next, ConnError> = Err(e);
                assert(Self::decided(start, false, r, *self));
                return r;
            },
            _ => {},
        }
        let state: State = *self.conn.state();
        if self.phase == DriverPhase::AwaitingPeerGreeting {
            if state == State::Ready {
                let r: Result<Next, ConnError> = self.send_ready(DriverPhase::SendingReady);
                assert(Self::decided(start, false, r, *self));
                return r;
            }
            if state == State::PlainHello {
                self.phase = DriverPhase::AwaitingPlainHello;
            }
        }
        let ghost moved = *self;
        let r: Result<Next, ConnError> = self.feed_some();
        let ghost verdict = choose|verdict: bool| #[trigger] Self::fed_some(moved, verdict, r, *self);
        assert(Self::decided(start, verdict, r, *self));
        r
    }

    /// As [`Core::decided`], for a step in which received bytes are fed.
    spec fn fed_some(before: Self, verdict: bool, r: Result<Next, ConnError>, after: Self) -> bool {
        let outcome = feed_some(before@, verdict);
        &&& after@ == outcome.after
        &&& after.next_todo(r) == outcome.result
        &&& r matches Ok(Next::Write(n)) ==> n <= TX_LEN
        &&& after.authenticator() == before.authenticator()
        &&& outcome.asked matches Some((username, password))
            ==> before.authenticator().may_answer(username, password, verdict)
    }

    fn feed_some(&mut self) -> (r: Result<Next, ConnError>)
        requires
            old(self).wf(),
            old(self)@.tx.len() == 0,
        ensures
            final(self).wf(),
            exists|verdict: bool| #[trigger] Self::fed_some(*old(self), verdict, r, *final(self)),
    {
        reveal(feed_some);
        let ghost start = *self;
        let awaits: bool = self.phase == DriverPhase::AwaitingPeerReady || self.phase
            == DriverPhase::AwaitingPlainReady;
        if awaits && *self.conn.state() == State::Established {
            self.phase = DriverPhase::Established;
            let r: Result<Next, ConnError> = Ok(Next::Established);
            assert(Self::fed_some(start, false, r, *self));
            return r;
        }
        if self.rx.len() == 0 {
            let r: Result<Next, ConnError> = Ok(Next::Read);
            assert(Self::fed_some(start, false, r, *self));
            return r;
        }
        let fed: Result<usize, ConnError> = self.feed_until_transition();
        let ghost verdict = choose|verdict: bool| #[trigger] Self::ran(start, verdict, fed, *self);
        let consumed: usize = match fed {
            Ok(n) => n,
            Err(e) => {
                let r: Result<Next, ConnError> = Err(e);
                assert(Self::fed_some(start, verdict, r, *self));
                return r;
            },
        };
        self.rx.shift(consumed);
        assert(self@.tx.len() == self.tx_len);
        if self.tx_len > 0 {
            let r: Result<Next, ConnError> = self.take_tx();
            assert(Self::fed_some(start, verdict, r, *self));
            return r;
        }
        if awaits && *self.conn.state() == State::Established {
            self.phase = DriverPhase::Established;
            let r: Result<Next, ConnError> = Ok(Next::Established);
            assert(Self::fed_some(start, verdict, r, *self));
            return r;
        }
        let r: Result<Next, ConnError> = if self.rx.len() > 0 {
            Ok(Next::Parked)
        } else {
            Ok(Next::Read)
        };
        assert(Self::fed_some(start, verdict, r, *self));
        r
    }

    /// The bytes that wait are to be written.
    fn take_tx(&mut self) -> (r: Result<Next, ConnError>)
        requires
            old(self).wf(),
        ensures
            final(self).wf(),
            final(self)@ == (CoreView { tx: Seq::empty(), ..old(self)@ }),
            final(self).next_todo(r) == Ok::<Todo, ConnError>(Todo::Write(old(self)@.tx)),
            r matches Ok(Next::Write(n)) && n <= TX_LEN,
            final(self).authenticator() == old(self).authenticator(),
    {
        let n: usize = self.tx_len;
        self.tx_len = 0;
        assert(self.tx_buf@.take(0) =~= Seq::<u8>::empty());
        Ok(Next::Write(n))
    }

    /// Our READY is to be written.
    fn send_ready(&mut self, phase: DriverPhase) -> (r: Result<Next, ConnError>)
        requires
            old(self).wf(),
            old(self)@.tx.len() == 0,
        ensures
            final(self).wf(),
            final(self)@ == emit_ready(old(self)@, phase).after,
            final(self).next_todo(r) == emit_ready(old(self)@, phase).result,
            r matches Ok(Next::Write(n)) ==> n <= TX_LEN,
            final(self).authenticator() == old(self).authenticator(),
    {
        assert(self@.tx.len() == self.tx_len);
        match self.conn.write_ready(&mut self.tx_buf) {
            Ok(n) => {
                self.tx_len = n;
                self.phase = phase;
                assert(self@.tx =~= session::write_ready_step(old(self)@.conn, 64).bytes);
                self.take_tx()
            },
            Err(e) => {
                assert(self@.tx =~= old(self)@.tx);
                Err(e)
            },
        }
    }

    /// Writes what is due after the session has taken some bytes, which took it
    /// from `was` to its state. Returns `false` where nothing is.
    fn answer(&mut self, was: State) -> (r: bool)
        requires
            old(self).wf(),
            old(self)@.tx.len() == 0,
            old(self)@.conn.state == State::Ready && was != State::Ready
                ==> !old(self)@.conn.ready_sent,
            old(self)@.conn.state == State::PlainReady && was != State::PlainReady
                ==> !old(self)@.conn.welcome_sent,
        ensures
            final(self).wf(),
            final(self).authenticator() == old(self).authenticator(),
            match reply(old(self)@, was) {
                Some(core) => r && final(self)@ == core,
                None => !r && final(self).tx_len == 0 && final(self)@ == (CoreView {
                    phase: hello_phase(old(self)@, was),
                    ..old(self)@
                }),
            },
    {
        let ghost c = self@;
        proof {
            assert(self@.tx.len() == self.tx_len);
            self.conn.law_consistent();
        }
        if self.conn.greeting_rest_pending() {
            if let Ok(n) = self.conn.write_greeting_rest(&mut self.tx_buf) {
                self.tx_len = n;
            }
            self.phase = DriverPhase::SendingGreetingRest;
            assert(self@.tx =~= session::write_rest_step(c.conn, 64).bytes);
            return true;
        }
        let state: State = *self.conn.state();
        let prompt: bool = self.whole || R::socket_role() == Role::Radio;
        if state == State::Ready && was != State::Ready && prompt {
            if let Ok(n) = self.conn.write_ready(&mut self.tx_buf) {
                self.tx_len = n;
            }
            self.phase = DriverPhase::SendingReady;
            assert(self@.tx =~= session::write_ready_step(c.conn, 64).bytes);
            return true;
        }
        if state == State::PlainReady && was != State::PlainReady {
            if let Ok(n) = self.conn.write_welcome(&mut self.tx_buf) {
                self.tx_len = n;
            }
            self.phase = DriverPhase::SendingPlainWelcome;
            assert(self@.tx =~= session::write_welcome_step(c.conn, 64).bytes);
            return true;
        }
        if state == State::PlainHello && was != State::PlainHello && was != State::PlainReady {
            self.phase = DriverPhase::AwaitingPlainHello;
        }
        match self.conn.write_pong(&mut self.tx_buf) {
            Ok(Some(n)) => {
                self.tx_len = n;
                assert(self@.tx =~= session::write_pong_step(c.conn, 64).bytes);
                true
            },
            _ => {
                assert(self@.tx =~= c.tx);
                false
            },
        }
    }

    /// Feeds received bytes to the session until something has to be written, they
    /// are used up, or the session takes none of them. Returns how many of them
    /// are done with.
    fn feed_until_transition(&mut self) -> (r: Result<usize, ConnError>)
        requires
            old(self).wf(),
            old(self)@.tx.len() == 0,
        ensures
            final(self).wf(),
            exists|verdict: bool| #[trigger] Self::ran(*old(self), verdict, r, *final(self)),
    {
        let ghost start = *self;
        let mut total: usize = 0;
        assert(self@.tx.len() == self.tx_len);
        while total < self.rx.len()
            invariant
                self.wf(),
                start == *old(self),
                self@.tx.len() == 0,
                self@.rx == start@.rx,
                self.authenticator() == start.authenticator(),
                total <= self@.rx.len(),
                forall|v: bool| #[trigger] run(start@, 0, v) == run(self@, total as nat, v),
            decreases self@.rx.len() - total,
        {
            reveal(run);
            let ghost before = *self;
            let once: Result<(usize, bool), ConnError> = self.feed_once(total);
            let ghost verdict = choose|verdict: bool|
                #[trigger] Self::turned(before, total as nat, verdict, once, *self);
            proof {
                lemma_turn_verdict(before@, total as nat, verdict);
                assert(run(start@, 0, verdict) == run(before@, total as nat, verdict));
            }
            match once {
                Ok((n, true)) => {
                    assert forall|v: bool| #[trigger] run(start@, 0, v) == run(
                        self@,
                        n as nat,
                        v,
                    ) by {
                        assert(run(start@, 0, v) == run(before@, total as nat, v));
                        assert(turn(before@, total as nat, v) == turn(
                            before@,
                            total as nat,
                            verdict,
                        )) by {
                            assert(v == verdict || v == !verdict);
                        }
                    }
                    total = n;
                },
                Ok((n, false)) => {
                    assert(Self::ran(start, verdict, Ok(n), *self));
                    return Ok(n);
                },
                Err(e) => {
                    assert(Self::ran(start, verdict, Err(e), *self));
                    return Err(e);
                },
            }
        }
        reveal(run);
        assert(run(start@, 0, false) == run(self@, total as nat, false));
        assert(Self::ran(start, false, Ok(total), *self));
        Ok(total)
    }

    /// `before`, after its received bytes were fed once from `at` on, became
    /// `after` and returned `r`.
    spec fn turned(
        before: Self,
        at: nat,
        verdict: bool,
        r: Result<(usize, bool), ConnError>,
        after: Self,
    ) -> bool {
        let outcome = turn(before@, at, verdict);
        &&& after@ == outcome.after
        &&& after@.rx == before@.rx
        &&& match r {
            Ok((n, more)) => {
                &&& outcome.result == Ok::<(nat, bool), ConnError>((n as nat, more))
                &&& n <= before@.rx.len()
                &&& more ==> n > at && after@.tx.len() == 0
            },
            Err(e) => outcome.result == Err::<(nat, bool), ConnError>(e),
        }
        &&& after.authenticator() == before.authenticator()
        &&& outcome.asked matches Some((username, password))
            ==> before.authenticator().may_answer(username, password, verdict)
    }

    /// Feeds received bytes to the session once, from `at` on. Returns how many of
    /// them are done with, and whether more can be fed.
    #[verifier::rlimit(40)]
    fn feed_once(&mut self, at: usize) -> (r: Result<(usize, bool), ConnError>)
        requires
            old(self).wf(),
            old(self)@.tx.len() == 0,
            at < old(self)@.rx.len(),
        ensures
            final(self).wf(),
            exists|verdict: bool|
                #[trigger] Self::turned(*old(self), at as nat, verdict, r, *final(self)),
    {
        reveal(turn);
        let ghost start = *self;
        let was: State = *self.conn.state();
        let input: &[u8] = self.rx.from(at);
        let fed: Result<usize, ConnError> = self.conn.take_in(input);
        let ghost verdict = choose|verdict: bool|
            #[trigger] Session::digested(start.conn, input@, verdict, fed, self.conn);
        let ghost next = self@;
        proof {
            start.conn.law_consistent();
            start.rx.lemma_size();
            crate::laws::lemma_digest(start@.conn, input@, verdict);
            assert(next == (CoreView { conn: self.conn@, ..start@ }));
        }
        match fed {
            Ok(consumed) => {
                if consumed == 0 {
                    assert(Self::turned(start, at as nat, verdict, Ok((at, false)), *self));
                    return Ok((at, false));
                }
                let more: bool = !self.answer(was);
                let n: usize = at + consumed;
                assert(Self::turned(start, at as nat, verdict, Ok((n, more)), *self));
                Ok((n, more))
            },
            Err(e) => {
                if *self.conn.state() == State::Failed {
                    if let Ok(n) = self.conn.write_error(&mut self.tx_buf) {
                        self.tx_len = n;
                    }
                    self.phase = DriverPhase::Failed;
                    self.error = Some(e);
                    assert(self@.tx =~= session::write_error_step(next.conn, 64).bytes);
                    assert(Self::turned(start, at as nat, verdict, Ok((at, false)), *self));
                    return Ok((at, false));
                }
                assert(Self::turned(start, at as nat, verdict, Err(e), *self));
                Err(e)
            },
        }
    }
}

impl<
    const SUB_CAP: usize,
    const PREFIX_CAP: usize,
    const FRAME_CAP: usize,
    A: AuthCheck,
> DriverCore<SUB_CAP, PREFIX_CAP, FRAME_CAP, A> {
    /// New core for a NULL-mechanism connection.
    pub fn new_null(conn: Connection<SUB_CAP, PREFIX_CAP, FRAME_CAP, A>) -> (r: Self)
        requires
            conn.wf(),
        ensures
            r.wf(),
            r@ == core_start(conn@),
            r.authenticator() == conn.authenticator(),
    {
        Core::begin(conn)
    }

    /// New core for a PLAIN-mechanism connection (server role).
    ///
    /// Starts in [`DriverPhase::AwaitingPeerGreeting`] like NULL, and switches to
    /// [`DriverPhase::AwaitingPlainHello`] when the greetings are over.
    pub fn new_plain(conn: Connection<SUB_CAP, PREFIX_CAP, FRAME_CAP, A>) -> (r: Self)
        requires
            conn.wf(),
        ensures
            r.wf(),
            r@ == core_start(conn@),
            r.authenticator() == conn.authenticator(),
    {
        Core::begin(conn)
    }
}

impl<
    const GROUP_CAP: usize,
    const GROUP_LEN_CAP: usize,
    const FRAME_CAP: usize,
> RadioDriverCore<GROUP_CAP, GROUP_LEN_CAP, FRAME_CAP> {
    /// New core for a RADIO connection.
    pub fn new(conn: RadioConnection<GROUP_CAP, GROUP_LEN_CAP, FRAME_CAP>) -> (r: Self)
        requires
            conn.wf(),
        ensures
            r.wf(),
            r@ == core_start(conn@),
    {
        Core::begin(conn)
    }
}

} // verus!
