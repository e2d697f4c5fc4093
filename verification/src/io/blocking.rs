//! The core of a driver that blocks on its transport, one poll at a time.
//!
//! A poll begins with [`BlockingCore::poll`]. While the core demands a write or a
//! read, the driver does it and goes on with [`BlockingCore::wrote`] or
//! [`BlockingCore::received`]. A driver whose transport fails gives the poll up;
//! the next one begins anew, with the received bytes as they were.

use vstd::prelude::*;
use vstd::slice::slice_subrange;

use crate::auth::AuthCheck;
use crate::connection::{ConnError, Connection, State};
use crate::group_table::GroupTable;
use crate::io::rx::{RxBuf, RX_LEN, TX_LEN};
use crate::radio_connection::RadioConnection;
use crate::registry::Registry;
use crate::session;
use crate::session::{PublishHeaders, Session, SessionView, WriteOutcome};
use crate::sub_table::SubTable;

verus! {

/// What a driver has to do to go on with a poll.
#[derive(Debug)]
pub enum Demand<'a> {
    /// Read at least one byte into the free part of the receive buffer.
    Read,
    /// Write these bytes to the transport, all of them.
    Write(&'a [u8]),
    /// Try to write these bytes, and go on whether or not that succeeds.
    Farewell(&'a [u8]),
    /// Nothing: the poll is over. The connection is established, or not.
    Done(bool),
}

/// The value of a [`Demand`].
pub enum Ask {
    /// Read.
    Read,
    /// Write these bytes.
    Write(Seq<u8>),
    /// Try to write these bytes.
    Farewell(Seq<u8>),
    /// The poll is over.
    Done(bool),
}

impl<'a> View for Demand<'a> {
    type V = Ask;

    open spec fn view(&self) -> Ask {
        match self {
            Demand::Read => Ask::Read,
            Demand::Write(bytes) => Ask::Write(bytes@),
            Demand::Farewell(bytes) => Ask::Farewell(bytes@),
            Demand::Done(established) => Ask::Done(*established),
        }
    }
}

/// The value of what a core returns.
pub open spec fn ask_of(r: Result<Demand<'_>, ConnError>) -> Result<Ask, ConnError> {
    match r {
        Ok(demand) => Ok(demand@),
        Err(e) => Err(e),
    }
}

/// What the bytes that were demanded to be written last were, and what follows.
#[derive(Debug, PartialEq, Eq, Structural, Clone, Copy)]
pub enum Stage {
    /// None: no poll is under way, or bytes are to be read.
    Idle,
    /// Our READY, at the start of a poll, which is then over.
    ReadyFirst,
    /// The rest of our greeting; more received bytes can be fed, or not.
    Rest(bool),
    /// Our WELCOME, which our READY follows.
    Welcome,
    /// Our READY, after which this poll feeds nothing more.
    Ready,
    /// A PONG; more received bytes can be fed, or not.
    Pong(bool),
    /// An ERROR, after which the poll fails.
    Error(ConnError),
}

/// The value of a blocking core.
pub struct BlockingView {
    /// The session with the peer.
    pub conn: SessionView,
    /// Received bytes.
    pub rx: Seq<u8>,
    /// How many of them this poll has fed.
    pub fed: nat,
    /// Where the poll stands.
    pub stage: Stage,
}

/// What going on with a poll comes to.
pub struct PollOutcome {
    /// The core afterwards.
    pub after: BlockingView,
    /// What to do next, or the error.
    pub result: Result<Ask, ConnError>,
    /// The credentials that the authenticator was asked about.
    pub asked: Option<(Seq<u8>, Seq<u8>)>,
}

/// The bytes of `w` have to be written.
pub open spec fn ask_write(c: BlockingView, w: WriteOutcome, stage: Stage) -> PollOutcome {
    PollOutcome {
        after: BlockingView { conn: w.after, stage, ..c },
        result: Ok(Ask::Write(w.bytes)),
        asked: None,
    }
}

/// The poll is over: what was fed is dropped.
pub open spec fn finish(c: BlockingView) -> PollOutcome {
    PollOutcome {
        after: BlockingView {
            rx: c.rx.skip(c.fed as int),
            fed: 0,
            stage: Stage::Idle,
            ..c
        },
        result: Ok(Ask::Done(c.conn.state == State::Established)),
        asked: None,
    }
}

/// What follows a part of draining the receive buffer.
pub enum Part {
    /// The driver has something to do, or the poll is over.
    Stop(PollOutcome),
    /// More received bytes can be fed.
    More(BlockingView),
}

/// What follows once the rest of our greeting, if it was due, has been written:
/// our READY, when the greetings are over only now; our WELCOME, when the peer's
/// credentials have been accepted only now; a PONG, when one is pending; or the
/// bytes that are left.
pub open spec fn settle(c: BlockingView, was: State, more: bool) -> Part {
    let room = TX_LEN as nat;
    if c.conn.state == State::Ready && was != State::Ready {
        Part::Stop(ask_write(c, session::write_ready_step(c.conn, room), Stage::Ready))
    } else if c.conn.state == State::PlainReady && was != State::PlainReady {
        Part::Stop(ask_write(c, session::write_welcome_step(c.conn, room), Stage::Welcome))
    } else if c.conn.pong is Some {
        Part::Stop(ask_write(c, session::write_pong_step(c.conn, room), Stage::Pong(more)))
    } else if more {
        Part::More(c)
    } else {
        Part::Stop(finish(c))
    }
}

/// The same, where the authenticator has been asked on the way.
pub open spec fn having_asked(part: Part, asked: Option<(Seq<u8>, Seq<u8>)>) -> Part {
    match part {
        Part::Stop(outcome) => Part::Stop(PollOutcome { asked, ..outcome }),
        Part::More(next) => Part::More(next),
    }
}

/// Feeds the received bytes that have not been fed to the session once.
#[verifier::opaque]
pub open spec fn drain_once(c: BlockingView, verdict: bool) -> Part {
    let room = TX_LEN as nat;
    let outcome = session::digest(c.conn, c.rx.skip(c.fed as int), verdict);
    match outcome.result {
        Err(e) => {
            let next = BlockingView { conn: outcome.after, stage: Stage::Idle, ..c };
            if outcome.after.state == State::Failed {
                Part::Stop(
                    PollOutcome {
                        after: BlockingView { stage: Stage::Error(e), ..next },
                        result: Ok(
                            Ask::Farewell(session::write_error_step(next.conn, room).bytes),
                        ),
                        asked: outcome.asked,
                    },
                )
            } else {
                Part::Stop(PollOutcome { after: next, result: Err(e), asked: outcome.asked })
            }
        },
        Ok(n) => {
            let next = BlockingView {
                conn: outcome.after,
                fed: c.fed + n as nat,
                stage: Stage::Idle,
                ..c
            };
            let more = n > 0;
            if session::rest_pending(next.conn) {
                Part::Stop(
                    ask_write(
                        next,
                        session::write_rest_step(next.conn, room),
                        Stage::Rest(more),
                    ),
                )
            } else {
                having_asked(settle(next, c.conn.state, more), outcome.asked)
            }
        },
    }
}

/// Where the authenticator is not asked, its verdict does not matter; where it
/// is, draining stops.
proof fn lemma_drain_once_verdict(c: BlockingView, verdict: bool)
    ensures
        match drain_once(c, verdict) {
            Part::Stop(outcome) => outcome.asked is None ==> drain_once(c, !verdict) == drain_once(
                c,
                verdict,
            ),
            Part::More(_) => drain_once(c, !verdict) == drain_once(c, verdict),
        },
{
    reveal(drain_once);
    let input = c.rx.skip(c.fed as int);
    session::lemma_digest_verdict(c.conn, input, verdict);
    session::lemma_digest_verdict(c.conn, input, !verdict);
}

/// Feeds the received bytes to the session until the driver has something to do
/// or the poll is over.
#[verifier::opaque]
pub open spec fn drain(c: BlockingView, verdict: bool) -> PollOutcome
    decreases
        (if c.fed < c.rx.len() {
            c.rx.len() - c.fed
        } else {
            0
        }),
{
    if c.fed >= c.rx.len() {
        finish(c)
    } else {
        proof {
            reveal(drain_once);
        }
        match drain_once(c, verdict) {
            Part::Stop(outcome) => outcome,
            Part::More(next) => drain(next, verdict),
        }
    }
}

/// What beginning a poll comes to. Our READY goes out first, in a poll of its
/// own; then received bytes are fed; without any, some have to be read.
pub open spec fn poll_of(c: BlockingView, verdict: bool) -> PollOutcome {
    let c = BlockingView { fed: 0, stage: Stage::Idle, ..c };
    let ready = session::write_ready_step(c.conn, TX_LEN as nat);
    if ready.result is Ok {
        ask_write(c, ready, Stage::ReadyFirst)
    } else if c.rx.len() > 0 {
        drain(c, verdict)
    } else {
        PollOutcome { after: c, result: Ok(Ask::Read), asked: None }
    }
}

/// What going on after a write comes to.
pub open spec fn wrote_of(c: BlockingView, verdict: bool) -> PollOutcome {
    let idle = BlockingView { stage: Stage::Idle, ..c };
    match c.stage {
        Stage::Idle => PollOutcome {
            after: c,
            result: Ok(Ask::Done(c.conn.state == State::Established)),
            asked: None,
        },
        Stage::ReadyFirst => PollOutcome {
            after: idle,
            result: Ok(Ask::Done(false)),
            asked: None,
        },
        Stage::Rest(more) => match settle(c, State::Greeting, more) {
            Part::Stop(outcome) => outcome,
            Part::More(next) => drain(next, verdict),
        },
        Stage::Welcome => ask_write(
            c,
            session::write_ready_step(c.conn, TX_LEN as nat),
            Stage::Ready,
        ),
        Stage::Ready => finish(c),
        Stage::Pong(more) => if more {
            drain(c, verdict)
        } else {
            finish(c)
        },
        Stage::Error(e) => PollOutcome { after: idle, result: Err(e), asked: None },
    }
}

/// What going on after `new` bytes were read comes to.
pub open spec fn received_of(c: BlockingView, new: Seq<u8>, verdict: bool) -> PollOutcome {
    drain(BlockingView { rx: c.rx + new, fed: 0, stage: Stage::Idle, ..c }, verdict)
}

/// A core that has just been given its session.
pub open spec fn blocking_start(conn: SessionView) -> BlockingView {
    BlockingView { conn, rx: Seq::empty(), fed: 0, stage: Stage::Idle }
}

/// A [`Demand`] whose bytes are the first ones of the transmit buffer.
#[derive(Debug, PartialEq, Eq, Structural, Clone, Copy)]
enum Need {
    Read,
    Write(usize),
    Farewell(usize),
    Done(bool),
}

/// The core of a blocking driver, with the session that it drives.
pub struct BlockingCore<R: Registry, const FRAME_CAP: usize, A: AuthCheck> {
    conn: Session<R, FRAME_CAP, A>,
    rx: RxBuf,
    fed: usize,
    tx_buf: [u8; TX_LEN],
    stage: Stage,
}

/// The core of a blocking driver for a PUB connection.
pub type BlockingDriverCore<
    const SUB_CAP: usize,
    const PREFIX_CAP: usize,
    const FRAME_CAP: usize,
    A = (),
> = BlockingCore<SubTable<SUB_CAP, PREFIX_CAP>, FRAME_CAP, A>;

/// The core of a blocking driver for a RADIO connection.
pub type BlockingRadioDriverCore<
    const GROUP_CAP: usize,
    const GROUP_LEN_CAP: usize,
    const FRAME_CAP: usize,
    A = (),
> = BlockingCore<GroupTable<GROUP_CAP, GROUP_LEN_CAP>, FRAME_CAP, A>;

impl<R: Registry, const FRAME_CAP: usize, A: AuthCheck> View for BlockingCore<R, FRAME_CAP, A> {
    type V = BlockingView;

    closed spec fn view(&self) -> BlockingView {
        BlockingView {
            conn: self.conn@,
            rx: self.rx@,
            fed: self.fed as nat,
            stage: self.stage,
        }
    }
}

impl<R: Registry, const FRAME_CAP: usize, A: AuthCheck> BlockingCore<R, FRAME_CAP, A> {
    /// The session and the receive buffer are well formed, no more bytes have
    /// been fed than received, and the stage fits the session.
    pub closed spec fn wf(&self) -> bool {
        &&& self.conn.wf()
        &&& self.rx.wf()
        &&& self.fed <= self.rx@.len()
        &&& self.stage matches Stage::Rest(_) ==> !self.conn@.ready_sent
            && !self.conn@.welcome_sent
        &&& self.stage == Stage::Welcome ==> self.conn@.state == State::PlainReady
            && self.conn@.welcome_sent && !self.conn@.ready_sent
    }

    /// The free part of the receive buffer.
    pub closed spec fn slot(&self) -> Seq<u8> {
        self.rx.free()
    }

    /// Who decides about credentials.
    pub closed spec fn authenticator(&self) -> A {
        self.conn.authenticator()
    }

    /// What holds of every core that was made and used through its methods.
    pub proof fn law_consistent(&self)
        requires
            self.wf(),
        ensures
            session::consistent(self@.conn),
            self@.rx.len() + self.slot().len() == RX_LEN,
            self@.fed <= self@.rx.len(),
    {
        self.conn.law_consistent();
        self.rx.lemma_size();
    }

    /// `before` became `after` and returned `r`, as `outcome` says, where the
    /// authenticator, if it was asked, gave `verdict`.
    pub open spec fn came_to(
        before: Self,
        outcome: PollOutcome,
        verdict: bool,
        r: Result<Demand<'_>, ConnError>,
        after: Self,
    ) -> bool {
        &&& after@ == outcome.after
        &&& ask_of(r) == outcome.result
        &&& after.authenticator() == before.authenticator()
        &&& outcome.asked matches Some((username, password))
            ==> before.authenticator().may_answer(username, password, verdict)
    }

    /// The value of a need: the bytes to be written stand at the start of the
    /// transmit buffer.
    spec fn need_ask(&self, r: Result<Need, ConnError>) -> Result<Ask, ConnError> {
        match r {
            Ok(Need::Read) => Ok(Ask::Read),
            Ok(Need::Write(n)) => Ok(Ask::Write(self.tx_buf@.take(n as int))),
            Ok(Need::Farewell(n)) => Ok(Ask::Farewell(self.tx_buf@.take(n as int))),
            Ok(Need::Done(established)) => Ok(Ask::Done(established)),
            Err(e) => Err(e),
        }
    }

    /// As [`BlockingCore::came_to`], with the bytes still in the transmit buffer.
    spec fn needs(
        before: Self,
        outcome: PollOutcome,
        verdict: bool,
        r: Result<Need, ConnError>,
        after: Self,
    ) -> bool {
        &&& after@ == outcome.after
        &&& after.need_ask(r) == outcome.result
        &&& r matches Ok(Need::Write(n)) ==> n <= TX_LEN
        &&& r matches Ok(Need::Farewell(n)) ==> n <= TX_LEN
        &&& after.authenticator() == before.authenticator()
        &&& outcome.asked matches Some((username, password))
            ==> before.authenticator().may_answer(username, password, verdict)
    }

    fn begin(conn: Session<R, FRAME_CAP, A>) -> (r: Self)
        requires
            conn.wf(),
        ensures
            r.wf(),
            r@ == blocking_start(conn@),
            r.authenticator() == conn.authenticator(),
    {
        BlockingCore {
            conn,
            rx: RxBuf::new(),
            fed: 0,
            tx_buf: [0u8; TX_LEN],
            stage: Stage::Idle,
        }
    }

    /// The free part of the receive buffer, to be read into.
    pub fn rx_slot(&mut self) -> (r: &mut [u8])
        requires
            old(self).wf(),
        ensures
            r@ == old(self).slot(),
            final(self).wf(),
            final(self)@ == old(self)@,
            final(self).slot() == final(r)@,
            final(self).authenticator() == old(self).authenticator(),
    {
        self.rx.slot()
    }

    /// The session that is driven.
    pub fn conn(&self) -> (r: &Session<R, FRAME_CAP, A>)
        requires
            self.wf(),
        ensures
            r.wf(),
            r@ == self@.conn,
            r.authenticator() == self.authenticator(),
    {
        &self.conn
    }

    /// Encode the two frame headers for a publish, if the peer has asked for the topic.
    ///
    /// # Errors
    /// Returns `ConnError::WrongState` if not in `Established` state.
    pub fn publish_headers(&mut self, topic: &[u8], payload: &[u8]) -> (r: Result<
        Option<PublishHeaders>,
        ConnError,
    >)
        requires
            old(self).wf(),
        ensures
            final(self).wf(),
            final(self)@ == old(self)@,
            final(self).authenticator() == old(self).authenticator(),
            session::headers_result(old(self)@.conn, topic@, payload@, r),
    {
        self.conn.publish_headers(topic, payload)
    }

    /// Begins a poll.
    ///
    /// # Errors
    /// Returns what feeding the session fails with.
    pub fn poll(&mut self) -> (r: Result<Demand<'_>, ConnError>)
        requires
            old(self).wf(),
        ensures
            final(self).wf(),
            exists|verdict: bool|
                #[trigger] Self::came_to(
                    *old(self),
                    poll_of(old(self)@, verdict),
                    verdict,
                    r,
                    *final(self),
                ),
    {
        let ghost start = *self;
        let need: Result<Need, ConnError> = self.begin_poll();
        let ghost verdict = choose|verdict: bool|
            #[trigger] Self::needs(start, poll_of(start@, verdict), verdict, need, *self);
        let r: Result<Demand<'_>, ConnError> = self.hand_out(need);
        assert(Self::came_to(start, poll_of(start@, verdict), verdict, r, *self));
        r
    }

    /// Goes on with a poll after the bytes that it demanded have been written.
    ///
    /// # Errors
    /// Returns what feeding the session fails with.
    pub fn wrote(&mut self) -> (r: Result<Demand<'_>, ConnError>)
        requires
            old(self).wf(),
        ensures
            final(self).wf(),
            exists|verdict: bool|
                #[trigger] Self::came_to(
                    *old(self),
                    wrote_of(old(self)@, verdict),
                    verdict,
                    r,
                    *final(self),
                ),
    {
        let ghost start = *self;
        let need: Result<Need, ConnError> = self.go_on();
        let ghost verdict = choose|verdict: bool|
            #[trigger] Self::needs(start, wrote_of(start@, verdict), verdict, need, *self);
        let r: Result<Demand<'_>, ConnError> = self.hand_out(need);
        assert(Self::came_to(start, wrote_of(start@, verdict), verdict, r, *self));
        r
    }

    /// Goes on with a poll after `n` bytes have been read into the receive buffer.
    ///
    /// # Errors
    /// Returns what feeding the session fails with.
    pub fn received(&mut self, n: usize) -> (r: Result<Demand<'_>, ConnError>)
        requires
            old(self).wf(),
            n <= old(self).slot().len(),
        ensures
            final(self).wf(),
            exists|verdict: bool|
                #[trigger] Self::came_to(
                    *old(self),
                    received_of(old(self)@, old(self).slot().take(n as int), verdict),
                    verdict,
                    r,
                    *final(self),
                ),
    {
        let ghost start = *self;
        let ghost new = self.slot().take(n as int);
        self.rx.advance(n);
        self.fed = 0;
        self.stage = Stage::Idle;
        let ghost ready = *self;
        let need: Result<Need, ConnError> = self.drain();
        let ghost verdict = choose|verdict: bool|
            #[trigger] Self::needs(ready, drain(ready@, verdict), verdict, need, *self);
        let r: Result<Demand<'_>, ConnError> = self.hand_out(need);
        assert(Self::came_to(start, received_of(start@, new, verdict), verdict, r, *self));
        r
    }

    /// Turns a need into a demand.
    fn hand_out(&self, need: Result<Need, ConnError>) -> (r: Result<Demand<'_>, ConnError>)
        requires
            need matches Ok(Need::Write(n)) ==> n <= TX_LEN,
            need matches Ok(Need::Farewell(n)) ==> n <= TX_LEN,
        ensures
            ask_of(r) == self.need_ask(need),
    {
        match need {
            Ok(Need::Read) => Ok(Demand::Read),
            Ok(Need::Write(n)) => {
                let bytes: &[u8] = slice_subrange(self.tx_buf.as_slice(), 0, n);
                assert(bytes@ =~= self.tx_buf@.take(n as int));
                Ok(Demand::Write(bytes))
            },
            Ok(Need::Farewell(n)) => {
                let bytes: &[u8] = slice_subrange(self.tx_buf.as_slice(), 0, n);
                assert(bytes@ =~= self.tx_buf@.take(n as int));
                Ok(Demand::Farewell(bytes))
            },
            Ok(Need::Done(established)) => Ok(Demand::Done(established)),
            Err(e) => Err(e),
        }
    }

    fn begin_poll(&mut self) -> (r: Result<Need, ConnError>)
        requires
            old(self).wf(),
        ensures
            final(self).wf(),
            exists|verdict: bool|
                #[trigger] Self::needs(
                    *old(self),
                    poll_of(old(self)@, verdict),
                    verdict,
                    r,
                    *final(self),
                ),
    {
        let ghost start = *self;
        self.fed = 0;
        self.stage = Stage::Idle;
        let ghost c = *self;
        match self.conn.write_ready(&mut self.tx_buf) {
            Ok(n) => {
                self.stage = Stage::ReadyFirst;
                assert(self.tx_buf@.take(n as int) =~= session::write_ready_step(
                    c@.conn,
                    64,
                ).bytes);
                let r: Result<Need, ConnError> = Ok(Need::Write(n));
                assert(Self::needs(start, poll_of(start@, false), false, r, *self));
                return r;
            },
            // It is too early for READY, or it has been sent.
            Err(_) => {},
        }
        if self.rx.len() > 0 {
            let ghost ready = *self;
            let r: Result<Need, ConnError> = self.drain();
            let ghost verdict = choose|verdict: bool|
                #[trigger] Self::needs(ready, drain(ready@, verdict), verdict, r, *self);
            assert(Self::needs(start, poll_of(start@, verdict), verdict, r, *self));
            return r;
        }
        let r: Result<Need, ConnError> = Ok(Need::Read);
        assert(Self::needs(start, poll_of(start@, false), false, r, *self));
        r
    }

    fn go_on(&mut self) -> (r: Result<Need, ConnError>)
        requires
            old(self).wf(),
        ensures
            final(self).wf(),
            exists|verdict: bool|
                #[trigger] Self::needs(
                    *old(self),
                    wrote_of(old(self)@, verdict),
                    verdict,
                    r,
                    *final(self),
                ),
    {
        let ghost start = *self;
        let more: bool = match self.stage {
            Stage::Rest(more) => match self.settle(State::Greeting, more) {
                Some(r) => {
                    assert(Self::needs(start, wrote_of(start@, false), false, r, *self));
                    return r;
                },
                None => true,
            },
            Stage::Pong(more) => more,
            Stage::Ready => false,
            Stage::Welcome => {
                let n: usize = match self.conn.write_ready(&mut self.tx_buf) {
                    Ok(n) => n,
                    Err(_) => 0,
                };
                self.stage = Stage::Ready;
                assert(self.tx_buf@.take(n as int) =~= session::write_ready_step(
                    start@.conn,
                    64,
                ).bytes);
                let r: Result<Need, ConnError> = Ok(Need::Write(n));
                assert(Self::needs(start, wrote_of(start@, false), false, r, *self));
                return r;
            },
            Stage::Idle => {
                let r: Result<Need, ConnError> = Ok(
                    Need::Done(*self.conn.state() == State::Established),
                );
                assert(Self::needs(start, wrote_of(start@, false), false, r, *self));
                return r;
            },
            Stage::ReadyFirst => {
                self.stage = Stage::Idle;
                let r: Result<Need, ConnError> = Ok(Need::Done(false));
                assert(Self::needs(start, wrote_of(start@, false), false, r, *self));
                return r;
            },
            Stage::Error(e) => {
                self.stage = Stage::Idle;
                let r: Result<Need, ConnError> = Err(e);
                assert(Self::needs(start, wrote_of(start@, false), false, r, *self));
                return r;
            },
        };
        let ghost ready = *self;
        if more {
            let r: Result<Need, ConnError> = self.drain();
            let ghost verdict = choose|verdict: bool|
                #[trigger] Self::needs(ready, drain(ready@, verdict), verdict, r, *self);
            assert(Self::needs(start, wrote_of(start@, verdict), verdict, r, *self));
            r
        } else {
            let r: Result<Need, ConnError> = self.finish();
            assert(Self::needs(start, wrote_of(start@, false), false, r, *self));
            r
        }
    }

    /// Ends a poll.
    fn finish(&mut self) -> (r: Result<Need, ConnError>)
        requires
            old(self).wf(),
        ensures
            final(self).wf(),
            Self::needs(*old(self), finish(old(self)@), false, r, *final(self)),
    {
        let n: usize = self.fed;
        self.rx.shift(n);
        self.fed = 0;
        self.stage = Stage::Idle;
        Ok(Need::Done(*self.conn.state() == State::Established))
    }

    /// What follows once the rest of our greeting, if it was due, has been written.
    /// Returns `None` where more received bytes can be fed.
    fn settle(&mut self, was: State, more: bool) -> (r: Option<Result<Need, ConnError>>)
        requires
            old(self).wf(),
            old(self)@.conn.state == State::Ready && was != State::Ready
                ==> !old(self)@.conn.ready_sent,
            old(self)@.conn.state == State::PlainReady && was != State::PlainReady
                ==> !old(self)@.conn.welcome_sent,
        ensures
            final(self).wf(),
            match settle(old(self)@, was, more) {
                Part::Stop(outcome) => r matches Some(need) && Self::needs(
                    *old(self),
                    outcome,
                    false,
                    need,
                    *final(self),
                ),
                Part::More(next) => {
                    &&& r is None
                    &&& final(self)@ == next
                    &&& final(self).authenticator() == old(self).authenticator()
                },
            },
    {
        let ghost c = self@;
        proof {
            self.conn.law_consistent();
        }
        let state: State = *self.conn.state();
        if state == State::Ready && was != State::Ready {
            let n: usize = match self.conn.write_ready(&mut self.tx_buf) {
                Ok(n) => n,
                Err(_) => 0,
            };
            self.stage = Stage::Ready;
            assert(self.tx_buf@.take(n as int) =~= session::write_ready_step(c.conn, 64).bytes);
            return Some(Ok(Need::Write(n)));
        }
        if state == State::PlainReady && was != State::PlainReady {
            let n: usize = match self.conn.write_welcome(&mut self.tx_buf) {
                Ok(n) => n,
                Err(_) => 0,
            };
            self.stage = Stage::Welcome;
            assert(self.tx_buf@.take(n as int) =~= session::write_welcome_step(c.conn, 64).bytes);
            return Some(Ok(Need::Write(n)));
        }
        if let Ok(Some(n)) = self.conn.write_pong(&mut self.tx_buf) {
            self.stage = Stage::Pong(more);
            assert(self.tx_buf@.take(n as int) =~= session::write_pong_step(c.conn, 64).bytes);
            return Some(Ok(Need::Write(n)));
        }
        if more {
            None
        } else {
            Some(self.finish())
        }
    }

    /// What became of feeding received bytes once.
    spec fn drained_once(
        before: Self,
        verdict: bool,
        r: Option<Result<Need, ConnError>>,
        after: Self,
    ) -> bool {
        match drain_once(before@, verdict) {
            Part::Stop(outcome) => r matches Some(need) && Self::needs(
                before,
                outcome,
                verdict,
                need,
                after,
            ),
            Part::More(next) => {
                &&& r is None
                &&& after@ == next
                &&& next.fed > before@.fed
                &&& next.rx == before@.rx
                &&& after.authenticator() == before.authenticator()
            },
        }
    }

    /// Feeds received bytes to the session once. Returns `None` where more can be fed.
    #[verifier::rlimit(40)]
    fn drain_once(&mut self) -> (r: Option<Result<Need, ConnError>>)
        requires
            old(self).wf(),
            old(self)@.fed < old(self)@.rx.len(),
        ensures
            final(self).wf(),
            exists|verdict: bool| #[trigger] Self::drained_once(*old(self), verdict, r, *final(self)),
    {
        reveal(drain_once);
        let ghost start = *self;
        let was: State = *self.conn.state();
        let at: usize = self.fed;
        let input: &[u8] = self.rx.from(at);
        let outcome: Result<usize, ConnError> = self.conn.take_in(input);
        let ghost verdict = choose|verdict: bool|
            #[trigger] Session::digested(start.conn, input@, verdict, outcome, self.conn);
        proof {
            start.conn.law_consistent();
            start.rx.lemma_size();
            crate::laws::lemma_digest(start@.conn, input@, verdict);
            session::lemma_digest_verdict(start@.conn, input@, verdict);
        }
        match outcome {
            Ok(n) => {
                self.fed = at + n;
                self.stage = Stage::Idle;
                let more: bool = n > 0;
                let ghost next = self@;
                if self.conn.greeting_rest_pending() {
                    let sent: usize = match self.conn.write_greeting_rest(&mut self.tx_buf) {
                        Ok(sent) => sent,
                        Err(_) => 0,
                    };
                    self.stage = Stage::Rest(more);
                    assert(self.tx_buf@.take(sent as int) =~= session::write_rest_step(
                        next.conn,
                        64,
                    ).bytes);
                    let r: Option<Result<Need, ConnError>> = Some(Ok(Need::Write(sent)));
                    assert(Self::drained_once(start, verdict, r, *self));
                    return r;
                }
                let r: Option<Result<Need, ConnError>> = self.settle(was, more);
                assert(Self::drained_once(start, verdict, r, *self));
                r
            },
            Err(e) => {
                self.stage = Stage::Idle;
                let ghost next = self@;
                if *self.conn.state() == State::Failed {
                    let sent: usize = match self.conn.write_error(&mut self.tx_buf) {
                        Ok(sent) => sent,
                        Err(_) => 0,
                    };
                    self.stage = Stage::Error(e);
                    assert(self.tx_buf@.take(sent as int) =~= session::write_error_step(
                        next.conn,
                        64,
                    ).bytes);
                    let r: Option<Result<Need, ConnError>> = Some(Ok(Need::Farewell(sent)));
                    assert(Self::drained_once(start, verdict, r, *self));
                    return r;
                }
                let r: Option<Result<Need, ConnError>> = Some(Err(e));
                assert(Self::drained_once(start, verdict, r, *self));
                r
            },
        }
    }

    /// Feeds received bytes to the session until the driver has something to do or
    /// the poll is over.
    fn drain(&mut self) -> (r: Result<Need, ConnError>)
        requires
            old(self).wf(),
        ensures
            final(self).wf(),
            exists|verdict: bool|
                #[trigger] Self::needs(
                    *old(self),
                    drain(old(self)@, verdict),
                    verdict,
                    r,
                    *final(self),
                ),
    {
        let ghost start = *self;
        while self.fed < self.rx.len()
            invariant
                self.wf(),
                start == *old(self),
                self.authenticator() == start.authenticator(),
                forall|v: bool| #[trigger] drain(start@, v) == drain(self@, v),
            decreases self@.rx.len() - self@.fed,
        {
            reveal(drain);
            let ghost before = *self;
            let part: Option<Result<Need, ConnError>> = self.drain_once();
            let ghost verdict = choose|verdict: bool|
                #[trigger] Self::drained_once(before, verdict, part, *self);
            proof {
                lemma_drain_once_verdict(before@, verdict);
                assert(drain(start@, verdict) == drain(before@, verdict));
            }
            if let Some(r) = part {
                assert(Self::needs(start, drain(start@, verdict), verdict, r, *self));
                return r;
            }
            assert forall|v: bool| #[trigger] drain(start@, v) == drain(self@, v) by {
                assert(drain(start@, v) == drain(before@, v));
                assert(v == verdict || v == !verdict);
            }
        }
        reveal(drain);
        let ghost last = *self;
        assert(drain(start@, false) == drain(last@, false));
        let r: Result<Need, ConnError> = self.finish();
        assert(Self::needs(start, drain(start@, false), false, r, *self));
        r
    }
}

impl<
    const SUB_CAP: usize,
    const PREFIX_CAP: usize,
    const FRAME_CAP: usize,
    A: AuthCheck,
> BlockingDriverCore<SUB_CAP, PREFIX_CAP, FRAME_CAP, A> {
    /// New core for a PUB connection whose partial greeting has been written.
    pub fn new(conn: Connection<SUB_CAP, PREFIX_CAP, FRAME_CAP, A>) -> (r: Self)
        requires
            conn.wf(),
        ensures
            r.wf(),
            r@ == blocking_start(conn@),
            r.authenticator() == conn.authenticator(),
    {
        BlockingCore::begin(conn)
    }
}

impl<
    const GROUP_CAP: usize,
    const GROUP_LEN_CAP: usize,
    const FRAME_CAP: usize,
    A: AuthCheck,
> BlockingRadioDriverCore<GROUP_CAP, GROUP_LEN_CAP, FRAME_CAP, A> {
    /// New core for a RADIO connection whose partial greeting has been written.
    pub fn new(conn: RadioConnection<GROUP_CAP, GROUP_LEN_CAP, FRAME_CAP, A>) -> (r: Self)
        requires
            conn.wf(),
        ensures
            r.wf(),
            r@ == blocking_start(conn@),
            r.authenticator() == conn.authenticator(),
    {
        BlockingCore::begin(conn)
    }
}

} // verus!
