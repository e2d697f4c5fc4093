//! What holds of every driver core, across its steps.

use vstd::prelude::*;

use crate::auth::Mechanism;
use crate::connection::{ConnError, State};
use crate::io::blocking;
use crate::io::blocking::{Ask, BlockingView, Stage};
use crate::io::driver;
use crate::io::driver::{CoreView, DriverPhase, Todo};
use crate::io::rx::TX_LEN;
use crate::session::SessionView;
use crate::{greeting, laws, null, plain, session};

verus! {

/// A good greeting of the peer, whatever follows it.
proof fn lemma_greeting_taken(v: SessionView, g: Seq<u8>, rest: Seq<u8>, verdict: bool)
    requires
        v.state == State::Greeting,
        v.peer_greeting.len() == 0,
        g.len() == greeting::GREETING_LEN,
        greeting::greeting_verdict(v.mechanism, g) is Ok,
    ensures
        session::digest(v, g + rest, verdict) == (session::FeedOutcome {
            after: SessionView {
                peer_greeting: g,
                state: if v.greeting_sent {
                    session::after_greetings(v.mechanism)
                } else {
                    v.state
                },
                ..v
            },
            result: Ok(greeting::GREETING_LEN),
            asked: None,
        }),
{
    reveal(session::digest);
    laws::lemma_good_greeting(v, g, rest, verdict);
}

/// A READY of the peer that fits.
pub(crate) proof fn lemma_ready_taken(v: SessionView, ready: Seq<u8>, verdict: bool)
    requires
        session::listens(v),
        v.state == State::Ready || v.state == State::PlainReady,
        v.decoder == crate::frame::decoder_start(),
        laws::good_ready(v.role, v.frame_cap, ready),
    ensures
        session::digest(v, ready, verdict) == (session::FeedOutcome {
            after: SessionView { state: State::Established, ..v },
            result: Ok(ready.len() as usize),
            asked: None,
        }),
        0 < ready.len() <= 264,
{
    reveal(session::digest);
    laws::law_any_frame_is_judged(v, ready, verdict);
    laws::lemma_ready_is_short(v.role, v.frame_cap, ready);
}

/// A HELLO with credentials about which the authenticator decides, whatever
/// follows it.
pub(crate) proof fn lemma_hello_taken(
    v: SessionView,
    hello: Seq<u8>,
    rest: Seq<u8>,
    verdict: bool,
)
    requires
        v.state == State::PlainHello,
        v.decoder == crate::frame::decoder_start(),
        laws::hello_in(v.frame_cap, hello) is Some,
    ensures
        session::digest(v, hello + rest, verdict) == (session::FeedOutcome {
            after: SessionView { state: session::hello_state(verdict), ..v },
            result: session::hello_result(verdict, hello.len()),
            asked: laws::hello_in(v.frame_cap, hello),
        }),
        0 < hello.len(),
{
    reveal(session::digest);
    laws::law_any_hello_is_decided(v, hello, rest, verdict);
}

/// Feeding received bytes leaves them in place, and feeds no more than there are.
proof fn lemma_run_keeps_rx(c: CoreView, at: nat, verdict: bool)
    requires
        session::consistent(c.conn),
        at <= c.rx.len() <= usize::MAX,
    ensures
        driver::run(c, at, verdict).after.rx == c.rx,
        driver::run(c, at, verdict).result matches Ok(n) ==> n <= c.rx.len(),
    decreases c.rx.len() - at,
{
    reveal(driver::run);
    reveal(driver::turn);
    if at < c.rx.len() {
        let input = c.rx.skip(at as int);
        laws::lemma_digest(c.conn, input, verdict);
        let once = driver::turn(c, at, verdict);
        if let Ok((n, more)) = once.result {
            if more {
                lemma_run_keeps_rx(once.after, n, verdict);
            }
        }
    }
}

/// Received bytes are fed in order and each once: a step drops the first ones of
/// them and leaves the others as they are. A step that fails drops none.
pub proof fn law_received_bytes_stay_in_order(c: CoreView, verdict: bool)
    requires
        session::consistent(c.conn),
        c.rx.len() <= usize::MAX,
    ensures
        exists|n: int|
            0 <= n <= c.rx.len() && driver::step_of(c, verdict).after.rx == #[trigger] c.rx.skip(n),
        driver::step_of(c, verdict).result is Err ==> driver::step_of(c, verdict).after.rx == c.rx,
{
    reveal(driver::feed_some);
    assert(c.rx.skip(0) =~= c.rx);
    let moved = CoreView { phase: driver::settled(c.phase), ..c };
    let hello = CoreView { phase: DriverPhase::AwaitingPlainHello, ..c };
    lemma_run_keeps_rx(moved, 0, verdict);
    lemma_run_keeps_rx(hello, 0, verdict);
}

/// A driver that is told to read has nothing left to feed, so that the whole
/// receive buffer is free.
pub proof fn law_read_has_room(c: CoreView, verdict: bool)
    ensures
        driver::step_of(c, verdict).result == Ok::<Todo, ConnError>(Todo::Read)
            ==> driver::step_of(c, verdict).after.rx.len() == 0,
{
    reveal(driver::feed_some);
}

/// A driver reports the end of the handshake only when the session is established.
pub proof fn law_established_means_established(c: CoreView, verdict: bool)
    ensures
        driver::step_of(c, verdict).result == Ok::<Todo, ConnError>(Todo::Established)
            ==> driver::step_of(c, verdict).after.conn.state == State::Established,
{
    reveal(driver::feed_some);
}

/// What a driver is told to write is never nothing.
pub proof fn law_writes_are_not_empty(c: CoreView, verdict: bool)
    ensures
        driver::step_of(c, verdict).result matches Ok(Todo::Write(bytes)) ==> bytes.len() > 0,
{
    reveal(driver::feed_some);
}

/// A driver whose session has failed writes the ERROR command first and reports
/// the error afterwards; from then on it reports that the state is wrong.
pub proof fn law_failure_is_told_and_reported(c: CoreView, e: ConnError, verdict: bool)
    requires
        c.conn.state == State::Failed,
    ensures
        ({
            let broken = driver::broken(c, e);
            let first = driver::step_of(broken, verdict);
            let second = driver::step_of(first.after, verdict);
            let third = driver::step_of(second.after, verdict);
            &&& first.result == Ok::<Todo, ConnError>(
                Todo::Write(null::error_frame(session::REFUSAL@)),
            )
            &&& second.result == Err::<Todo, ConnError>(e)
            &&& third.result == Err::<Todo, ConnError>(ConnError::WrongState)
        }),
{
    assert(null::error_frame(session::REFUSAL@).len() == 28);
}

/// The core of a PUB driver whose partial greeting has been written, and which
/// has received `rx`.
pub open spec fn opened(v: SessionView, rx: Seq<u8>) -> CoreView {
    CoreView {
        rx,
        ..driver::core_start(session::write_head_step(v, greeting::GREETING_LEN as nat).after)
    }
}

/// The peer's greeting, and `rest` after it, received by a driver whose partial
/// greeting has been written: the rest of our greeting is written.
proof fn lemma_greeting_is_answered(v: SessionView, g: Seq<u8>, rest: Seq<u8>, verdict: bool)
    requires
        v == session::fresh(v.role, v.mechanism, v.frame_cap, v.max_entries, v.max_len),
        g.len() == greeting::GREETING_LEN,
        greeting::greeting_verdict(v.mechanism, g) is Ok,
    ensures
        driver::step_of(opened(v, g + rest), verdict) == (driver::StepOutcome {
            after: CoreView {
                conn: SessionView {
                    head_sent: true,
                    greeting_sent: true,
                    peer_greeting: g,
                    state: session::after_greetings(v.mechanism),
                    ..v
                },
                rx: rest,
                phase: DriverPhase::SendingGreetingRest,
                ..opened(v, g + rest)
            },
            result: Ok(
                Todo::Write(
                    greeting::our_greeting(v.mechanism).skip(
                        greeting::GREETING_PARTIAL_LEN as int,
                    ),
                ),
            ),
            asked: None,
        }),
{
    reveal(driver::feed_some);
    reveal(driver::run);
    reveal(driver::turn);
    let c = opened(v, g + rest);
    lemma_greeting_taken(c.conn, g, rest, verdict);
    assert(c.rx.skip(0) =~= g + rest);
    greeting::lemma_our_greeting_len(v.mechanism);
    let taken = session::digest(c.conn, g + rest, verdict).after;
    let written = session::write_rest_step(taken, TX_LEN as nat);
    let queued = driver::queued(c, written, DriverPhase::SendingGreetingRest);
    assert(driver::turn(c, 0, verdict).after == queued);
    assert(driver::run(c, 0, verdict).after == queued);
    assert((g + rest).skip(g.len() as int) =~= rest);
}

/// The NULL handshake of a driver, with the greeting and the READY of a peer that
/// fits in its receive buffer: the driver writes the rest of its greeting, then
/// its READY, and only then takes the peer's READY and is established.
pub proof fn law_driver_null_handshake(v: SessionView, g: Seq<u8>, ready: Seq<u8>)
    requires
        v == session::fresh(v.role, Mechanism::Null, v.frame_cap, v.max_entries, v.max_len),
        g.len() == greeting::GREETING_LEN,
        greeting::greeting_verdict(Mechanism::Null, g) is Ok,
        laws::good_ready(v.role, v.frame_cap, ready),
    ensures
        ({
            let first = driver::step_of(opened(v, g + ready), false);
            let second = driver::step_of(first.after, false);
            let third = driver::step_of(second.after, false);
            &&& first.result == Ok::<Todo, ConnError>(
                Todo::Write(
                    greeting::our_greeting(Mechanism::Null).skip(
                        greeting::GREETING_PARTIAL_LEN as int,
                    ),
                ),
            )
            &&& second.result == Ok::<Todo, ConnError>(Todo::Write(null::our_ready(v.role)))
            &&& third.result == Ok::<Todo, ConnError>(Todo::Established)
            &&& third.after.conn.state == State::Established
            &&& third.after.rx.len() == 0
        }),
{
    lemma_greeting_is_answered(v, g, ready, false);
    let first = driver::step_of(opened(v, g + ready), false);
    // Our READY goes out.
    let second = driver::step_of(first.after, false);
    let sent = session::write_ready_step(first.after.conn, TX_LEN as nat);
    assert(second.after == (CoreView {
        conn: sent.after,
        phase: DriverPhase::SendingReady,
        ..first.after
    }));
    // The peer's READY is taken.
    let waiting = CoreView { phase: DriverPhase::AwaitingPeerReady, ..second.after };
    lemma_ready_ends_the_handshake(waiting, ready);
}

/// The core of a driver whose whole greeting has been written, and which has
/// received `rx`.
pub open spec fn opened_at_once(v: SessionView, rx: Seq<u8>) -> CoreView {
    CoreView {
        rx,
        ..driver::core_start(session::write_full_step(v, greeting::GREETING_LEN as nat).after)
    }
}

/// The NULL handshake of a driver that has written its whole greeting at the
/// start: it writes its READY, and only then takes the peer's and is established.
#[verifier::rlimit(40)]
pub proof fn law_driver_null_handshake_at_once(v: SessionView, g: Seq<u8>, ready: Seq<u8>)
    requires
        v == session::fresh(v.role, Mechanism::Null, v.frame_cap, v.max_entries, v.max_len),
        g.len() == greeting::GREETING_LEN,
        greeting::greeting_verdict(Mechanism::Null, g) is Ok,
        laws::good_ready(v.role, v.frame_cap, ready),
    ensures
        ({
            let first = driver::step_of(opened_at_once(v, g + ready), false);
            let second = driver::step_of(first.after, false);
            &&& first.result == Ok::<Todo, ConnError>(Todo::Write(null::our_ready(v.role)))
            &&& second.result == Ok::<Todo, ConnError>(Todo::Established)
            &&& second.after.conn.state == State::Established
            &&& second.after.rx.len() == 0
        }),
{
    reveal(driver::feed_some);
    let c = opened_at_once(v, g + ready);
    let greeted = SessionView { peer_greeting: g, state: State::Ready, ..c.conn };
    let sent = session::write_ready_step(greeted, TX_LEN as nat);
    let first = driver::step_of(c, false);
    // The peer's greeting is taken, and our READY is due.
    assert(first.after == (CoreView {
        conn: sent.after,
        rx: ready,
        phase: DriverPhase::SendingReady,
        ..c
    }) && first.result == Ok::<Todo, ConnError>(Todo::Write(null::our_ready(v.role)))) by {
        reveal(driver::run);
        reveal(driver::turn);
        lemma_greeting_taken(c.conn, g, ready, false);
        assert(c.rx.skip(0) =~= g + ready);
        let queued = driver::queued(c, sent, DriverPhase::SendingReady);
        assert(driver::turn(c, 0, false).after == queued);
        assert(driver::run(c, 0, false).after == queued);
        assert((g + ready).skip(g.len() as int) =~= ready);
    }
    let waiting = CoreView { phase: DriverPhase::AwaitingPeerReady, ..first.after };
    lemma_ready_ends_the_handshake(waiting, ready);
}

/// The peer's READY, alone in the receive buffer of a driver that awaits it.
proof fn lemma_ready_ends_the_handshake(c: CoreView, ready: Seq<u8>)
    requires
        c.rx == ready,
        c.tx.len() == 0,
        driver::awaits_ready(c.phase),
        session::listens(c.conn),
        c.conn.state == State::Ready || c.conn.state == State::PlainReady,
        c.conn.decoder == crate::frame::decoder_start(),
        c.conn.pong is None,
        laws::good_ready(c.conn.role, c.conn.frame_cap, ready),
    ensures
        driver::step_of(c, false).result == Ok::<Todo, ConnError>(Todo::Established),
        driver::step_of(c, false).after.conn.state == State::Established,
        driver::step_of(c, false).after.rx.len() == 0,
{
    reveal(driver::feed_some);
    reveal(driver::run);
    reveal(driver::turn);
    lemma_ready_taken(c.conn, ready, false);
    assert(c.rx.skip(0) =~= ready);
    let once = driver::turn(c, 0, false);
    assert(once.result == Ok::<(nat, bool), ConnError>((ready.len(), true)));
    assert(driver::run(once.after, ready.len(), false).result == Ok::<nat, ConnError>(
        ready.len(),
    ));
    assert(driver::run(c, 0, false).after == once.after);
}

/// The PLAIN handshake of a driver, with the greeting, a HELLO and the READY of a
/// peer that fits in its receive buffer, and credentials that are accepted: the
/// driver writes the rest of its greeting, then WELCOME, then READY, and only then
/// takes the peer's READY and is established.
pub proof fn law_driver_plain_handshake(
    v: SessionView,
    g: Seq<u8>,
    hello: Seq<u8>,
    ready: Seq<u8>,
)
    requires
        v == session::fresh(v.role, Mechanism::Plain, v.frame_cap, v.max_entries, v.max_len),
        g.len() == greeting::GREETING_LEN,
        greeting::greeting_verdict(Mechanism::Plain, g) is Ok,
        laws::good_ready(v.role, v.frame_cap, ready),
        laws::hello_in(v.frame_cap, hello) is Some,
        hello.len() <= usize::MAX,
    ensures
        ({
            let first = driver::step_of(opened(v, g + (hello + ready)), false);
            let second = driver::step_of(first.after, true);
            let third = driver::step_of(second.after, false);
            let fourth = driver::step_of(third.after, false);
            &&& first.asked is None
            &&& first.result == Ok::<Todo, ConnError>(
                Todo::Write(
                    greeting::our_greeting(Mechanism::Plain).skip(
                        greeting::GREETING_PARTIAL_LEN as int,
                    ),
                ),
            )
            &&& second.asked == laws::hello_in(v.frame_cap, hello)
            &&& second.result == Ok::<Todo, ConnError>(Todo::Write(plain::WELCOME_FRAME@))
            &&& third.result == Ok::<Todo, ConnError>(Todo::Write(null::our_ready(v.role)))
            &&& fourth.result == Ok::<Todo, ConnError>(Todo::Established)
            &&& fourth.after.conn.state == State::Established
            &&& fourth.after.rx.len() == 0
        }),
{
    lemma_greeting_is_answered(v, g, hello + ready, false);
    let first = driver::step_of(opened(v, g + (hello + ready)), false);
    let waiting = CoreView { phase: DriverPhase::AwaitingPlainHello, ..first.after };
    lemma_hello_is_answered(waiting, hello, ready);
    assert(driver::step_of(first.after, true) == driver::step_of(waiting, true));
    lemma_welcome_to_established(driver::step_of(first.after, true).after, ready);
}

/// The PLAIN handshake of a driver that has written its whole greeting at the
/// start: it writes WELCOME, then READY, and only then takes the peer's READY and
/// is established.
#[verifier::rlimit(40)]
pub proof fn law_driver_plain_handshake_at_once(
    v: SessionView,
    g: Seq<u8>,
    hello: Seq<u8>,
    ready: Seq<u8>,
)
    requires
        v == session::fresh(v.role, Mechanism::Plain, v.frame_cap, v.max_entries, v.max_len),
        g.len() == greeting::GREETING_LEN,
        greeting::greeting_verdict(Mechanism::Plain, g) is Ok,
        laws::good_ready(v.role, v.frame_cap, ready),
        laws::hello_in(v.frame_cap, hello) is Some,
        hello.len() <= usize::MAX,
    ensures
        ({
            let first = driver::step_of(opened_at_once(v, g + (hello + ready)), true);
            let second = driver::step_of(first.after, false);
            let third = driver::step_of(second.after, false);
            &&& first.asked == laws::hello_in(v.frame_cap, hello)
            &&& first.result == Ok::<Todo, ConnError>(Todo::Write(plain::WELCOME_FRAME@))
            &&& second.result == Ok::<Todo, ConnError>(Todo::Write(null::our_ready(v.role)))
            &&& third.result == Ok::<Todo, ConnError>(Todo::Established)
            &&& third.after.conn.state == State::Established
            &&& third.after.rx.len() == 0
        }),
{
    let c = opened_at_once(v, g + (hello + ready));
    let greeted = CoreView {
        conn: SessionView { peer_greeting: g, state: State::PlainHello, ..c.conn },
        phase: DriverPhase::AwaitingPlainHello,
        ..c
    };
    // The peer's greeting is taken, and its HELLO after it.
    assert(driver::turn(c, 0, true) == (driver::TurnOutcome {
        after: greeted,
        result: Ok((64, true)),
        asked: None,
    })) by {
        reveal(driver::turn);
        lemma_greeting_taken(c.conn, g, hello + ready, true);
        assert(c.rx.skip(0) =~= g + (hello + ready));
    }
    assert(c.rx.skip(64) =~= hello + ready);
    lemma_hello_turn(greeted, 64, hello, ready);
    let first = driver::step_of(c, true);
    let welcomed = CoreView {
        conn: SessionView { state: State::PlainReady, welcome_sent: true, ..greeted.conn },
        rx: ready,
        phase: DriverPhase::SendingPlainWelcome,
        ..greeted
    };
    assert(first == (driver::StepOutcome {
        after: welcomed,
        result: Ok(Todo::Write(plain::WELCOME_FRAME@)),
        asked: laws::hello_in(v.frame_cap, hello),
    })) by {
        reveal(driver::feed_some);
        reveal_with_fuel(driver::run, 2);
        assert(c.rx.skip((64 + hello.len()) as int) =~= ready);
        lemma_hello_taken(greeted.conn, hello, ready, true);
    }
    lemma_welcome_to_established(welcomed, ready);
}

/// A driver that has written WELCOME, with the peer's READY in its receive buffer.
proof fn lemma_welcome_to_established(c: CoreView, ready: Seq<u8>)
    requires
        session::consistent(c.conn),
        c.conn.state == State::PlainReady,
        c.conn.welcome_sent,
        !c.conn.ready_sent,
        c.conn.decoder == crate::frame::decoder_start(),
        c.phase == DriverPhase::SendingPlainWelcome,
        c.tx.len() == 0,
        c.rx == ready,
        laws::good_ready(c.conn.role, c.conn.frame_cap, ready),
    ensures
        ({
            let first = driver::step_of(c, false);
            let second = driver::step_of(first.after, false);
            &&& first.result == Ok::<Todo, ConnError>(Todo::Write(null::our_ready(c.conn.role)))
            &&& second.result == Ok::<Todo, ConnError>(Todo::Established)
            &&& second.after.conn.state == State::Established
            &&& second.after.rx.len() == 0
        }),
{
    let sent = session::write_ready_step(c.conn, TX_LEN as nat);
    let first = driver::step_of(c, false);
    assert(first.after == (CoreView {
        conn: sent.after,
        tx: Seq::empty(),
        phase: DriverPhase::SendingPlainReady,
        ..c
    }));
    let waiting = CoreView { phase: DriverPhase::AwaitingPlainReady, ..first.after };
    lemma_ready_ends_the_handshake(waiting, ready);
}

/// A HELLO with credentials that are accepted, and `rest` after it, from `at` on in
/// the receive buffer of a driver that awaits it.
proof fn lemma_hello_turn(
    c: CoreView,
    at: nat,
    hello: Seq<u8>,
    rest: Seq<u8>,
)
    requires
        c.conn.state == State::PlainHello,
        !c.conn.welcome_sent,
        c.conn.decoder == crate::frame::decoder_start(),
        laws::hello_in(c.conn.frame_cap, hello) is Some,
        hello.len() <= usize::MAX,
        c.rx.skip(at as int) == hello + rest,
    ensures
        driver::turn(c, at, true) == (driver::TurnOutcome {
            after: CoreView {
                conn: SessionView { state: State::PlainReady, welcome_sent: true, ..c.conn },
                tx: plain::WELCOME_FRAME@,
                phase: DriverPhase::SendingPlainWelcome,
                ..c
            },
            result: Ok((at + hello.len(), false)),
            asked: laws::hello_in(c.conn.frame_cap, hello),
        }),
{
    reveal(driver::turn);
    lemma_hello_taken(c.conn, hello, rest, true);
}

/// A HELLO with credentials that are accepted, and `rest` after it, in the receive
/// buffer of a driver that awaits it.
proof fn lemma_hello_is_answered(
    c: CoreView,
    hello: Seq<u8>,
    rest: Seq<u8>,
)
    requires
        c.conn.state == State::PlainHello,
        !c.conn.welcome_sent,
        c.conn.decoder == crate::frame::decoder_start(),
        c.phase == DriverPhase::AwaitingPlainHello,
        c.tx.len() == 0,
        laws::hello_in(c.conn.frame_cap, hello) is Some,
        hello.len() <= usize::MAX,
        c.rx == hello + rest,
    ensures
        driver::step_of(c, true) == (driver::StepOutcome {
            after: CoreView {
                conn: SessionView { state: State::PlainReady, welcome_sent: true, ..c.conn },
                rx: rest,
                tx: Seq::empty(),
                phase: DriverPhase::SendingPlainWelcome,
                ..c
            },
            result: Ok(Todo::Write(plain::WELCOME_FRAME@)),
            asked: laws::hello_in(c.conn.frame_cap, hello),
        }),
{
    reveal(driver::feed_some);
    reveal(driver::run);
    lemma_hello_taken(c.conn, hello, rest, true);
    assert(c.rx.skip(0) =~= hello + rest);
    lemma_hello_turn(c, 0, hello, rest);
    assert((hello + rest).skip(hello.len() as int) =~= rest);
}

/// Draining the receive buffer never asks for more bytes. It drops received bytes
/// only when it ends a poll, and then the ones that were fed.
proof fn lemma_drain(c: BlockingView, verdict: bool)
    requires
        session::consistent(c.conn),
        c.fed <= c.rx.len() <= usize::MAX,
    ensures
        blocking::drain(c, verdict).result != Ok::<Ask, ConnError>(Ask::Read),
        match blocking::drain(c, verdict).result {
            Ok(Ask::Done(_)) => exists|n: int|
                0 <= n <= c.rx.len() && blocking::drain(c, verdict).after.rx == #[trigger] c.rx.skip(n),
            _ => blocking::drain(c, verdict).after.rx == c.rx,
        },
    decreases c.rx.len() - c.fed,
{
    reveal(blocking::drain);
    reveal(blocking::drain_once);
    if c.fed < c.rx.len() {
        let input = c.rx.skip(c.fed as int);
        laws::lemma_digest(c.conn, input, verdict);
        if let blocking::Part::More(next) = blocking::drain_once(c, verdict) {
            lemma_drain(next, verdict);
        }
    }
}

/// A blocking driver is told to read only when it has nothing left to feed, so
/// that the whole receive buffer is free.
pub proof fn law_blocking_read_has_room(c: BlockingView, verdict: bool)
    requires
        session::consistent(c.conn),
        c.rx.len() <= usize::MAX,
    ensures
        blocking::poll_of(c, verdict).result == Ok::<Ask, ConnError>(Ask::Read) ==> blocking::poll_of(
            c,
            verdict,
        ).after.rx.len() == 0,
{
    lemma_drain(BlockingView { fed: 0, stage: Stage::Idle, ..c }, verdict);
}

/// A poll that has to be given up, or that fails, drops no received bytes; one
/// that ends drops the first ones of them.
pub proof fn law_polls_drop_only_what_was_fed(c: BlockingView, verdict: bool)
    requires
        session::consistent(c.conn),
        c.rx.len() <= usize::MAX,
    ensures
        match blocking::poll_of(c, verdict).result {
            Ok(Ask::Done(_)) => exists|n: int|
                0 <= n <= c.rx.len() && blocking::poll_of(c, verdict).after.rx == #[trigger] c.rx.skip(n),
            _ => blocking::poll_of(c, verdict).after.rx == c.rx,
        },
{
    lemma_drain(BlockingView { fed: 0, stage: Stage::Idle, ..c }, verdict);
}

/// A poll that begins while our READY is due does nothing else: it writes READY,
/// and takes none of the peer's bytes.
pub proof fn law_ready_has_a_poll_of_its_own(c: BlockingView)
    requires
        c.conn.state == State::Ready || c.conn.state == State::PlainReady && c.conn.welcome_sent,
        !c.conn.ready_sent,
    ensures
        ({
            let first = blocking::poll_of(c, false);
            let second = blocking::wrote_of(first.after, false);
            &&& first.result == Ok::<Ask, ConnError>(Ask::Write(null::our_ready(c.conn.role)))
            &&& second.result == Ok::<Ask, ConnError>(Ask::Done(false))
            &&& second.after.rx == c.rx
            &&& second.after.conn == (SessionView { ready_sent: true, ..c.conn })
        }),
{
}

/// The NULL handshake of a blocking driver, with the greeting and the READY of a
/// peer that fits read at once: the first poll writes the rest of the greeting
/// and READY and leaves the peer's READY alone; the second takes it, and the
/// connection is established.
pub proof fn law_blocking_null_handshake(v: SessionView, g: Seq<u8>, ready: Seq<u8>)
    requires
        v == session::fresh(v.role, Mechanism::Null, v.frame_cap, v.max_entries, v.max_len),
        g.len() == greeting::GREETING_LEN,
        greeting::greeting_verdict(Mechanism::Null, g) is Ok,
        laws::good_ready(v.role, v.frame_cap, ready),
    ensures
        ({
            let headed = session::write_head_step(v, greeting::GREETING_LEN as nat).after;
            let asked = blocking::poll_of(blocking::blocking_start(headed), false);
            let first = blocking::received_of(asked.after, g + ready, false);
            let second = blocking::wrote_of(first.after, false);
            let third = blocking::wrote_of(second.after, false);
            let fourth = blocking::poll_of(third.after, false);
            &&& asked.result == Ok::<Ask, ConnError>(Ask::Read)
            &&& first.result == Ok::<Ask, ConnError>(
                Ask::Write(
                    greeting::our_greeting(Mechanism::Null).skip(
                        greeting::GREETING_PARTIAL_LEN as int,
                    ),
                ),
            )
            &&& second.result == Ok::<Ask, ConnError>(Ask::Write(null::our_ready(v.role)))
            &&& third.result == Ok::<Ask, ConnError>(Ask::Done(false))
            &&& third.after.rx == ready
            &&& fourth.result == Ok::<Ask, ConnError>(Ask::Done(true))
            &&& fourth.after.rx.len() == 0
        }),
{
    let headed = session::write_head_step(v, greeting::GREETING_LEN as nat).after;
    let asked = blocking::poll_of(blocking::blocking_start(headed), false);
    assert(asked.after.rx + (g + ready) =~= g + ready);
    let start = BlockingView { conn: headed, rx: g + ready, fed: 0, stage: Stage::Idle };
    lemma_blocking_greeting(start, g, ready);
    let first = blocking::received_of(asked.after, g + ready, false);
    let second = blocking::wrote_of(first.after, false);
    let sent = session::write_ready_step(first.after.conn, TX_LEN as nat);
    assert(second.after == (BlockingView { conn: sent.after, stage: Stage::Ready, ..first.after }));
    let third = blocking::wrote_of(second.after, false);
    assert((g + ready).skip(64) =~= ready);
    assert(third.after == (BlockingView {
        conn: sent.after,
        rx: ready,
        fed: 0,
        stage: Stage::Idle,
    }));
    lemma_blocking_ready(third.after, ready);
}

/// The peer's greeting, and `rest` after it, drained by a blocking driver that has
/// written its partial greeting.
proof fn lemma_blocking_greeting(c: BlockingView, g: Seq<u8>, rest: Seq<u8>)
    requires
        c.conn.state == State::Greeting,
        c.conn.head_sent,
        !c.conn.greeting_sent,
        c.conn.peer_greeting.len() == 0,
        g.len() == greeting::GREETING_LEN,
        greeting::greeting_verdict(c.conn.mechanism, g) is Ok,
        c.rx == g + rest,
        c.fed == 0,
    ensures
        blocking::drain(c, false) == (blocking::PollOutcome {
            after: BlockingView {
                conn: SessionView {
                    peer_greeting: g,
                    greeting_sent: true,
                    state: session::after_greetings(c.conn.mechanism),
                    ..c.conn
                },
                fed: 64,
                stage: Stage::Rest(true),
                ..c
            },
            result: Ok(
                Ask::Write(
                    greeting::our_greeting(c.conn.mechanism).skip(
                        greeting::GREETING_PARTIAL_LEN as int,
                    ),
                ),
            ),
            asked: None,
        }),
{
    reveal(blocking::drain);
    reveal(blocking::drain_once);
    lemma_greeting_taken(c.conn, g, rest, false);
    assert(c.rx.skip(0) =~= g + rest);
}

/// The peer's READY, alone in the receive buffer of a blocking driver.
proof fn lemma_blocking_ready(c: BlockingView, ready: Seq<u8>)
    requires
        c.rx == ready,
        c.fed == 0,
        c.stage == Stage::Idle,
        c.conn.state == State::Ready || c.conn.state == State::PlainReady && c.conn.welcome_sent,
        c.conn.ready_sent,
        c.conn.decoder == crate::frame::decoder_start(),
        c.conn.pong is None,
        laws::good_ready(c.conn.role, c.conn.frame_cap, ready),
    ensures
        blocking::poll_of(c, false).result == Ok::<Ask, ConnError>(Ask::Done(true)),
        blocking::poll_of(c, false).after.rx.len() == 0,
{
    reveal(blocking::drain);
    reveal(blocking::drain_once);
    lemma_ready_taken(c.conn, ready, false);
    assert(c.rx.skip(0) =~= ready);
    let done = BlockingView {
        conn: SessionView { state: State::Established, ..c.conn },
        fed: ready.len(),
        ..c
    };
    assert(blocking::drain_once(c, false) == blocking::Part::More(done));
    assert(blocking::drain(done, false) == blocking::finish(done));
}

/// The PLAIN handshake of a blocking driver, with the greeting, a HELLO and the
/// READY of a peer that fits read at once, and credentials that are accepted: the
/// first poll writes the rest of the greeting, WELCOME and READY and leaves the
/// peer's READY alone; the second takes it, and the connection is established.
pub proof fn law_blocking_plain_handshake(
    v: SessionView,
    g: Seq<u8>,
    hello: Seq<u8>,
    ready: Seq<u8>,
)
    requires
        v == session::fresh(v.role, Mechanism::Plain, v.frame_cap, v.max_entries, v.max_len),
        g.len() == greeting::GREETING_LEN,
        greeting::greeting_verdict(Mechanism::Plain, g) is Ok,
        laws::good_ready(v.role, v.frame_cap, ready),
        laws::hello_in(v.frame_cap, hello) is Some,
        hello.len() <= usize::MAX,
    ensures
        ({
            let headed = session::write_head_step(v, greeting::GREETING_LEN as nat).after;
            let asked = blocking::poll_of(blocking::blocking_start(headed), false);
            let first = blocking::received_of(asked.after, g + (hello + ready), false);
            let second = blocking::wrote_of(first.after, true);
            let third = blocking::wrote_of(second.after, false);
            let fourth = blocking::wrote_of(third.after, false);
            let fifth = blocking::poll_of(fourth.after, false);
            &&& asked.result == Ok::<Ask, ConnError>(Ask::Read)
            &&& first.asked is None
            &&& first.result == Ok::<Ask, ConnError>(
                Ask::Write(
                    greeting::our_greeting(Mechanism::Plain).skip(
                        greeting::GREETING_PARTIAL_LEN as int,
                    ),
                ),
            )
            &&& second.asked == laws::hello_in(v.frame_cap, hello)
            &&& second.result == Ok::<Ask, ConnError>(Ask::Write(plain::WELCOME_FRAME@))
            &&& third.result == Ok::<Ask, ConnError>(Ask::Write(null::our_ready(v.role)))
            &&& fourth.result == Ok::<Ask, ConnError>(Ask::Done(false))
            &&& fourth.after.rx == ready
            &&& fifth.result == Ok::<Ask, ConnError>(Ask::Done(true))
            &&& fifth.after.rx.len() == 0
        }),
{
    let wire = g + (hello + ready);
    let headed = session::write_head_step(v, greeting::GREETING_LEN as nat).after;
    let asked = blocking::poll_of(blocking::blocking_start(headed), false);
    assert(asked.after.rx + wire =~= wire);
    let start = BlockingView { conn: headed, rx: wire, fed: 0, stage: Stage::Idle };
    lemma_blocking_greeting(start, g, hello + ready);
    let first = blocking::received_of(asked.after, wire, false);
    assert(wire.skip(64) =~= hello + ready);
    lemma_blocking_hello(first.after, hello, ready);
    let second = blocking::wrote_of(first.after, true);
    let third = blocking::wrote_of(second.after, false);
    let sent = session::write_ready_step(second.after.conn, TX_LEN as nat);
    assert(third.after == (BlockingView { conn: sent.after, stage: Stage::Ready, ..second.after }));
    let fourth = blocking::wrote_of(third.after, false);
    assert(wire.skip((64 + hello.len()) as int) =~= ready);
    assert(fourth.after == (BlockingView {
        conn: sent.after,
        rx: ready,
        fed: 0,
        stage: Stage::Idle,
    }));
    lemma_blocking_ready(fourth.after, ready);
}

/// A HELLO with credentials that are accepted, and `rest` after it, drained by a
/// blocking driver that waits for it.
proof fn lemma_blocking_hello(
    c: BlockingView,
    hello: Seq<u8>,
    rest: Seq<u8>,
)
    requires
        c.conn.state == State::PlainHello,
        !c.conn.welcome_sent,
        c.conn.decoder == crate::frame::decoder_start(),
        laws::hello_in(c.conn.frame_cap, hello) is Some,
        hello.len() <= usize::MAX,
        c.fed < c.rx.len(),
        c.rx.skip(c.fed as int) == hello + rest,
    ensures
        blocking::drain(c, true) == (blocking::PollOutcome {
            after: BlockingView {
                conn: SessionView { state: State::PlainReady, welcome_sent: true, ..c.conn },
                fed: c.fed + hello.len(),
                stage: Stage::Welcome,
                ..c
            },
            result: Ok(Ask::Write(plain::WELCOME_FRAME@)),
            asked: laws::hello_in(c.conn.frame_cap, hello),
        }),
{
    reveal(blocking::drain);
    reveal(blocking::drain_once);
    lemma_hello_taken(c.conn, hello, rest, true);
}

} // verus!
