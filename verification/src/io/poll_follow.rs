//! A blocking driver follows its session: what a poll comes to is what feeding the received
//! bytes comes to, and what it writes is what is due then.

use vstd::prelude::*;

use crate::connection::{ConnError, State};
use crate::io::blocking;
use crate::io::blocking::{Ask, BlockingView, PollOutcome, Stage};
use crate::session::SessionView;
use crate::{greeting, laws, null, promises, session};

verus! {

/// A poll has bytes that it has not fed, and goes on with them.
pub open spec fn feeding(c: BlockingView) -> bool {
    &&& session::consistent(c.conn)
    &&& c.fed < c.rx.len() <= usize::MAX
}

/// What feeding the rest of the received bytes comes to.
#[verifier::opaque]
pub open spec fn outcome(c: BlockingView, verdict: bool) -> session::FeedOutcome {
    session::feed_step(c.conn, c.rx.skip(c.fed as int), verdict)
}

/// Feeding takes `n` bytes, and the session is then `w`.
pub open spec fn takes(c: BlockingView, verdict: bool, n: nat, w: SessionView) -> bool {
    &&& feeding(c)
    &&& c.fed + n <= c.rx.len()
    &&& outcome(c, verdict).result == Ok::<usize, ConnError>(n as usize)
    &&& outcome(c, verdict).after == w
}

/// How a poll begins: with our READY, where it is due, and nothing else; with the bytes
/// that are there; or with a read. Bytes that were read are put after those that were
/// there.
pub proof fn law_how_a_poll_begins(c: BlockingView, new: Seq<u8>, verdict: bool)
    ensures
        ({
            let due = !c.conn.ready_sent && (c.conn.state == State::Ready || c.conn.state
                == State::PlainReady && c.conn.welcome_sent);
            let start = BlockingView { fed: 0, stage: Stage::Idle, ..c };
            let begun = blocking::poll_of(c, verdict);
            let wrote = blocking::wrote_of(begun.after, verdict);
            if due {
                &&& begun.result == Ok::<Ask, ConnError>(Ask::Write(null::our_ready(c.conn.role)))
                &&& begun.asked is None
                &&& wrote == (PollOutcome {
                    after: BlockingView {
                        conn: SessionView { ready_sent: true, ..c.conn },
                        ..start
                    },
                    result: Ok(Ask::Done(false)),
                    asked: None,
                })
            } else if c.rx.len() > 0 {
                begun == blocking::drain(start, verdict)
            } else {
                begun == (PollOutcome { after: start, result: Ok(Ask::Read), asked: None })
            }
        }),
        blocking::received_of(c, new, verdict) == blocking::drain(
            BlockingView { rx: c.rx + new, fed: 0, stage: Stage::Idle, ..c },
            verdict,
        ),
{
}

/// A poll that has fed all that it has is over. It says whether the session is
/// established, and drops what it has fed.
pub proof fn law_how_a_poll_ends(c: BlockingView, verdict: bool)
    requires
        c.fed == c.rx.len(),
    ensures
        blocking::drain(c, verdict) == (PollOutcome {
            after: BlockingView { rx: Seq::empty(), fed: 0, stage: Stage::Idle, ..c },
            result: Ok(Ask::Done(c.conn.state == State::Established)),
            asked: None,
        }),
{
    reveal(blocking::drain);
    assert(c.rx.skip(c.rx.len() as int) =~= Seq::<u8>::empty());
}

/// Where nothing was to be written, nothing follows from a write.
pub proof fn law_no_write_no_change(c: BlockingView, verdict: bool)
    requires
        c.stage == Stage::Idle,
    ensures
        blocking::wrote_of(c, verdict) == (PollOutcome {
            after: c,
            result: Ok(Ask::Done(c.conn.state == State::Established)),
            asked: None,
        }),
{
}

/// Where feeding fails the session, the peer is told with an ERROR, as far as that works,
/// and the poll fails with the error.
#[verifier::rlimit(40)]
pub proof fn law_failure_is_told(c: BlockingView, verdict: bool)
    requires
        feeding(c),
        outcome(c, verdict).result is Err,
        outcome(c, verdict).after.state == State::Failed,
    ensures
        ({
            let fed = outcome(c, verdict);
            let first = blocking::drain(c, verdict);
            let second = blocking::wrote_of(first.after, verdict);
            &&& first.result == Ok::<Ask, ConnError>(Ask::Farewell(promises::refusal_bytes()))
            &&& first.asked == fed.asked
            &&& second.result == Err::<Ask, ConnError>(fed.result->Err_0)
            &&& second.after == (BlockingView { conn: fed.after, stage: Stage::Idle, ..c })
        }),
{
    reveal(blocking::drain);
    reveal(blocking::drain_once);
    reveal(outcome);
    reveal(session::digest);
    promises::law_when_commands_are_written(outcome(c, verdict).after, 64);
}

/// Where feeding is refused and the session has not failed, the poll fails with the same
/// error, and the bytes stay.
pub proof fn law_refusal_ends_the_poll(c: BlockingView, verdict: bool)
    requires
        feeding(c),
        outcome(c, verdict).result is Err,
        outcome(c, verdict).after.state != State::Failed,
    ensures
        blocking::drain(c, verdict) == (PollOutcome {
            after: BlockingView { conn: outcome(c, verdict).after, stage: Stage::Idle, ..c },
            result: Err(outcome(c, verdict).result->Err_0),
            asked: outcome(c, verdict).asked,
        }),
{
    reveal(blocking::drain);
    reveal(blocking::drain_once);
    reveal(outcome);
    reveal(session::digest);
}

/// What is due once nothing is left to write of our greeting, in a poll that came from the
/// state `was`: with the greetings over, READY, which ends the poll; after HELLO, WELCOME
/// and then READY, which ends it too; a PONG, whatever its context, after which the poll
/// goes on. Otherwise the poll goes on, or is over where nothing was fed.
pub open spec fn settles(
    o: PollOutcome,
    next: BlockingView,
    was: State,
    more: bool,
    asked: Option<(Seq<u8>, Seq<u8>)>,
    verdict: bool,
) -> bool {
    let w = next.conn;
    let over = PollOutcome {
        after: BlockingView {
            conn: SessionView { ready_sent: true, ..w },
            rx: next.rx.skip(next.fed as int),
            fed: 0,
            stage: Stage::Idle,
        },
        result: Ok(Ask::Done(false)),
        asked: None,
    };
    let second = blocking::wrote_of(o.after, verdict);
    let third = blocking::wrote_of(second.after, verdict);
    if w.state == State::Ready && was != State::Ready {
        &&& o.result == Ok::<Ask, ConnError>(Ask::Write(null::our_ready(w.role)))
        &&& o.asked == asked
        &&& second == over
    } else if w.state == State::PlainReady && was != State::PlainReady {
        &&& o.result == Ok::<Ask, ConnError>(
            Ask::Write(seq![4u8, 8, 7, 0x57, 0x45, 0x4C, 0x43, 0x4F, 0x4D, 0x45]),
        )
        &&& o.asked == asked
        &&& second.result == Ok::<Ask, ConnError>(Ask::Write(null::our_ready(w.role)))
        &&& third == (PollOutcome {
            after: BlockingView {
                conn: SessionView { welcome_sent: true, ready_sent: true, ..w },
                ..over.after
            },
            ..over
        })
    } else if w.pong is Some {
        &&& o.result == Ok::<Ask, ConnError>(Ask::Write(promises::pong_bytes(w.pong->Some_0)))
        &&& o.asked == asked
        &&& more ==> second == blocking::drain(
            BlockingView {
                conn: SessionView { pong: None, ..w },
                stage: Stage::Pong(true),
                ..next
            },
            verdict,
        )
    } else if more {
        o == blocking::drain(next, verdict)
    } else {
        o == (PollOutcome {
            after: BlockingView {
                rx: next.rx.skip(next.fed as int),
                fed: 0,
                stage: Stage::Idle,
                ..next
            },
            result: Ok(Ask::Done(w.state == State::Established)),
            asked,
        })
    }
}

/// Settling writes what is due.
proof fn lemma_settles(
    part: blocking::Part,
    next: BlockingView,
    was: State,
    more: bool,
    asked: Option<(Seq<u8>, Seq<u8>)>,
    verdict: bool,
    o: PollOutcome,
)
    requires
        session::consistent(next.conn),
        part == blocking::having_asked(blocking::settle(next, was, more), asked),
        next.conn.state == State::Ready && was != State::Ready ==> !next.conn.ready_sent,
        next.conn.state == State::PlainReady && was != State::PlainReady ==> {
            &&& !next.conn.welcome_sent
            &&& !next.conn.ready_sent
        },
        o == match part {
            blocking::Part::Stop(outcome) => outcome,
            blocking::Part::More(then) => blocking::drain(then, verdict),
        },
    ensures
        settles(o, next, was, more, asked, verdict),
{
    promises::law_when_a_pong_is_written(next.conn, 64);
    promises::law_when_commands_are_written(next.conn, 64);
}

/// What a poll comes to that takes `n` bytes: the rest of our greeting is written where it
/// is due, and then what follows from that; otherwise what is due is written, and where
/// nothing is, the poll goes on with the bytes after these.
#[verifier::rlimit(40)]
pub proof fn law_poll_goes_on(c: BlockingView, verdict: bool, n: nat, w: SessionView)
    requires
        takes(c, verdict, n, w),
    ensures
        ({
            let next = BlockingView { conn: w, fed: c.fed + n, stage: Stage::Idle, ..c };
            let o = blocking::drain(c, verdict);
            let asked = outcome(c, verdict).asked;
            if w.state == State::Greeting && w.head_sent && !w.greeting_sent
                && w.peer_greeting.len() >= 11 {
                let then = BlockingView {
                    conn: session::write_rest_step(w, 64).after,
                    stage: Stage::Rest(n > 0),
                    ..next
                };
                &&& o == (PollOutcome {
                    after: then,
                    result: Ok(Ask::Write(greeting::our_greeting(w.mechanism).skip(11))),
                    asked: None,
                })
                &&& settles(
                    blocking::wrote_of(then, verdict),
                    then,
                    State::Greeting,
                    n > 0,
                    None,
                    verdict,
                )
            } else {
                settles(o, next, c.conn.state, n > 0, asked, verdict)
            }
        }),
{
    lemma_one_feeding(c, verdict, n, w);
    let next = BlockingView { conn: w, fed: c.fed + n, stage: Stage::Idle, ..c };
    let asked = outcome(c, verdict).asked;
    if session::rest_pending(w) {
        lemma_rest_settles(next, n > 0, verdict);
    } else {
        let part = blocking::settle(next, c.conn.state, n > 0);
        lemma_settles(
            blocking::having_asked(part, asked),
            next,
            c.conn.state,
            n > 0,
            asked,
            verdict,
            blocking::drain(c, verdict),
        );
    }
}

/// What is due once the rest of our greeting has been written.
proof fn lemma_rest_settles(next: BlockingView, more: bool, verdict: bool)
    requires
        session::consistent(next.conn),
        session::rest_pending(next.conn),
    ensures
        ({
            let rest = session::write_rest_step(next.conn, 64);
            let then = BlockingView { conn: rest.after, stage: Stage::Rest(more), ..next };
            &&& rest.bytes == greeting::our_greeting(next.conn.mechanism).skip(11)
            &&& settles(
                blocking::wrote_of(then, verdict),
                then,
                State::Greeting,
                more,
                None,
                verdict,
            )
        }),
{
    let rest = session::write_rest_step(next.conn, 64);
    laws::law_writing_keeps_consistent(next.conn, 64);
    let then = BlockingView { conn: rest.after, stage: Stage::Rest(more), ..next };
    lemma_settles(
        blocking::having_asked(blocking::settle(then, State::Greeting, more), None),
        then,
        State::Greeting,
        more,
        None,
        verdict,
        blocking::wrote_of(then, verdict),
    );
}

/// One feeding of a poll.
proof fn lemma_one_feeding(c: BlockingView, verdict: bool, n: nat, w: SessionView)
    requires
        takes(c, verdict, n, w),
    ensures
        session::consistent(w),
        w.state == State::Ready && c.conn.state != State::Ready ==> !w.ready_sent,
        w.state == State::PlainReady && c.conn.state != State::PlainReady ==> !w.welcome_sent
            && !w.ready_sent,
        ({
            let next = BlockingView { conn: w, fed: c.fed + n, stage: Stage::Idle, ..c };
            let asked = outcome(c, verdict).asked;
            let o = blocking::drain(c, verdict);
            if session::rest_pending(w) {
                o == blocking::ask_write(
                    next,
                    session::write_rest_step(w, 64),
                    Stage::Rest(n > 0),
                )
            } else {
                o == match blocking::having_asked(
                    blocking::settle(next, c.conn.state, n > 0),
                    asked,
                ) {
                    blocking::Part::Stop(stopped) => stopped,
                    blocking::Part::More(then) => blocking::drain(then, verdict),
                }
            }
        }),
{
    reveal(outcome);
    let input = c.rx.skip(c.fed as int);
    assert(session::digest(c.conn, input, verdict) == outcome(c, verdict)) by {
        reveal(session::digest);
    }
    laws::lemma_digest(c.conn, input, verdict);
    reveal(blocking::drain);
    reveal(blocking::drain_once);
}

/// A PING of a 3.1 peer, in whatever form and with whatever data, that a blocking driver
/// reads, or has read before the poll, is answered with the PONG that has its context;
/// after that the poll goes on with the bytes that follow.
pub proof fn law_blocking_driver_answers_ping(
    c: BlockingView,
    wire: Seq<u8>,
    data: Seq<u8>,
    rest: Seq<u8>,
    verdict: bool,
)
    requires
        session::consistent(c.conn),
        laws::at_rest(c.conn),
        c.conn.pong is None,
        session::peer_minor(c.conn) >= 1,
        laws::says(c.conn.frame_cap, wire, seq![0x50u8, 0x49, 0x4E, 0x47], data),
        wire.len() + rest.len() <= usize::MAX,
    ensures
        ({
            let answer = Ok::<Ask, ConnError>(Ask::Write(promises::pong_bytes(promises::context_bytes(data))));
            let read = blocking::received_of(
                BlockingView { rx: Seq::empty(), ..c },
                wire + rest,
                verdict,
            );
            let had = blocking::poll_of(BlockingView { rx: wire + rest, ..c }, verdict);
            let then = BlockingView {
                rx: wire + rest,
                fed: wire.len(),
                stage: Stage::Pong(true),
                ..c
            };
            &&& read.result == answer
            &&& had.result == answer
            &&& blocking::wrote_of(read.after, verdict) == blocking::drain(then, verdict)
            &&& blocking::wrote_of(had.after, verdict) == blocking::drain(then, verdict)
        }),
{
    let all = wire + rest;
    let start = BlockingView { rx: all, fed: 0, stage: Stage::Idle, ..c };
    assert(Seq::<u8>::empty() + all =~= all);
    assert(start.rx.skip(0) =~= all);
    reveal(outcome);
    promises::law_ping_asks_for_a_pong(c.conn, wire, data, rest, verdict);
    let w = SessionView { pong: Some(promises::context_bytes(data)), ..c.conn };
    assert(wire.len() > 0);
    law_poll_goes_on(start, verdict, wire.len(), w);
    assert((SessionView { pong: None, ..w }) == c.conn);
}

} // verus!
