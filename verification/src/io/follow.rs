//! A driver follows its session: what a step comes to is what feeding the received bytes
//! comes to, and what it writes is what is due then.

use vstd::prelude::*;

use crate::connection::{ConnError, State};
use crate::io::driver;
use crate::io::driver::{CoreView, DriverPhase, StepOutcome, Todo};
use crate::null::Role;
use crate::session::SessionView;
use crate::{greeting, laws, null, promises, session};

verus! {

/// The core has nothing to write, and what it does next is to feed what it has received:
/// it waits for the peer's greeting, its HELLO or its READY, none of which is there yet,
/// or it is established.
pub open spec fn feeds(c: CoreView) -> bool {
    &&& session::consistent(c.conn)
    &&& c.rx.len() <= usize::MAX
    &&& c.tx.len() == 0
    &&& match c.phase {
        DriverPhase::AwaitingPeerGreeting => c.conn.state != State::Ready && c.conn.state
            != State::PlainHello,
        DriverPhase::AwaitingPlainHello => true,
        DriverPhase::AwaitingPeerReady => c.conn.state != State::Established,
        DriverPhase::AwaitingPlainReady => c.conn.state != State::Established,
        DriverPhase::Established => true,
        _ => false,
    }
}

/// A step of such a core, in terms of the first feeding.
proof fn lemma_first_turn(c: CoreView, verdict: bool)
    requires
        feeds(c),
        c.rx.len() > 0,
    ensures
        ({
            let once = driver::turn(c, 0, verdict);
            let ran = match once.result {
                Ok((n, more)) => if more {
                    driver::run(once.after, n, verdict)
                } else {
                    driver::RunOutcome { after: once.after, result: Ok(n), asked: once.asked }
                },
                Err(e) => driver::RunOutcome {
                    after: once.after,
                    result: Err(e),
                    asked: once.asked,
                },
            };
            &&& driver::run(c, 0, verdict) == ran
            &&& driver::step_of(c, verdict) == driver::feed_some(c, verdict)
        }),
{
    reveal(driver::run);
}

/// A core with bytes to write writes them, all of them, before it does anything else.
pub proof fn law_bytes_to_write_go_first(c: CoreView, verdict: bool)
    requires
        c.tx.len() > 0,
    ensures
        driver::step_of(c, verdict) == (StepOutcome {
            after: CoreView { tx: Seq::empty(), ..c },
            result: Ok(Todo::Write(c.tx)),
            asked: None,
        }),
{
}

/// A core that has written the rest of its greeting goes on waiting for the peer's; one
/// that has written READY waits for the peer's READY; one that waits for a greeting and
/// has it writes READY with NULL, and waits for HELLO with PLAIN; one that has written
/// WELCOME writes READY; one whose session is established says so.
pub proof fn law_what_follows_a_write(c: CoreView, verdict: bool)
    requires
        session::consistent(c.conn),
        c.tx.len() == 0,
    ensures
        ({
            let s = driver::step_of(c, verdict);
            let written = StepOutcome {
                after: CoreView {
                    conn: SessionView { ready_sent: true, ..c.conn },
                    phase: if c.conn.state == State::Ready {
                        DriverPhase::SendingReady
                    } else {
                        DriverPhase::SendingPlainReady
                    },
                    ..c
                },
                result: Ok(Todo::Write(null::our_ready(c.conn.role))),
                asked: None,
            };
            match c.phase {
                DriverPhase::SendingGreetingRest => s == driver::step_of(
                    CoreView { phase: DriverPhase::AwaitingPeerGreeting, ..c },
                    verdict,
                ),
                DriverPhase::SendingReady => s == driver::step_of(
                    CoreView { phase: DriverPhase::AwaitingPeerReady, ..c },
                    verdict,
                ),
                DriverPhase::SendingPlainReady => s == driver::step_of(
                    CoreView { phase: DriverPhase::AwaitingPlainReady, ..c },
                    verdict,
                ),
                DriverPhase::SendingPlainWelcome => c.conn.state == State::PlainReady
                    && c.conn.welcome_sent && !c.conn.ready_sent ==> s == written,
                DriverPhase::AwaitingPeerGreeting => {
                    &&& c.conn.state == State::Ready && !c.conn.ready_sent ==> s == written
                    &&& c.conn.state == State::PlainHello ==> s == driver::step_of(
                        CoreView { phase: DriverPhase::AwaitingPlainHello, ..c },
                        verdict,
                    )
                },
                DriverPhase::AwaitingPeerReady | DriverPhase::AwaitingPlainReady => c.conn.state
                    == State::Established ==> s == (StepOutcome {
                    after: CoreView { phase: DriverPhase::Established, ..c },
                    result: Ok(Todo::Established),
                    asked: None,
                }),
                _ => true,
            }
        }),
{
    reveal(driver::feed_some);
    assert(c.tx =~= Seq::<u8>::empty());
}

/// A core that has nothing to feed reads.
pub proof fn law_without_bytes_it_reads(c: CoreView, verdict: bool)
    requires
        feeds(c),
        c.rx.len() == 0,
    ensures
        driver::step_of(c, verdict) == (StepOutcome {
            after: c,
            result: Ok(Todo::Read),
            asked: None,
        }),
{
    reveal(driver::feed_some);
}

/// Where feeding fails the session, the peer is told with an ERROR, the error comes with
/// the next step, and after that no step does anything.
#[verifier::rlimit(40)]
pub proof fn law_failure_is_answered(c: CoreView, verdict: bool)
    requires
        feeds(c),
        c.rx.len() > 0,
        session::feed_step(c.conn, c.rx, verdict).result is Err,
        session::feed_step(c.conn, c.rx, verdict).after.state == State::Failed,
    ensures
        ({
            let fed = session::feed_step(c.conn, c.rx, verdict);
            let e = fed.result->Err_0;
            let first = driver::step_of(c, verdict);
            let second = driver::step_of(first.after, verdict);
            let third = driver::step_of(second.after, verdict);
            &&& first.result == Ok::<Todo, ConnError>(Todo::Write(promises::refusal_bytes()))
            &&& first.asked == fed.asked
            &&& first.after.conn == fed.after
            &&& second.result == Err::<Todo, ConnError>(e)
            &&& second.after.conn == fed.after
            &&& third.result == Err::<Todo, ConnError>(ConnError::WrongState)
            &&& third.after == second.after
        }),
{
    reveal(driver::feed_some);
    reveal(driver::turn);
    reveal(session::digest);
    lemma_first_turn(c, verdict);
    assert(c.rx.skip(0) =~= c.rx);
    promises::law_when_commands_are_written(session::feed_step(c.conn, c.rx, verdict).after, 64);
}

/// Where feeding is refused and the session has not failed, the step is refused with the
/// same error, and the bytes stay.
pub proof fn law_refusal_is_passed_on(c: CoreView, verdict: bool)
    requires
        feeds(c),
        c.rx.len() > 0,
        session::feed_step(c.conn, c.rx, verdict).result is Err,
        session::feed_step(c.conn, c.rx, verdict).after.state != State::Failed,
    ensures
        ({
            let fed = session::feed_step(c.conn, c.rx, verdict);
            driver::step_of(c, verdict) == (StepOutcome {
                after: CoreView { conn: fed.after, ..c },
                result: Err(fed.result->Err_0),
                asked: fed.asked,
            })
        }),
{
    reveal(driver::feed_some);
    reveal(driver::turn);
    reveal(session::digest);
    lemma_first_turn(c, verdict);
    assert(c.rx.skip(0) =~= c.rx);
}

/// Feeding takes `n` bytes, at least one, and the session is then `w`.
pub open spec fn takes(c: CoreView, verdict: bool, n: nat, w: SessionView) -> bool {
    &&& feeds(c)
    &&& 0 < n <= c.rx.len()
    &&& session::feed_step(c.conn, c.rx, verdict).result == Ok::<usize, ConnError>(n as usize)
    &&& session::feed_step(c.conn, c.rx, verdict).after == w
}

/// The step writes `bytes`, having taken `n` bytes.
pub open spec fn step_writes(
    c: CoreView,
    verdict: bool,
    n: nat,
    conn: SessionView,
    phase: DriverPhase,
    bytes: Seq<u8>,
) -> bool {
    driver::step_of(c, verdict) == (StepOutcome {
        after: CoreView { conn, rx: c.rx.skip(n as int), tx: Seq::empty(), phase, ..c },
        result: Ok(Todo::Write(bytes)),
        asked: session::feed_step(c.conn, c.rx, verdict).asked,
    })
}

/// A turn that has something to write.
proof fn lemma_turn_writes(c: CoreView, verdict: bool, n: nat, w: SessionView)
    requires
        takes(c, verdict, n, w),
    ensures
        ({
            let due = driver::reply(CoreView { conn: w, ..c }, c.conn.state);
            due is Some && due->Some_0.tx.len() > 0 ==> step_writes(
                c,
                verdict,
                n,
                due->Some_0.conn,
                due->Some_0.phase,
                due->Some_0.tx,
            )
        }),
{
    reveal(driver::feed_some);
    reveal(driver::turn);
    reveal(session::digest);
    lemma_first_turn(c, verdict);
    assert(c.rx.skip(0) =~= c.rx);
}

/// Once the peer has begun to greet, the rest of our greeting is written, if it has not
/// been; the session notes that.
pub proof fn law_rest_of_the_greeting_is_written(
    c: CoreView,
    verdict: bool,
    n: nat,
    w: SessionView,
)
    requires
        takes(c, verdict, n, w),
        w.state == State::Greeting,
        w.head_sent,
        !w.greeting_sent,
        w.peer_greeting.len() >= 11,
    ensures
        step_writes(
            c,
            verdict,
            n,
            session::write_rest_step(w, 64).after,
            DriverPhase::SendingGreetingRest,
            greeting::our_greeting(w.mechanism).skip(11),
        ),
{
    lemma_turn_writes(c, verdict, n, w);
    greeting::lemma_our_greeting_len(w.mechanism);
}

/// Once the greetings are over with NULL, READY is written: at once by a RADIO driver and
/// by one whose greeting had been written whole; by any other with the next step, which
/// fails where bytes are left.
pub proof fn law_ready_follows_the_greetings(
    c: CoreView,
    verdict: bool,
    n: nat,
    w: SessionView,
)
    requires
        takes(c, verdict, n, w),
        c.conn.state == State::Greeting,
        w.state == State::Ready,
    ensures
        ({
            let s = driver::step_of(c, verdict);
            if c.whole || c.conn.role == Role::Radio {
                step_writes(
                    c,
                    verdict,
                    n,
                    SessionView { ready_sent: true, ..w },
                    DriverPhase::SendingReady,
                    null::our_ready(w.role),
                )
            } else if c.rx.len() == n {
                &&& s.result == Ok::<Todo, ConnError>(Todo::Read)
                &&& s.after == (CoreView { conn: w, rx: Seq::empty(), ..c })
            } else {
                &&& s.result == Err::<Todo, ConnError>(ConnError::WrongState)
                &&& s.after == (CoreView { conn: w, ..c })
            }
        }),
{
    laws::law_feed_keeps_consistent(c.conn, c.rx, verdict);
    lemma_turn_writes(c, verdict, n, w);
    assert(!w.ready_sent);
    if !(c.whole || c.conn.role == Role::Radio) {
        reveal(driver::feed_some);
        reveal(driver::turn);
        reveal(session::digest);
        lemma_first_turn(c, verdict);
        assert(c.rx.skip(0) =~= c.rx);
        reveal(driver::run);
        let next = CoreView { conn: w, ..c };
        assert(driver::turn(c, 0, verdict).after == next);
        assert(c.rx.skip(c.rx.len() as int) =~= Seq::<u8>::empty());
    }
}

/// Once the credentials of a peer are accepted, WELCOME is written, and with the next
/// step READY.
pub proof fn law_welcome_and_ready_follow_hello(
    c: CoreView,
    verdict: bool,
    n: nat,
    w: SessionView,
)
    requires
        takes(c, verdict, n, w),
        c.conn.state == State::PlainHello,
        w.state == State::PlainReady,
    ensures
        ({
            let first = driver::step_of(c, verdict);
            let second = driver::step_of(first.after, verdict);
            &&& first.result == Ok::<Todo, ConnError>(
                Todo::Write(seq![4u8, 8, 7, 0x57, 0x45, 0x4C, 0x43, 0x4F, 0x4D, 0x45]),
            )
            &&& first.asked == session::feed_step(c.conn, c.rx, verdict).asked
            &&& second.result == Ok::<Todo, ConnError>(Todo::Write(null::our_ready(w.role)))
            &&& second.after == (CoreView {
                conn: SessionView { welcome_sent: true, ready_sent: true, ..w },
                rx: c.rx.skip(n as int),
                tx: Seq::empty(),
                phase: DriverPhase::SendingPlainReady,
                ..c
            })
        }),
{
    laws::law_feed_keeps_consistent(c.conn, c.rx, verdict);
    lemma_turn_writes(c, verdict, n, w);
    promises::law_when_commands_are_written(w, 64);
}

/// A PONG that is due is written, whatever its context, before more bytes are fed.
pub proof fn law_pong_is_written_at_once(
    c: CoreView,
    verdict: bool,
    n: nat,
    w: SessionView,
    context: Seq<u8>,
)
    requires
        takes(c, verdict, n, w),
        w.pong == Some(context),
    ensures
        driver::step_of(c, verdict) == (StepOutcome {
            after: CoreView {
                conn: SessionView { pong: None, ..w },
                rx: c.rx.skip(n as int),
                tx: Seq::empty(),
                ..c
            },
            result: Ok(Todo::Write(promises::pong_bytes(context))),
            asked: None,
        }),
{
    laws::law_feed_keeps_consistent(c.conn, c.rx, verdict);
    laws::law_handshake_moves_forward(c.conn, c.rx, verdict);
    session::lemma_verdict_matters_when_asked(c.conn, c.rx, verdict);
    lemma_turn_writes(c, verdict, n, w);
    promises::law_when_a_pong_is_written(w, 64);
}

/// Feeding goes on in a buffer as it does in what is left of it. Where the session is
/// established, the phase plays no part.
proof fn lemma_run_on(c: CoreView, d: CoreView, n: nat, k: nat, verdict: bool)
    requires
        session::consistent(c.conn),
        c.rx.len() <= usize::MAX,
        n <= c.rx.len(),
        k <= d.rx.len(),
        d == (CoreView { rx: c.rx.skip(n as int), phase: d.phase, ..c }),
        c.phase == d.phase || c.conn.state == State::Established,
        c.tx.len() == 0,
    ensures
        ({
            let one = driver::run(c, n + k, verdict);
            let two = driver::run(d, k, verdict);
            &&& one.asked == two.asked
            &&& one.after == (CoreView {
                rx: c.rx,
                phase: if c.phase == d.phase {
                    two.after.phase
                } else {
                    c.phase
                },
                ..two.after
            })
            &&& two.after.rx == d.rx
            &&& match two.result {
                Ok(m) => one.result == Ok::<nat, ConnError>(n + m) && m <= d.rx.len(),
                Err(e) => one.result == Err::<nat, ConnError>(e),
            }
            &&& c.phase != d.phase ==> two.after.phase == d.phase && two.after.conn.state
                == State::Established
        }),
    decreases d.rx.len() - k,
{
    reveal(driver::run);
    if k < d.rx.len() {
        let input = d.rx.skip(k as int);
        assert(c.rx.skip((n + k) as int) =~= input);
        lemma_turn_alike(c, d, n, k, verdict);
        let one = driver::turn(c, n + k, verdict);
        let two = driver::turn(d, k, verdict);
        if let Ok((m, more)) = two.result {
            if more {
                lemma_run_on(one.after, two.after, n, m, verdict);
            }
        }
    }
}

/// One turn of the same.
proof fn lemma_turn_alike(c: CoreView, d: CoreView, n: nat, k: nat, verdict: bool)
    requires
        session::consistent(c.conn),
        c.rx.len() <= usize::MAX,
        n <= c.rx.len(),
        k < d.rx.len(),
        d == (CoreView { rx: c.rx.skip(n as int), phase: d.phase, ..c }),
        c.phase == d.phase || c.conn.state == State::Established,
        c.tx.len() == 0,
        c.rx.skip((n + k) as int) == d.rx.skip(k as int),
    ensures
        ({
            let one = driver::turn(c, n + k, verdict);
            let two = driver::turn(d, k, verdict);
            &&& one.asked == two.asked
            &&& one.after == (CoreView {
                rx: c.rx,
                phase: if c.phase == d.phase {
                    two.after.phase
                } else {
                    c.phase
                },
                ..two.after
            })
            &&& two.after.rx == d.rx
            &&& session::consistent(two.after.conn)
            &&& match two.result {
                Ok((m, more)) => {
                    &&& one.result == Ok::<(nat, bool), ConnError>((n + m, more))
                    &&& k <= m <= d.rx.len()
                    &&& more ==> k < m && two.after.tx.len() == 0
                },
                Err(e) => one.result == Err::<(nat, bool), ConnError>(e),
            }
            &&& c.phase != d.phase ==> two.after.phase == d.phase && two.after.conn.state
                == State::Established
        }),
{
    reveal(driver::turn);
    let input = d.rx.skip(k as int);
    laws::lemma_digest(c.conn, input, verdict);
    let w = session::digest(c.conn, input, verdict).after;
    laws::law_writing_keeps_consistent(w, 64);
    if c.conn.state == State::Established {
        reveal(session::digest);
        laws::law_established_is_kept(c.conn, input, verdict);
    }
}

/// The phase in which a core is once it has taken the bytes that leave its session as `w`.
pub open spec fn phase_after(c: CoreView, w: SessionView) -> DriverPhase {
    if w.state == State::PlainHello && c.conn.state == State::Greeting {
        DriverPhase::AwaitingPlainHello
    } else {
        c.phase
    }
}

/// What a step comes to that goes on after `n` bytes, which leave the session as `w`: what
/// a step comes to of the core that has only the bytes after them. The two differ in two
/// things: a step that is refused drops nothing, and a step that sees the session become
/// established says so where the other would read.
pub open spec fn goes_on(c: CoreView, verdict: bool, n: nat, w: SessionView) -> bool {
    let s = driver::step_of(c, verdict);
    let p = phase_after(c, w);
    let ended = driver::awaits_ready(p) && w.state == State::Established;
    let t = driver::step_of(
        CoreView {
            conn: w,
            rx: c.rx.skip(n as int),
            phase: if ended {
                DriverPhase::Established
            } else {
                p
            },
            ..c
        },
        verdict,
    );
    let phase = if ended {
        p
    } else {
        t.after.phase
    };
    &&& s.asked == t.asked
    &&& match t.result {
        Err(_) => s.result == t.result && s.after == (CoreView {
            rx: c.rx,
            phase,
            ..t.after
        }),
        Ok(Todo::Write(_)) => s.result == t.result && s.after == (CoreView {
            phase,
            ..t.after
        }),
        _ => s.after == t.after && s.result == if ended {
            Ok::<Todo, ConnError>(Todo::Established)
        } else {
            t.result
        },
    }
}

/// Where what was fed leaves nothing to write, the step goes on with the bytes after it.
pub proof fn law_step_goes_on(c: CoreView, verdict: bool, n: nat, w: SessionView)
    requires
        takes(c, verdict, n, w),
        driver::awaits_ready(c.phase) ==> c.conn.state != State::Greeting,
        !session::rest_pending(w),
        c.conn.state == State::Greeting ==> w.state != State::Ready,
        c.conn.state == State::PlainHello ==> w.state == State::PlainHello,
        w.pong is None,
    ensures
        goes_on(c, verdict, n, w),
{
    lemma_nothing_to_write(c, verdict, n, w);
    lemma_two_steps(c, verdict, n, w);
}

/// The first turn of a step that goes on.
proof fn lemma_nothing_to_write(c: CoreView, verdict: bool, n: nat, w: SessionView)
    requires
        takes(c, verdict, n, w),
        !session::rest_pending(w),
        c.conn.state == State::Greeting ==> w.state != State::Ready,
        c.conn.state == State::PlainHello ==> w.state == State::PlainHello,
        w.pong is None,
    ensures
        driver::run(c, 0, verdict) == driver::run(
            CoreView { conn: w, phase: phase_after(c, w), ..c },
            n,
            verdict,
        ),
        session::consistent(w),
        w.state == c.conn.state || c.conn.state == State::Greeting && w.state
            == State::PlainHello || w.state == State::Established,
{
    laws::law_feed_keeps_consistent(c.conn, c.rx, verdict);
    laws::law_handshake_moves_forward(c.conn, c.rx, verdict);
    session::lemma_verdict_matters_when_asked(c.conn, c.rx, verdict);
    assert(session::feed_step(c.conn, c.rx, verdict).asked is None);
    assert(w.state != State::Failed || c.conn.state == State::Failed);
    lemma_first_turn(c, verdict);
    let next = CoreView { conn: w, phase: phase_after(c, w), ..c };
    assert(driver::turn(c, 0, verdict).after == next && driver::turn(c, 0, verdict).result == Ok::<
        (nat, bool),
        ConnError,
    >((n, true))) by {
        reveal(driver::turn);
        reveal(session::digest);
        assert(c.rx.skip(0) =~= c.rx);
    }
}

/// A step that goes on, and the step of the core that has only the bytes after.
#[verifier::rlimit(40)]
proof fn lemma_two_steps(c: CoreView, verdict: bool, n: nat, w: SessionView)
    requires
        feeds(c),
        0 < n <= c.rx.len(),
        driver::awaits_ready(c.phase) ==> c.conn.state != State::Greeting,
        c.conn.state == State::Greeting ==> w.state != State::Ready,
        session::consistent(w),
        w.state == c.conn.state || c.conn.state == State::Greeting && w.state
            == State::PlainHello || w.state == State::Established,
        driver::run(c, 0, verdict) == driver::run(
            CoreView { conn: w, phase: phase_after(c, w), ..c },
            n,
            verdict,
        ),
    ensures
        goes_on(c, verdict, n, w),
{
    let p = phase_after(c, w);
    let ended = driver::awaits_ready(p) && w.state == State::Established;
    let next = CoreView { conn: w, phase: p, ..c };
    let d = CoreView {
        conn: w,
        rx: c.rx.skip(n as int),
        phase: if ended {
            DriverPhase::Established
        } else {
            p
        },
        ..c
    };
    lemma_run_on(next, d, n, 0, verdict);
    lemma_step_feeds(c, verdict);
    lemma_step_feeds(d, verdict);
    let two = driver::run(d, 0, verdict);
    if d.rx.len() == 0 {
        reveal(driver::run);
    }
    assert(ended ==> two.after.conn.state == State::Established);
    lemma_two_runs(c, d, p, n, verdict, ended);
}

/// A core that feeds does so in its next step.
proof fn lemma_step_feeds(c: CoreView, verdict: bool)
    requires
        feeds(c),
    ensures
        driver::step_of(c, verdict) == driver::feed_some(c, verdict),
        driver::awaits_ready(c.phase) ==> c.conn.state != State::Established,
{
}

/// The steps that two runs make, the second over what the first has left.
proof fn lemma_two_runs(
    c: CoreView,
    d: CoreView,
    p: DriverPhase,
    n: nat,
    verdict: bool,
    ended: bool,
)
    requires
        driver::awaits_ready(c.phase) ==> c.conn.state != State::Established,
        0 < n <= c.rx.len(),
        d.rx == c.rx.skip(n as int),
        d.phase == if ended {
            DriverPhase::Established
        } else {
            p
        },
        !ended ==> (driver::awaits_ready(d.phase) ==> d.conn.state != State::Established),
        driver::awaits_ready(c.phase) <==> driver::awaits_ready(p),
        ended ==> driver::awaits_ready(p) && driver::run(d, 0, verdict).after.conn.state
            == State::Established,
        d.rx.len() == 0 ==> driver::run(d, 0, verdict) == (driver::RunOutcome {
            after: d,
            result: Ok(0),
            asked: None,
        }),
        d.tx.len() == 0,
        ({
            let one = driver::run(c, 0, verdict);
            let two = driver::run(d, 0, verdict);
            &&& one.asked == two.asked
            &&& one.after == (CoreView {
                rx: c.rx,
                phase: if p == d.phase {
                    two.after.phase
                } else {
                    p
                },
                ..two.after
            })
            &&& two.after.rx == d.rx
            &&& match two.result {
                Ok(m) => one.result == Ok::<nat, ConnError>(n + m) && m <= d.rx.len(),
                Err(e) => one.result == Err::<nat, ConnError>(e),
            }
            &&& p != d.phase ==> two.after.phase == d.phase
        }),
    ensures
        ({
            let s = driver::feed_some(c, verdict);
            let t = driver::feed_some(d, verdict);
            let phase = if ended {
                p
            } else {
                t.after.phase
            };
            &&& s.asked == t.asked
            &&& match t.result {
                Err(_) => s.result == t.result && s.after == (CoreView {
                    rx: c.rx,
                    phase,
                    ..t.after
                }),
                Ok(Todo::Write(_)) => s.result == t.result && s.after == (CoreView {
                    phase,
                    ..t.after
                }),
                _ => s.after == t.after && s.result == if ended {
                    Ok::<Todo, ConnError>(Todo::Established)
                } else {
                    t.result
                },
            }
        }),
{
    reveal(driver::feed_some);
    let two = driver::run(d, 0, verdict);
    if let Ok(m) = two.result {
        assert(c.rx.skip((n + m) as int) =~= d.rx.skip(m as int));
    }
    if d.rx.len() == 0 {
        assert(d.rx.skip(0) =~= d.rx);
    }
}

/// A session that has all of the peer's greeting and takes none of the bytes leaves them
/// for later.
pub proof fn law_bytes_that_wait_are_parked(c: CoreView, verdict: bool)
    requires
        feeds(c),
        c.rx.len() > 0,
        session::feed_step(c.conn, c.rx, verdict).result == Ok::<usize, ConnError>(0),
    ensures
        driver::step_of(c, verdict) == (StepOutcome {
            after: CoreView { conn: session::feed_step(c.conn, c.rx, verdict).after, ..c },
            result: Ok(Todo::Parked),
            asked: None,
        }),
{
    reveal(driver::feed_some);
    reveal(driver::turn);
    reveal(session::digest);
    lemma_first_turn(c, verdict);
    assert(c.rx.skip(0) =~= c.rx);
    laws::law_feed_consumes(c.conn, c.rx, verdict);
    laws::law_handshake_moves_forward(c.conn, c.rx, verdict);
    session::lemma_verdict_matters_when_asked(c.conn, c.rx, verdict);
}

/// A driver whose session is established and between two frames, in a phase in which it
/// takes the peer's requests.
pub open spec fn serves(c: CoreView) -> bool {
    &&& feeds(c)
    &&& laws::at_rest(c.conn)
    &&& c.phase == DriverPhase::Established
    &&& c.conn.pong is None
}

/// A PING of a 3.1 peer, in whatever form and with whatever data, is answered by the next
/// step, with the PONG that has its context; what follows it is left for later.
pub proof fn law_driver_answers_ping(
    c: CoreView,
    wire: Seq<u8>,
    data: Seq<u8>,
    rest: Seq<u8>,
    verdict: bool,
)
    requires
        serves(c),
        session::peer_minor(c.conn) >= 1,
        laws::says(c.conn.frame_cap, wire, seq![0x50u8, 0x49, 0x4E, 0x47], data),
        c.rx == wire + rest,
    ensures
        driver::step_of(c, verdict) == (StepOutcome {
            after: CoreView { rx: rest, tx: Seq::empty(), ..c },
            result: Ok(Todo::Write(promises::pong_bytes(promises::context_bytes(data)))),
            asked: None,
        }),
{
    promises::law_ping_asks_for_a_pong(c.conn, wire, data, rest, verdict);
    let w = SessionView { pong: Some(promises::context_bytes(data)), ..c.conn };
    assert(wire.len() > 0);
    law_pong_is_written_at_once(c, verdict, wire.len(), w, promises::context_bytes(data));
    assert((wire + rest).skip(wire.len() as int) =~= rest);
    assert((SessionView { pong: None, ..w }) == c.conn);
}

/// A request for an entry, in whatever form, is taken, and the step goes on with what
/// follows it.
pub proof fn law_driver_takes_requests(
    c: CoreView,
    wire: Seq<u8>,
    key: Seq<u8>,
    rest: Seq<u8>,
    verdict: bool,
)
    requires
        serves(c),
        laws::asks_to_add(c.conn, wire, key) || laws::asks_to_remove(c.conn, wire, key),
        c.rx == wire + rest,
    ensures
        ({
            let w = if laws::asks_to_add(c.conn, wire, key) {
                session::with_entry(c.conn, key)
            } else {
                session::without_entry(c.conn, key)
            };
            let s = driver::step_of(c, verdict);
            let t = driver::step_of(CoreView { conn: w, rx: rest, ..c }, verdict);
            &&& s.result == t.result
            &&& s.after.conn == t.after.conn
            &&& s.result is Ok ==> s.after == t.after
            &&& s.result is Err ==> s.after.rx == c.rx
        }),
{
    let none = Seq::<u8>::empty();
    assert(wire + none =~= wire);
    laws::law_any_request_changes_the_table(c.conn, wire, key, verdict);
    laws::law_any_frame_is_applied(c.conn, wire, none, verdict);
    laws::law_any_frame_is_applied(c.conn, wire, rest, verdict);
    let w = session::feed_step(c.conn, c.rx, verdict).after;
    assert(wire.len() > 0);
    assert((wire + rest).skip(wire.len() as int) =~= rest);
    law_step_goes_on(c, verdict, wire.len(), w);
}

} // verus!
