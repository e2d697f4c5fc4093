//! Handshakes whose bytes come in pieces: wherever the bytes of the peer are cut,
//! and whatever a driver does between two reads, the handshake ends the same.

use vstd::prelude::*;

use crate::auth::Mechanism;
use crate::connection::{ConnError, State};
use crate::frame::DecoderState;
use crate::io::driver;
use crate::io::driver::{CoreView, DriverPhase, Todo};
use crate::io::laws as io_laws;
use crate::io::laws::{lemma_hello_taken, lemma_ready_taken};
use crate::null::Role;
use crate::session::SessionView;
use crate::{frame, greeting, laws, null, plain, session};

verus! {

// ---------------------------------------------------------------------------
// The peer
// ---------------------------------------------------------------------------

/// What a peer says in a handshake.
pub struct Peer {
    /// Its greeting.
    pub greeting: Seq<u8>,
    /// Its HELLO, if it says one.
    pub hello: Seq<u8>,
    /// Its READY.
    pub ready: Seq<u8>,
}

/// The HELLO of the peer: with NULL there is none.
pub open spec fn hello(mechanism: Mechanism, p: Peer) -> Seq<u8> {
    match mechanism {
        Mechanism::Null => Seq::empty(),
        Mechanism::Plain => p.hello,
    }
}

/// The credentials in the HELLO of the peer.
pub open spec fn credentials(v: SessionView, p: Peer) -> (Seq<u8>, Seq<u8>) {
    laws::hello_in(v.frame_cap, p.hello)->Some_0
}

/// All that the peer says.
pub open spec fn speech(mechanism: Mechanism, p: Peer) -> Seq<u8> {
    p.greeting + (hello(mechanism, p) + p.ready)
}

/// The session has just begun, and nothing that the peer says is refused, as far
/// as its credentials are accepted.
pub open spec fn fits(v: SessionView, p: Peer) -> bool {
    &&& v == session::fresh(v.role, v.mechanism, v.frame_cap, v.max_entries, v.max_len)
    &&& p.greeting.len() == greeting::GREETING_LEN
    &&& greeting::greeting_verdict(v.mechanism, p.greeting) is Ok
    &&& v.mechanism == Mechanism::Plain ==> {
        &&& laws::hello_in(v.frame_cap, p.hello) is Some
        &&& p.hello.len() <= usize::MAX
    }
    &&& laws::good_ready(v.role, v.frame_cap, p.ready)
}

// ---------------------------------------------------------------------------
// Parts of what the peer says
// ---------------------------------------------------------------------------

/// Part of a good greeting, not up to its end.
pub(crate) proof fn lemma_greeting_begins(v: SessionView, g: Seq<u8>, k: int, m: int, verdict: bool)
    requires
        v.state == State::Greeting,
        v.peer_greeting == g.take(k),
        g.len() == greeting::GREETING_LEN,
        greeting::greeting_verdict(v.mechanism, g) is Ok,
        0 <= k <= m < g.len(),
    ensures
        session::digest(v, g.subrange(k, m), verdict) == (session::FeedOutcome {
            after: SessionView { peer_greeting: g.take(m), ..v },
            result: Ok((m - k) as usize),
            asked: None,
        }),
{
    reveal(session::digest);
    let input = g.subrange(k, m);
    assert(input.take(m - k) =~= input);
    assert(g.take(k) + input =~= g.take(m));
}

/// The end of a good greeting, whatever follows it.
pub(crate) proof fn lemma_greeting_ends(v: SessionView, g: Seq<u8>, k: int, rest: Seq<u8>, verdict: bool)
    requires
        v.state == State::Greeting,
        v.peer_greeting == g.take(k),
        g.len() == greeting::GREETING_LEN,
        greeting::greeting_verdict(v.mechanism, g) is Ok,
        0 <= k < g.len(),
    ensures
        session::digest(v, g.skip(k) + rest, verdict) == (session::FeedOutcome {
            after: SessionView {
                peer_greeting: g,
                state: if v.greeting_sent {
                    session::after_greetings(v.mechanism)
                } else {
                    v.state
                },
                ..v
            },
            result: Ok((64 - k) as usize),
            asked: None,
        }),
{
    reveal(session::digest);
    let input = g.skip(k) + rest;
    assert(g.take(k) + input.take(64 - k) =~= g);
}

/// A decoder in the middle of a frame.
pub open spec fn inside(pending: Seq<u8>) -> DecoderState {
    DecoderState { pending, poisoned: false }
}

/// Part of a frame, not up to its end.
pub(crate) proof fn lemma_frame_begins(v: SessionView, wire: Seq<u8>, k: int, m: int, verdict: bool)
    requires
        session::listens(v),
        v.state != State::Greeting,
        v.decoder == inside(wire.take(k)),
        laws::one_frame(v.frame_cap, wire),
        0 <= k <= m < wire.len(),
    ensures
        session::digest(v, wire.subrange(k, m), verdict) == (session::FeedOutcome {
            after: SessionView { decoder: inside(wire.take(m)), ..v },
            result: Ok((m - k) as usize),
            asked: None,
        }),
{
    reveal(session::digest);
    frame::law_cut_frame_is_partial(v.frame_cap, wire, m);
    assert(wire.take(k) + wire.subrange(k, m) =~= wire.take(m));
}

/// The end of a frame, whatever follows it, comes to what the frame comes to.
proof fn lemma_frame_ends(v: SessionView, wire: Seq<u8>, k: int, rest: Seq<u8>, verdict: bool)
    requires
        session::listens(v),
        v.state != State::Greeting,
        v.decoder == inside(wire.take(k)),
        laws::one_frame(v.frame_cap, wire),
        0 <= k < wire.len() <= usize::MAX,
    ensures
        ({
            let between = SessionView { decoder: frame::decoder_start(), ..v };
            let all = session::digest(between, wire + rest, verdict);
            let end = session::digest(v, wire.skip(k) + rest, verdict);
            &&& end.after == all.after
            &&& end.asked == all.asked
            &&& match all.result {
                Ok(_) => end.result == Ok::<usize, ConnError>((wire.len() - k) as usize),
                Err(e) => end.result == Err::<usize, ConnError>(e),
            }
        }),
{
    reveal(session::digest);
    frame::law_parse_is_stable(v.frame_cap, wire, rest);
    assert(wire.take(k) + (wire.skip(k) + rest) =~= wire + rest);
    assert(Seq::<u8>::empty() + (wire + rest) =~= wire + rest);
}

/// The HELLO and the READY of a peer that fits are frames.
pub(crate) proof fn lemma_frames_of_the_peer(v: SessionView, p: Peer)
    requires
        fits(v, p),
    ensures
        laws::one_frame(v.frame_cap, p.ready),
        0 < p.ready.len() <= 264,
        v.mechanism == Mechanism::Plain ==> {
            &&& laws::one_frame(v.frame_cap, p.hello)
            &&& 0 < p.hello.len() <= usize::MAX
        },
{
    laws::lemma_ready_is_short(v.role, v.frame_cap, p.ready);
}

/// The end of the peer's READY.
pub(crate) proof fn lemma_ready_ends(v: SessionView, w: SessionView, p: Peer, k: int, verdict: bool)
    requires
        fits(v, p),
        w.role == v.role,
        w.frame_cap == v.frame_cap,
        session::listens(w),
        w.state == State::Ready || w.state == State::PlainReady,
        w.decoder == inside(p.ready.take(k)),
        0 <= k < p.ready.len(),
    ensures
        session::digest(w, p.ready.skip(k), verdict) == (session::FeedOutcome {
            after: SessionView {
                state: State::Established,
                decoder: frame::decoder_start(),
                ..w
            },
            result: Ok((p.ready.len() - k) as usize),
            asked: None,
        }),
{
    let none = Seq::<u8>::empty();
    lemma_frames_of_the_peer(v, p);
    assert(p.ready + none =~= p.ready);
    assert(p.ready.skip(k) + none =~= p.ready.skip(k));
    lemma_frame_ends(w, p.ready, k, none, verdict);
    lemma_ready_taken(
        SessionView { decoder: frame::decoder_start(), ..w },
        p.ready,
        verdict,
    );
}

/// The end of the peer's HELLO, with credentials that are accepted, whatever
/// follows it.
pub(crate) proof fn lemma_hello_ends(v: SessionView, w: SessionView, p: Peer, k: int, rest: Seq<u8>)
    requires
        fits(v, p),
        v.mechanism == Mechanism::Plain,
        w.frame_cap == v.frame_cap,
        w.state == State::PlainHello,
        w.decoder == inside(hello(v.mechanism, p).take(k)),
        0 <= k < hello(v.mechanism, p).len(),
    ensures
        session::digest(w, hello(v.mechanism, p).skip(k) + rest, true) == (session::FeedOutcome {
            after: SessionView {
                state: State::PlainReady,
                decoder: frame::decoder_start(),
                ..w
            },
            result: Ok((hello(v.mechanism, p).len() - k) as usize),
            asked: Some(credentials(v, p)),
        }),
{
    lemma_frames_of_the_peer(v, p);
    lemma_frame_ends(w, hello(v.mechanism, p), k, rest, true);
    lemma_hello_taken(
        SessionView { decoder: frame::decoder_start(), ..w },
        p.hello,
        rest,
        true,
    );
}

// ---------------------------------------------------------------------------
// Where a driver stands
// ---------------------------------------------------------------------------

/// The session after the first `k` bytes of what the peer says. Our greeting was
/// written `whole` at the start, or in two parts; our READY is still `due`, or
/// written as soon as can be.
pub open spec fn conn_at(v: SessionView, p: Peer, whole: bool, k: int, due: bool) -> SessionView {
    let said = hello(v.mechanism, p);
    if k < 64 {
        SessionView {
            head_sent: true,
            greeting_sent: whole || k >= greeting::GREETING_PARTIAL_LEN,
            peer_greeting: p.greeting.take(k),
            ..v
        }
    } else if k < 64 + said.len() {
        SessionView {
            head_sent: true,
            greeting_sent: true,
            peer_greeting: p.greeting,
            state: State::PlainHello,
            decoder: inside(said.take(k - 64)),
            ..v
        }
    } else {
        let over = k >= speech(v.mechanism, p).len();
        SessionView {
            head_sent: true,
            greeting_sent: true,
            peer_greeting: p.greeting,
            state: if over {
                State::Established
            } else if v.mechanism == Mechanism::Plain {
                State::PlainReady
            } else {
                State::Ready
            },
            welcome_sent: v.mechanism == Mechanism::Plain,
            ready_sent: !due,
            decoder: if over {
                frame::decoder_start()
            } else {
                inside(p.ready.take(k - 64 - said.len()))
            },
            ..v
        }
    }
}

/// The driver core that has taken the first `k` bytes of what the peer says and
/// waits for more, or is established.
pub open spec fn core_at(v: SessionView, p: Peer, whole: bool, k: int, due: bool) -> CoreView {
    CoreView {
        conn: conn_at(v, p, whole, k, due),
        rx: Seq::empty(),
        tx: Seq::empty(),
        phase: if k < 64 || due {
            DriverPhase::AwaitingPeerGreeting
        } else if k < 64 + hello(v.mechanism, p).len() {
            DriverPhase::AwaitingPlainHello
        } else if k >= speech(v.mechanism, p).len() {
            DriverPhase::Established
        } else if v.mechanism == Mechanism::Plain {
            DriverPhase::AwaitingPlainReady
        } else {
            DriverPhase::AwaitingPeerReady
        },
        error: None,
        whole,
    }
}

/// What a driver does when all that is due has been done: it waits for bytes, or
/// reports that the handshake is over.
pub open spec fn rests(v: SessionView, p: Peer, k: int) -> Todo {
    if k < speech(v.mechanism, p).len() {
        Todo::Read
    } else {
        Todo::Established
    }
}

/// The phases in which the peer's READY is taken.
spec fn takes_ready(mechanism: Mechanism, phase: DriverPhase) -> bool {
    match mechanism {
        Mechanism::Null => phase == DriverPhase::SendingReady || phase
            == DriverPhase::AwaitingPeerReady,
        Mechanism::Plain => phase == DriverPhase::SendingPlainReady || phase
            == DriverPhase::AwaitingPlainReady,
    }
}

/// The step that takes bytes of the peer's READY, or finds none.
#[verifier::rlimit(40)]
proof fn lemma_step_in_ready(
    v: SessionView,
    p: Peer,
    whole: bool,
    k: int,
    m: int,
    phase: DriverPhase,
    verdict: bool,
)
    requires
        fits(v, p),
        64 + hello(v.mechanism, p).len() <= k <= m <= speech(v.mechanism, p).len(),
        k < speech(v.mechanism, p).len(),
        takes_ready(v.mechanism, phase),
    ensures
        ({
            let c = CoreView {
                rx: speech(v.mechanism, p).subrange(k, m),
                phase,
                ..core_at(v, p, whole, k, false)
            };
            driver::step_of(c, verdict) == (driver::StepOutcome {
                after: core_at(v, p, whole, m, false),
                result: Ok(rests(v, p, m)),
                asked: None,
            })
        }),
{
    reveal(driver::feed_some);
    let all = speech(v.mechanism, p);
    let h = 64 + hello(v.mechanism, p).len();
    let i = k - h;
    let j = m - h;
    let wire = p.ready;
    let rx = all.subrange(k, m);
    let c = CoreView { rx, phase: driver::settled(phase), ..core_at(v, p, whole, k, false) };
    assert(rx =~= wire.subrange(i, j));
    lemma_frames_of_the_peer(v, p);
    if k < m {
        let after = core_at(v, p, whole, m, false);
        let next = CoreView { conn: after.conn, ..c };
        assert(driver::turn(c, 0, verdict) == (driver::TurnOutcome {
            after: next,
            result: Ok(((m - k) as nat, true)),
            asked: None,
        })) by {
            reveal(driver::turn);
            assert(c.rx.skip(0) =~= c.rx);
            if m < all.len() {
                lemma_frame_begins(c.conn, wire, i, j, verdict);
            } else {
                assert(wire.subrange(i, j) =~= wire.skip(i));
                lemma_ready_ends(v, c.conn, p, i, verdict);
            }
        }
        reveal_with_fuel(driver::run, 2);
        assert(c.rx.skip(m - k) =~= Seq::<u8>::empty());
    } else {
        assert(rx =~= Seq::<u8>::empty());
    }
}

/// Feeding bytes of the peer's HELLO, and what follows, from `at` on: the driver
/// has them all, or our WELCOME is due.
proof fn lemma_run_in_hello(
    v: SessionView,
    p: Peer,
    whole: bool,
    k: int,
    m: int,
    c: CoreView,
    at: nat,
)
    requires
        fits(v, p),
        64 <= k < 64 + hello(v.mechanism, p).len(),
        k <= m <= speech(v.mechanism, p).len(),
        at <= c.rx.len(),
        c.rx.skip(at as int) == speech(v.mechanism, p).subrange(k, m),
        c == (CoreView { rx: c.rx, ..core_at(v, p, whole, k, false) }),
    ensures
        ({
            let end = 64 + hello(v.mechanism, p).len() as int;
            driver::run(c, at, true) == if m < end {
                driver::RunOutcome {
                    after: CoreView { rx: c.rx, ..core_at(v, p, whole, m, false) },
                    result: Ok(c.rx.len()),
                    asked: None,
                }
            } else {
                driver::RunOutcome {
                    after: CoreView {
                        conn: conn_at(v, p, whole, end, true),
                        tx: plain::WELCOME_FRAME@,
                        phase: DriverPhase::SendingPlainWelcome,
                        ..c
                    },
                    result: Ok((at + end - k) as nat),
                    asked: Some(credentials(v, p)),
                }
            }
        }),
{
    let all = speech(v.mechanism, p);
    let wire = hello(v.mechanism, p);
    let end = 64 + wire.len() as int;
    let input = all.subrange(k, m);
    assert(input.len() == m - k);
    assert(input.len() == c.rx.len() - at);
    if k == m {
        reveal(driver::run);
    } else if m < end {
        let next = CoreView { rx: c.rx, ..core_at(v, p, whole, m, false) };
        assert(driver::turn(c, at, true) == (driver::TurnOutcome {
            after: next,
            result: Ok((c.rx.len(), true)),
            asked: None,
        })) by {
            reveal(driver::turn);
            lemma_frames_of_the_peer(v, p);
            assert(input =~= wire.subrange(k - 64, m - 64));
            lemma_frame_begins(c.conn, wire, k - 64, m - 64, true);
        }
        reveal_with_fuel(driver::run, 2);
    } else {
        let rest = all.subrange(end, m);
        assert(p.ready.take(0) =~= Seq::<u8>::empty());
        assert(driver::turn(c, at, true) == (driver::TurnOutcome {
            after: CoreView {
                conn: conn_at(v, p, whole, end, true),
                tx: plain::WELCOME_FRAME@,
                phase: DriverPhase::SendingPlainWelcome,
                ..c
            },
            result: Ok(((at + end - k) as nat, false)),
            asked: Some(credentials(v, p)),
        })) by {
            reveal(driver::turn);
            lemma_frames_of_the_peer(v, p);
            assert(input =~= wire.skip(k - 64) + rest);
            lemma_hello_ends(v, c.conn, p, k - 64, rest);
        }
        reveal(driver::run);
    }
}

/// The step that takes bytes of the peer's HELLO, or finds none, where the
/// received bytes before them have been taken on the way.
proof fn lemma_feed_in_hello(
    v: SessionView,
    p: Peer,
    whole: bool,
    k: int,
    m: int,
    start: CoreView,
    c: CoreView,
    at: nat,
)
    requires
        fits(v, p),
        64 <= k < 64 + hello(v.mechanism, p).len(),
        k <= m <= speech(v.mechanism, p).len(),
        at <= c.rx.len(),
        c.rx.skip(at as int) == speech(v.mechanism, p).subrange(k, m),
        c == (CoreView { rx: c.rx, ..core_at(v, p, whole, k, false) }),
        c.rx == start.rx,
        !driver::awaits_ready(start.phase),
        start.rx.len() == 0 ==> start == c,
        driver::run(start, 0, true) == driver::run(c, at, true),
    ensures
        ({
            let end = 64 + hello(v.mechanism, p).len() as int;
            driver::feed_some(start, true) == if m < end {
                driver::StepOutcome {
                    after: core_at(v, p, whole, m, false),
                    result: Ok(Todo::Read),
                    asked: None,
                }
            } else {
                driver::StepOutcome {
                    after: CoreView {
                        conn: conn_at(v, p, whole, end, true),
                        rx: speech(v.mechanism, p).subrange(end, m),
                        phase: DriverPhase::SendingPlainWelcome,
                        ..c
                    },
                    result: Ok(Todo::Write(plain::WELCOME_FRAME@)),
                    asked: Some(credentials(v, p)),
                }
            }
        }),
{
    reveal(driver::feed_some);
    let all = speech(v.mechanism, p);
    let end = 64 + hello(v.mechanism, p).len() as int;
    assert(c.rx.skip(at as int).len() == m - k);
    lemma_run_in_hello(v, p, whole, k, m, c, at);
    assert(c.rx.skip(c.rx.len() as int) =~= Seq::<u8>::empty());
    if start.rx.len() == 0 {
        assert(c.rx =~= Seq::<u8>::empty());
    } else if m >= end {
        let n = at + end - k;
        assert(c.rx.skip(n) =~= c.rx.skip(at as int).skip(end - k));
        assert(c.rx.skip(n) =~= all.subrange(end, m));
    }
}

/// The rest of our greeting.
pub open spec fn our_rest(mechanism: Mechanism) -> Seq<u8> {
    greeting::our_greeting(mechanism).skip(greeting::GREETING_PARTIAL_LEN as int)
}

/// The core of a driver that has taken the first `k` bytes of what the peer says,
/// and received those up to the `m`-th.
pub open spec fn core_with(
    v: SessionView,
    p: Peer,
    whole: bool,
    k: int,
    m: int,
    due: bool,
) -> CoreView {
    CoreView { rx: speech(v.mechanism, p).subrange(k, m), ..core_at(v, p, whole, k, due) }
}

/// A step that takes bytes of the peer's greeting, not up to its end, where the
/// rest of ours is not due.
proof fn lemma_step_in_greeting(
    v: SessionView,
    p: Peer,
    whole: bool,
    k: int,
    m: int,
    verdict: bool,
)
    requires
        fits(v, p),
        0 <= k <= m < 64,
        whole || k >= 11 || m < 11,
    ensures
        driver::step_of(core_with(v, p, whole, k, m, false), verdict) == (driver::StepOutcome {
            after: core_at(v, p, whole, m, false),
            result: Ok(Todo::Read),
            asked: None,
        }),
{
    reveal(driver::feed_some);
    let all = speech(v.mechanism, p);
    let c = core_with(v, p, whole, k, m, false);
    assert(c.rx =~= p.greeting.subrange(k, m));
    if k < m {
        let next = CoreView { rx: c.rx, ..core_at(v, p, whole, m, false) };
        assert(driver::turn(c, 0, verdict) == (driver::TurnOutcome {
            after: next,
            result: Ok(((m - k) as nat, true)),
            asked: None,
        })) by {
            reveal(driver::turn);
            assert(c.rx.skip(0) =~= c.rx);
            lemma_greeting_begins(c.conn, p.greeting, k, m, verdict);
        }
        reveal_with_fuel(driver::run, 2);
        assert(c.rx.skip(m - k) =~= Seq::<u8>::empty());
    } else {
        assert(c.rx =~= Seq::<u8>::empty());
    }
}

/// The step that takes the head of the peer's greeting: the rest of ours is due.
proof fn lemma_step_over_head(v: SessionView, p: Peer, k: int, m: int, verdict: bool)
    requires
        fits(v, p),
        0 <= k < 11 <= m <= speech(v.mechanism, p).len(),
    ensures
        ({
            let to = if m < 64 {
                m
            } else {
                64
            };
            driver::step_of(core_with(v, p, false, k, m, false), verdict) == (driver::StepOutcome {
                after: CoreView {
                    phase: DriverPhase::SendingGreetingRest,
                    ..core_with(v, p, false, to, m, true)
                },
                result: Ok(Todo::Write(our_rest(v.mechanism))),
                asked: None,
            })
        }),
{
    reveal(driver::feed_some);
    reveal(driver::run);
    reveal(driver::turn);
    let all = speech(v.mechanism, p);
    let g = p.greeting;
    let c = core_with(v, p, false, k, m, false);
    greeting::lemma_our_greeting_len(v.mechanism);
    assert(c.rx.skip(0) =~= c.rx);
    if m < 64 {
        assert(c.rx =~= g.subrange(k, m));
        lemma_greeting_begins(c.conn, g, k, m, verdict);
        assert(c.rx.skip(m - k) =~= all.subrange(m, m));
    } else {
        let rest = all.subrange(64, m);
        assert(c.rx =~= g.skip(k) + rest);
        lemma_greeting_ends(c.conn, g, k, rest, verdict);
        assert(c.rx.skip(64 - k) =~= rest);
        assert(p.ready.take(0) =~= Seq::<u8>::empty());
        assert(hello(v.mechanism, p).take(0) =~= Seq::<u8>::empty());
    }
}

/// The step that takes the end of the peer's greeting with NULL, where READY is
/// written promptly.
proof fn lemma_step_to_ready(
    v: SessionView,
    p: Peer,
    whole: bool,
    k: int,
    m: int,
    verdict: bool,
)
    requires
        fits(v, p),
        v.mechanism == Mechanism::Null,
        whole || v.role == Role::Radio,
        0 <= k < 64 <= m <= speech(v.mechanism, p).len(),
        whole || k >= 11,
    ensures
        driver::step_of(core_with(v, p, whole, k, m, false), verdict) == (driver::StepOutcome {
            after: CoreView {
                phase: DriverPhase::SendingReady,
                ..core_with(v, p, whole, 64, m, false)
            },
            result: Ok(Todo::Write(null::our_ready(v.role))),
            asked: None,
        }),
{
    reveal(driver::feed_some);
    reveal(driver::run);
    reveal(driver::turn);
    let all = speech(v.mechanism, p);
    let c = core_with(v, p, whole, k, m, false);
    let rest = all.subrange(64, m);
    assert(c.rx.skip(0) =~= c.rx);
    assert(c.rx =~= p.greeting.skip(k) + rest);
    lemma_greeting_ends(c.conn, p.greeting, k, rest, verdict);
    assert(c.rx.skip(64 - k) =~= rest);
    assert(p.ready.take(0) =~= Seq::<u8>::empty());
}

/// The same, where READY is not written promptly and nothing follows the greeting:
/// READY is still due.
proof fn lemma_step_to_due(v: SessionView, p: Peer, k: int, verdict: bool)
    requires
        fits(v, p),
        v.mechanism == Mechanism::Null,
        v.role == Role::Pub,
        11 <= k < 64,
    ensures
        driver::step_of(core_with(v, p, false, k, 64, false), verdict) == (driver::StepOutcome {
            after: core_at(v, p, false, 64, true),
            result: Ok(Todo::Read),
            asked: None,
        }),
{
    reveal(driver::feed_some);
    let none = Seq::<u8>::empty();
    let c = core_with(v, p, false, k, 64, false);
    let next = CoreView { rx: c.rx, ..core_at(v, p, false, 64, true) };
    assert(driver::turn(c, 0, verdict) == (driver::TurnOutcome {
        after: next,
        result: Ok(((64 - k) as nat, true)),
        asked: None,
    })) by {
        reveal(driver::turn);
        assert(c.rx.skip(0) =~= p.greeting.skip(k) + none);
        lemma_greeting_ends(c.conn, p.greeting, k, none, verdict);
        assert(p.ready.take(0) =~= none);
    }
    reveal_with_fuel(driver::run, 2);
    lemma_frames_of_the_peer(v, p);
    assert(c.rx.skip(64 - k) =~= none);
}

/// The step that takes the end of the peer's greeting with PLAIN comes to what its
/// HELLO comes to.
proof fn lemma_step_to_hello(v: SessionView, p: Peer, whole: bool, k: int, m: int)
    requires
        fits(v, p),
        v.mechanism == Mechanism::Plain,
        0 <= k < 64 <= m <= speech(v.mechanism, p).len(),
        whole || k >= 11,
    ensures
        driver::step_of(core_with(v, p, whole, k, m, false), true) == driver::step_of(
            core_with(v, p, whole, 64, m, false),
            true,
        ),
{
    let all = speech(v.mechanism, p);
    let c = core_with(v, p, whole, k, m, false);
    let rest = all.subrange(64, m);
    let next = CoreView { rx: c.rx, ..core_at(v, p, whole, 64, false) };
    lemma_frames_of_the_peer(v, p);
    assert(driver::turn(c, 0, true) == (driver::TurnOutcome {
        after: next,
        result: Ok(((64 - k) as nat, true)),
        asked: None,
    })) by {
        reveal(driver::turn);
        assert(c.rx.skip(0) =~= p.greeting.skip(k) + rest);
        lemma_greeting_ends(c.conn, p.greeting, k, rest, true);
        assert(hello(v.mechanism, p).take(0) =~= Seq::<u8>::empty());
    }
    assert(driver::run(c, 0, true) == driver::run(next, (64 - k) as nat, true)) by {
        reveal(driver::run);
    }
    assert(c.rx.skip(64 - k) =~= rest);
    lemma_feed_in_hello(v, p, whole, 64, m, c, next, (64 - k) as nat);
    let later = core_with(v, p, whole, 64, m, false);
    assert(later.rx.skip(0) =~= later.rx);
    lemma_feed_in_hello(v, p, whole, 64, m, later, later, 0);
}

// ---------------------------------------------------------------------------
// From read to read
// ---------------------------------------------------------------------------

/// What a driver that goes on for a while comes to.
pub struct Progress {
    /// The core afterwards.
    pub after: CoreView,
    /// The bytes that were written.
    pub written: Seq<u8>,
    /// The credentials that the authenticator was asked about.
    pub asked: Seq<(Seq<u8>, Seq<u8>)>,
    /// What the last step came to.
    pub result: Result<Todo, ConnError>,
}

/// The question of a step, if there was one, as a list.
pub open spec fn listed(asked: Option<(Seq<u8>, Seq<u8>)>) -> Seq<(Seq<u8>, Seq<u8>)> {
    match asked {
        Some(pair) => seq![pair],
        None => Seq::empty(),
    }
}

/// Steps on, and writes what there is to write, until there is nothing to write
/// or `n` writes have been made. The authenticator, where it is asked, gives
/// `verdict`.
pub open spec fn advance(c: CoreView, n: nat, verdict: bool) -> Progress
    decreases n,
{
    let once = driver::step_of(c, verdict);
    match once.result {
        Ok(Todo::Write(bytes)) => if n == 0 {
            Progress {
                after: once.after,
                written: bytes,
                asked: listed(once.asked),
                result: once.result,
            }
        } else {
            let more = advance(once.after, (n - 1) as nat, verdict);
            Progress {
                written: bytes + more.written,
                asked: listed(once.asked) + more.asked,
                ..more
            }
        },
        _ => Progress {
            after: once.after,
            written: Seq::empty(),
            asked: listed(once.asked),
            result: once.result,
        },
    }
}

/// Reads one piece after the other, and steps on after each until the driver
/// wants to read the next; `n` writes after one piece are enough for that, or the
/// driver is given up.
pub open spec fn drive(c: CoreView, pieces: Seq<Seq<u8>>, n: nat, verdict: bool) -> Progress
    decreases pieces.len(),
{
    if pieces.len() == 0 {
        Progress {
            after: c,
            written: Seq::empty(),
            asked: Seq::empty(),
            result: Ok(Todo::Read),
        }
    } else {
        let once = advance(CoreView { rx: c.rx + pieces.first(), ..c }, n, verdict);
        match once.result {
            Ok(Todo::Read) => {
                let more = drive(once.after, pieces.drop_first(), n, verdict);
                Progress {
                    written: once.written + more.written,
                    asked: once.asked + more.asked,
                    ..more
                }
            },
            _ => once,
        }
    }
}

/// What there is to write after the first `k` bytes of what the peer says.
pub open spec fn owed(v: SessionView, p: Peer, whole: bool, k: int, due: bool) -> Seq<u8> {
    let rest = if !whole && k < greeting::GREETING_PARTIAL_LEN {
        our_rest(v.mechanism)
    } else {
        Seq::empty()
    };
    let answer = match v.mechanism {
        Mechanism::Null => if k < 64 || due {
            null::our_ready(v.role)
        } else {
            Seq::empty()
        },
        Mechanism::Plain => if k < 64 + hello(v.mechanism, p).len() {
            plain::WELCOME_FRAME@ + null::our_ready(v.role)
        } else {
            Seq::empty()
        },
    };
    rest + answer
}

/// What the authenticator will be asked after the first `k` bytes of what the
/// peer says.
pub open spec fn questions(v: SessionView, p: Peer, k: int) -> Seq<(Seq<u8>, Seq<u8>)> {
    if v.mechanism == Mechanism::Plain && k < 64 + hello(v.mechanism, p).len() {
        seq![credentials(v, p)]
    } else {
        Seq::empty()
    }
}

/// The driver goes on from `c`, where `k` bytes have been taken and READY is due or
/// not, until it has taken all up to the `m`-th, in `n` writes at most.
spec fn gets_to(
    v: SessionView,
    p: Peer,
    whole: bool,
    c: CoreView,
    k: int,
    due: bool,
    m: int,
    lags: bool,
    n: nat,
    verdict: bool,
) -> bool {
    let r = advance(c, n, verdict);
    &&& r.after == core_at(v, p, whole, m, lags)
    &&& r.result == Ok::<Todo, ConnError>(rests(v, p, m))
    &&& r.written + owed(v, p, whole, m, lags) == owed(v, p, whole, k, due)
    &&& r.asked + questions(v, p, m) == questions(v, p, k)
}

/// A step without a write, that takes all.
proof fn lemma_gets_there(
    v: SessionView,
    p: Peer,
    whole: bool,
    c: CoreView,
    k: int,
    m: int,
    lags: bool,
    n: nat,
    verdict: bool,
)
    requires
        driver::step_of(c, verdict) == (driver::StepOutcome {
            after: core_at(v, p, whole, m, lags),
            result: Ok(rests(v, p, m)),
            asked: None,
        }),
        owed(v, p, whole, m, lags) == owed(v, p, whole, k, false),
        questions(v, p, m) == questions(v, p, k),
    ensures
        gets_to(v, p, whole, c, k, false, m, lags, n, verdict),
{
    let r = advance(c, n, verdict);
    assert(r.written + owed(v, p, whole, m, lags) =~= owed(v, p, whole, m, lags));
    assert(r.asked + questions(v, p, m) =~= questions(v, p, m));
}

/// A step with a write, before the others.
proof fn lemma_gets_on(
    v: SessionView,
    p: Peer,
    whole: bool,
    c: CoreView,
    k: int,
    due: bool,
    next: CoreView,
    to: int,
    then_due: bool,
    m: int,
    lags: bool,
    n: nat,
    verdict: bool,
    bytes: Seq<u8>,
)
    requires
        n > 0,
        driver::step_of(c, verdict).after == next,
        driver::step_of(c, verdict).result == Ok::<Todo, ConnError>(Todo::Write(bytes)),
        listed(driver::step_of(c, verdict).asked) + questions(v, p, to) == questions(v, p, k),
        bytes + owed(v, p, whole, to, then_due) == owed(v, p, whole, k, due),
        gets_to(v, p, whole, next, to, then_due, m, lags, (n - 1) as nat, verdict),
    ensures
        gets_to(v, p, whole, c, k, due, m, lags, n, verdict),
{
    let once = driver::step_of(c, verdict);
    let more = advance(next, (n - 1) as nat, verdict);
    let r = advance(c, n, verdict);
    let owes = owed(v, p, whole, m, lags);
    assert(r.written + owes =~= bytes + (more.written + owes));
    let asks = questions(v, p, m);
    assert(r.asked + asks =~= listed(once.asked) + (more.asked + asks));
}

/// The driver takes bytes of the peer's READY, or finds none.
proof fn lemma_through_ready(
    v: SessionView,
    p: Peer,
    whole: bool,
    k: int,
    m: int,
    phase: DriverPhase,
    n: nat,
    verdict: bool,
)
    requires
        fits(v, p),
        64 + hello(v.mechanism, p).len() <= k <= m <= speech(v.mechanism, p).len(),
        k < speech(v.mechanism, p).len(),
        takes_ready(v.mechanism, phase),
    ensures
        gets_to(
            v,
            p,
            whole,
            CoreView { phase, ..core_with(v, p, whole, k, m, false) },
            k,
            false,
            m,
            false,
            n,
            verdict,
        ),
{
    let c = CoreView { phase, ..core_with(v, p, whole, k, m, false) };
    lemma_step_in_ready(v, p, whole, k, m, phase, verdict);
    lemma_gets_there(v, p, whole, c, k, m, false, n, verdict);
}

/// The driver writes the READY that is due with NULL, and takes what follows.
proof fn lemma_through_due(
    v: SessionView,
    p: Peer,
    whole: bool,
    m: int,
    phase: DriverPhase,
    n: nat,
    verdict: bool,
)
    requires
        fits(v, p),
        v.mechanism == Mechanism::Null,
        64 <= m <= speech(v.mechanism, p).len(),
        phase == DriverPhase::AwaitingPeerGreeting || phase == DriverPhase::SendingGreetingRest,
        n >= 1,
    ensures
        gets_to(
            v,
            p,
            whole,
            CoreView { phase, ..core_with(v, p, whole, 64, m, true) },
            64,
            true,
            m,
            false,
            n,
            verdict,
        ),
{
    let c = CoreView { phase, ..core_with(v, p, whole, 64, m, true) };
    let next = CoreView {
        phase: DriverPhase::SendingReady,
        ..core_with(v, p, whole, 64, m, false)
    };
    let bytes = null::our_ready(v.role);
    lemma_frames_of_the_peer(v, p);
    lemma_through_ready(v, p, whole, 64, m, DriverPhase::SendingReady, (n - 1) as nat, verdict);
    assert(driver::step_of(c, verdict).after == next);
    assert(bytes + owed(v, p, whole, 64, false) =~= owed(v, p, whole, 64, true));
    assert(listed(None) + questions(v, p, 64) =~= questions(v, p, 64));
    lemma_gets_on(v, p, whole, c, 64, true, next, 64, false, m, false, n, verdict, bytes);
}

/// The driver takes bytes of the peer's HELLO and what follows, or finds none.
proof fn lemma_through_hello(
    v: SessionView,
    p: Peer,
    whole: bool,
    k: int,
    m: int,
    c: CoreView,
    n: nat,
)
    requires
        fits(v, p),
        64 <= k < 64 + hello(v.mechanism, p).len(),
        k <= m <= speech(v.mechanism, p).len(),
        driver::step_of(c, true) == driver::step_of(core_with(v, p, whole, k, m, false), true),
        n >= 2,
    ensures
        gets_to(v, p, whole, c, k, false, m, false, n, true),
{
    let all = speech(v.mechanism, p);
    let end = 64 + hello(v.mechanism, p).len() as int;
    let now = core_with(v, p, whole, k, m, false);
    assert(now.rx.skip(0) =~= now.rx);
    lemma_frames_of_the_peer(v, p);
    lemma_feed_in_hello(v, p, whole, k, m, now, now, 0);
    if m < end {
        lemma_gets_there(v, p, whole, c, k, m, false, n, true);
    } else {
        // WELCOME goes out, then READY.
        let welcomed = CoreView {
            phase: DriverPhase::SendingPlainWelcome,
            ..core_with(v, p, whole, end, m, true)
        };
        let next = CoreView {
            phase: DriverPhase::SendingPlainReady,
            ..core_with(v, p, whole, end, m, false)
        };
        let welcome = plain::WELCOME_FRAME@;
        let bytes = null::our_ready(v.role);
        assert(driver::step_of(c, true).after == welcomed);
        assert(driver::step_of(welcomed, true).after == next);
        lemma_through_ready(
            v,
            p,
            whole,
            end,
            m,
            DriverPhase::SendingPlainReady,
            (n - 2) as nat,
            true,
        );
        let last = advance(next, (n - 2) as nat, true);
        let middle = advance(welcomed, (n - 1) as nat, true);
        let r = advance(c, n, true);
        assert(middle.written == bytes + last.written);
        assert(r.written == welcome + middle.written);
        let owes = owed(v, p, whole, m, false);
        assert(owed(v, p, whole, end, false) =~= Seq::<u8>::empty());
        assert(owed(v, p, whole, k, false) =~= welcome + bytes);
        assert(r.written + owes =~= welcome + (bytes + (last.written + owes)));
        assert(r.written + owes =~= welcome + bytes);
        let asks = questions(v, p, m);
        assert(r.asked + asks =~= seq![credentials(v, p)] + (last.asked + asks));
        assert(r.asked + asks =~= questions(v, p, k));
    }
}

/// The driver takes bytes of the peer's greeting and what follows.
proof fn lemma_through_greeting(
    v: SessionView,
    p: Peer,
    whole: bool,
    k: int,
    m: int,
    n: nat,
    verdict: bool,
)
    requires
        fits(v, p),
        0 <= k < 64,
        k <= m <= speech(v.mechanism, p).len(),
        whole || k >= 11,
        v.mechanism == Mechanism::Plain ==> verdict,
        v.mechanism == Mechanism::Null && !whole && v.role == Role::Pub ==> m <= 64,
        n >= 2,
    ensures
        ({
            let lags = v.mechanism == Mechanism::Null && !whole && v.role == Role::Pub && m == 64;
            gets_to(
                v,
                p,
                whole,
                core_with(v, p, whole, k, m, false),
                k,
                false,
                m,
                lags,
                n,
                verdict,
            )
        }),
{
    let c = core_with(v, p, whole, k, m, false);
    lemma_frames_of_the_peer(v, p);
    if m < 64 {
        lemma_step_in_greeting(v, p, whole, k, m, verdict);
        lemma_gets_there(v, p, whole, c, k, m, false, n, verdict);
    } else if v.mechanism == Mechanism::Plain {
        lemma_step_to_hello(v, p, whole, k, m);
        lemma_through_hello(v, p, whole, 64, m, c, n);
    } else if !whole && v.role == Role::Pub {
        lemma_step_to_due(v, p, k, verdict);
        lemma_gets_there(v, p, whole, c, k, m, true, n, verdict);
    } else {
        let bytes = null::our_ready(v.role);
        let next = CoreView {
            phase: DriverPhase::SendingReady,
            ..core_with(v, p, whole, 64, m, false)
        };
        lemma_step_to_ready(v, p, whole, k, m, verdict);
        lemma_through_ready(
            v,
            p,
            whole,
            64,
            m,
            DriverPhase::SendingReady,
            (n - 1) as nat,
            verdict,
        );
        assert(bytes + owed(v, p, whole, 64, false) =~= owed(v, p, whole, k, false));
        assert(listed(None) + questions(v, p, 64) =~= questions(v, p, k));
        lemma_gets_on(v, p, whole, c, k, false, next, 64, false, m, false, n, verdict, bytes);
    }
}

/// The driver takes the head of the peer's greeting and what follows.
proof fn lemma_through_head(
    v: SessionView,
    p: Peer,
    k: int,
    m: int,
    n: nat,
    verdict: bool,
)
    requires
        fits(v, p),
        0 <= k < 11 <= m <= speech(v.mechanism, p).len(),
        v.mechanism == Mechanism::Plain ==> verdict,
        n >= 3,
    ensures
        gets_to(
            v,
            p,
            false,
            core_with(v, p, false, k, m, false),
            k,
            false,
            m,
            false,
            n,
            verdict,
        ),
{
    let c = core_with(v, p, false, k, m, false);
    let to = if m < 64 {
        m
    } else {
        64
    };
    let due = v.mechanism == Mechanism::Null && m >= 64;
    let bytes = our_rest(v.mechanism);
    let next = CoreView {
        phase: DriverPhase::SendingGreetingRest,
        ..core_with(v, p, false, to, m, true)
    };
    lemma_frames_of_the_peer(v, p);
    lemma_step_over_head(v, p, k, m, verdict);
    assert(bytes + owed(v, p, false, to, due) =~= owed(v, p, false, k, false));
    assert(listed(None) + questions(v, p, to) =~= questions(v, p, k));
    if m < 64 {
        let then = core_with(v, p, false, m, m, false);
        lemma_step_in_greeting(v, p, false, m, m, verdict);
        assert(driver::step_of(next, verdict) == driver::step_of(then, verdict));
        lemma_gets_there(v, p, false, next, m, m, false, (n - 1) as nat, verdict);
    } else if v.mechanism == Mechanism::Null {
        lemma_through_due(
            v,
            p,
            false,
            m,
            DriverPhase::SendingGreetingRest,
            (n - 1) as nat,
            verdict,
        );
    } else {
        let then = core_with(v, p, false, 64, m, false);
        assert(driver::step_of(next, true) == driver::step_of(then, true));
        lemma_through_hello(v, p, false, 64, m, next, (n - 1) as nat);
    }
    lemma_gets_on(v, p, false, c, k, false, next, to, due, m, false, n, verdict, bytes);
}

/// A PUB driver with NULL that writes its greeting in two parts leaves READY due
/// where a piece ends with the peer's greeting but does not begin it.
pub open spec fn leaves_due(v: SessionView, whole: bool, k: int, m: int) -> bool {
    v.mechanism == Mechanism::Null && !whole && v.role == Role::Pub && 11 <= k < 64 && m == 64
}

/// A driver of that kind fails where a piece does not begin the peer's greeting
/// but goes on after it.
pub open spec fn overruns(v: SessionView, whole: bool, k: int, m: int) -> bool {
    v.mechanism == Mechanism::Null && !whole && v.role == Role::Pub && 11 <= k < 64 < m
}

/// A driver that has taken the first `k` bytes of what the peer says, and receives
/// those up to the `m`-th, takes them all.
proof fn lemma_piece(
    v: SessionView,
    p: Peer,
    whole: bool,
    k: int,
    m: int,
    due: bool,
    n: nat,
    verdict: bool,
)
    requires
        fits(v, p),
        0 <= k < m <= speech(v.mechanism, p).len(),
        due ==> v.mechanism == Mechanism::Null && k == 64,
        !overruns(v, whole, k, m),
        v.mechanism == Mechanism::Plain ==> verdict,
        n >= 3,
    ensures
        gets_to(
            v,
            p,
            whole,
            core_with(v, p, whole, k, m, due),
            k,
            due,
            m,
            leaves_due(v, whole, k, m),
            n,
            verdict,
        ),
{
    let c = core_with(v, p, whole, k, m, due);
    let end = 64 + hello(v.mechanism, p).len() as int;
    lemma_frames_of_the_peer(v, p);
    if k < 11 && !whole && m < 11 {
        lemma_step_in_greeting(v, p, whole, k, m, verdict);
        lemma_gets_there(v, p, whole, c, k, m, false, n, verdict);
    } else if k < 11 && !whole {
        lemma_through_head(v, p, k, m, n, verdict);
    } else if k < 64 {
        lemma_through_greeting(v, p, whole, k, m, n, verdict);
    } else if due {
        lemma_through_due(v, p, whole, m, DriverPhase::AwaitingPeerGreeting, n, verdict);
    } else if k < end {
        lemma_through_hello(v, p, whole, k, m, c, n);
    } else {
        let phase = core_at(v, p, whole, k, false).phase;
        lemma_through_ready(v, p, whole, k, m, phase, n, verdict);
    }
}

/// A piece overruns the end of the peer's greeting, where the first piece begins
/// `k` bytes into what the peer says.
pub open spec fn some_overrun(
    v: SessionView,
    whole: bool,
    k: int,
    pieces: Seq<Seq<u8>>,
) -> bool
    decreases pieces.len(),
{
    pieces.len() > 0 && (overruns(v, whole, k, k + pieces.first().len()) || some_overrun(
        v,
        whole,
        k + pieces.first().len(),
        pieces.drop_first(),
    ))
}

/// The rest of what the peer says, in pieces, takes a driver to the end.
#[verifier::rlimit(40)]
proof fn lemma_pieces(
    v: SessionView,
    p: Peer,
    whole: bool,
    k: int,
    due: bool,
    pieces: Seq<Seq<u8>>,
    n: nat,
    verdict: bool,
)
    requires
        fits(v, p),
        0 <= k < speech(v.mechanism, p).len(),
        due ==> v.mechanism == Mechanism::Null && k == 64,
        pieces.flatten() == speech(v.mechanism, p).skip(k),
        forall|i: int| 0 <= i < pieces.len() ==> #[trigger] pieces[i].len() > 0,
        !some_overrun(v, whole, k, pieces),
        v.mechanism == Mechanism::Plain ==> verdict,
        n >= 3,
    ensures
        drive(core_at(v, p, whole, k, due), pieces, n, verdict) == (Progress {
            after: core_at(v, p, whole, speech(v.mechanism, p).len() as int, false),
            written: owed(v, p, whole, k, due),
            asked: questions(v, p, k),
            result: Ok(Todo::Established),
        }),
    decreases pieces.len(),
{
    let all = speech(v.mechanism, p);
    let first = pieces.first();
    let others = pieces.drop_first();
    let m = k + first.len();
    lemma_frames_of_the_peer(v, p);
    assert(all.skip(k).len() > 0);
    assert(pieces.len() > 0);
    assert(pieces.flatten() == first + others.flatten());
    assert(first =~= pieces.flatten().take(first.len() as int));
    assert(first =~= all.subrange(k, m));
    assert(others.flatten() =~= pieces.flatten().skip(first.len() as int));
    assert(others.flatten() =~= all.skip(m));
    assert(pieces[0].len() > 0);
    let c = core_at(v, p, whole, k, due);
    assert(c.rx + first =~= first);
    lemma_piece(v, p, whole, k, m, due, n, verdict);
    let once = advance(core_with(v, p, whole, k, m, due), n, verdict);
    let lags = leaves_due(v, whole, k, m);
    if m < all.len() {
        assert forall|i: int| 0 <= i < others.len() implies #[trigger] others[i].len() > 0 by {
            assert(others[i] == pieces[i + 1]);
        }
        lemma_pieces(v, p, whole, m, lags, others, n, verdict);
    } else {
        assert(once.written + Seq::<u8>::empty() =~= once.written);
        assert(once.asked + Seq::<(Seq<u8>, Seq<u8>)>::empty() =~= once.asked);
        assert(owed(v, p, whole, m, lags) =~= Seq::<u8>::empty());
    }
}

/// A driver whose greeting has been written in part or as a whole, and which has
/// received nothing yet.
pub open spec fn opened_core(v: SessionView, whole: bool) -> CoreView {
    if whole {
        io_laws::opened_at_once(v, Seq::empty())
    } else {
        io_laws::opened(v, Seq::empty())
    }
}

/// All that a driver writes in a handshake after what it wrote to begin with.
pub open spec fn answers(v: SessionView, whole: bool) -> Seq<u8> {
    let rest = if whole {
        Seq::empty()
    } else {
        our_rest(v.mechanism)
    };
    match v.mechanism {
        Mechanism::Null => rest + null::our_ready(v.role),
        Mechanism::Plain => rest + (plain::WELCOME_FRAME@ + null::our_ready(v.role)),
    }
}

/// The handshake of a driver, with a peer that fits and credentials that are
/// accepted, ends the same in whatever pieces the bytes of the peer come: the
/// driver writes the same, asks once about the credentials where there are any,
/// and is established after the last piece. For a PUB driver with NULL that writes
/// its greeting in two parts, no piece may both come after the head of the peer's
/// greeting and overrun its end.
pub proof fn law_driver_handshake_in_pieces(
    v: SessionView,
    p: Peer,
    whole: bool,
    pieces: Seq<Seq<u8>>,
    n: nat,
    verdict: bool,
)
    requires
        fits(v, p),
        pieces.flatten() == speech(v.mechanism, p),
        forall|i: int| 0 <= i < pieces.len() ==> #[trigger] pieces[i].len() > 0,
        !some_overrun(v, whole, 0, pieces),
        v.mechanism == Mechanism::Plain ==> verdict,
        n >= 3,
    ensures
        ({
            let end = drive(opened_core(v, whole), pieces, n, verdict);
            &&& end.result == Ok::<Todo, ConnError>(Todo::Established)
            &&& end.written == answers(v, whole)
            &&& end.asked == questions(v, p, 0)
            &&& end.after.conn == (SessionView {
                state: State::Established,
                head_sent: true,
                greeting_sent: true,
                peer_greeting: p.greeting,
                welcome_sent: v.mechanism == Mechanism::Plain,
                ready_sent: true,
                ..v
            })
            &&& end.after.phase == DriverPhase::Established
            &&& end.after.rx.len() == 0
        }),
{
    let all = speech(v.mechanism, p);
    lemma_frames_of_the_peer(v, p);
    assert(all.skip(0) =~= all);
    assert(p.greeting.take(0) =~= Seq::<u8>::empty());
    assert(opened_core(v, whole) == core_at(v, p, whole, 0, false));
    lemma_pieces(v, p, whole, 0, false, pieces, n, verdict);
    assert(owed(v, p, whole, 0, false) =~= answers(v, whole));
}

/// A PUB driver with NULL that writes its greeting in two parts fails where a piece
/// comes after the head of the peer's greeting and overruns its end.
pub proof fn law_overrun_fails(v: SessionView, p: Peer, k: int, m: int, verdict: bool)
    requires
        fits(v, p),
        overruns(v, false, k, m),
        m <= speech(v.mechanism, p).len(),
    ensures
        driver::step_of(core_with(v, p, false, k, m, false), verdict).result == Err::<
            Todo,
            ConnError,
        >(ConnError::WrongState),
{
    reveal(driver::feed_some);
    reveal(driver::turn);
    reveal_with_fuel(driver::run, 2);
    let all = speech(v.mechanism, p);
    let c = core_with(v, p, false, k, m, false);
    let rest = all.subrange(64, m);
    assert(c.rx.skip(0) =~= p.greeting.skip(k) + rest);
    lemma_greeting_ends(c.conn, p.greeting, k, rest, verdict);
    let next = CoreView {
        conn: SessionView {
            peer_greeting: p.greeting,
            state: State::Ready,
            ..c.conn
        },
        ..c
    };
    assert(driver::turn(c, 0, verdict).after == next);
    assert(driver::turn(c, 0, verdict).result == Ok::<(nat, bool), ConnError>(
        ((64 - k) as nat, true),
    ));
    assert(session::digest(next.conn, c.rx.skip(64 - k), verdict) == (session::FeedOutcome {
        after: next.conn,
        result: Err(ConnError::WrongState),
        asked: None,
    })) by {
        reveal(session::digest);
    }
}

} // verus!
