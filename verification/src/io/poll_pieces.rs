//! Handshakes of blocking drivers whose bytes come in pieces, with polls between
//! them.

use vstd::prelude::*;

use crate::auth::Mechanism;
use crate::connection::{ConnError, State};
use crate::io::blocking;
use crate::io::blocking::{Ask, BlockingView, Part, PollOutcome, Stage};
use crate::io::pieces;
use crate::io::pieces::{
    lemma_frame_begins, lemma_frames_of_the_peer, lemma_greeting_begins, lemma_greeting_ends,
    lemma_hello_ends, lemma_ready_ends, Peer,
};
use crate::session::SessionView;
use crate::{greeting, null, plain, session};

verus! {

/// The core of a blocking driver that has taken the first `k` bytes of what the
/// peer says and waits for more, or is established.
pub open spec fn waiting_at(v: SessionView, p: Peer, whole: bool, k: int) -> BlockingView {
    blocking::blocking_start(pieces::conn_at(v, p, whole, k, false))
}

/// The core `c` has taken the first `k` bytes of what the peer says, and has those
/// up to the `m`-th left to feed.
spec fn has_left(v: SessionView, p: Peer, c: BlockingView, k: int, m: int) -> bool {
    &&& 0 <= k <= m <= pieces::speech(v.mechanism, p).len()
    &&& c.fed <= c.rx.len()
    &&& c.rx.skip(c.fed as int) == pieces::speech(v.mechanism, p).subrange(k, m)
}

/// A poll that is over, with nothing left.
spec fn over(v: SessionView, p: Peer, whole: bool, m: int) -> PollOutcome {
    PollOutcome {
        after: waiting_at(v, p, whole, m),
        result: Ok(Ask::Done(m >= pieces::speech(v.mechanism, p).len())),
        asked: None,
    }
}

/// The core `c`, having fed the bytes up to the `to`-th, of those that it has left
/// from the `k`-th on, writes `bytes`.
spec fn writing(
    conn: SessionView,
    c: BlockingView,
    k: int,
    to: int,
    stage: Stage,
    bytes: Seq<u8>,
    asked: Option<(Seq<u8>, Seq<u8>)>,
) -> PollOutcome {
    PollOutcome {
        after: BlockingView { conn, rx: c.rx, fed: (c.fed + to - k) as nat, stage },
        result: Ok(Ask::Write(bytes)),
        asked,
    }
}

/// Draining bytes of the peer's READY.
#[verifier::rlimit(40)]
proof fn lemma_drain_ready(
    v: SessionView,
    p: Peer,
    whole: bool,
    c: BlockingView,
    k: int,
    m: int,
    verdict: bool,
)
    requires
        pieces::fits(v, p),
        has_left(v, p, c, k, m),
        64 + pieces::hello(v.mechanism, p).len() <= k < m,
        c.conn == pieces::conn_at(v, p, whole, k, false),
    ensures
        blocking::drain(c, verdict) == over(v, p, whole, m),
{
    let all = pieces::speech(v.mechanism, p);
    let h = 64 + pieces::hello(v.mechanism, p).len();
    let wire = p.ready;
    let input = c.rx.skip(c.fed as int);
    let done = BlockingView {
        conn: pieces::conn_at(v, p, whole, m, false),
        fed: c.rx.len(),
        stage: Stage::Idle,
        ..c
    };
    lemma_frames_of_the_peer(v, p);
    assert(input =~= wire.subrange(k - h, m - h));
    assert(input.len() == m - k);
    assert(blocking::drain_once(c, verdict) == Part::More(done)) by {
        reveal(blocking::drain_once);
        if m < all.len() {
            lemma_frame_begins(c.conn, wire, k - h, m - h, verdict);
        } else {
            assert(input =~= wire.skip(k - h));
            lemma_ready_ends(v, c.conn, p, k - h, verdict);
        }
    }
    reveal_with_fuel(blocking::drain, 2);
    assert(c.rx.skip(c.rx.len() as int) =~= Seq::<u8>::empty());
}

/// Draining nothing.
proof fn lemma_drain_nothing(
    v: SessionView,
    p: Peer,
    whole: bool,
    c: BlockingView,
    k: int,
    verdict: bool,
)
    requires
        has_left(v, p, c, k, k),
        k < pieces::speech(v.mechanism, p).len(),
        c.conn == pieces::conn_at(v, p, whole, k, false),
        v.state != State::Established,
    ensures
        blocking::drain(c, verdict) == over(v, p, whole, k),
{
    reveal(blocking::drain);
    assert(c.rx.skip(c.fed as int).len() == 0);
    assert(c.rx.skip(c.fed as int) =~= Seq::<u8>::empty());
}

/// Draining bytes of the peer's HELLO, and what follows.
proof fn lemma_drain_hello(
    v: SessionView,
    p: Peer,
    whole: bool,
    c: BlockingView,
    k: int,
    m: int,
)
    requires
        pieces::fits(v, p),
        has_left(v, p, c, k, m),
        64 <= k < 64 + pieces::hello(v.mechanism, p).len(),
        c.conn == pieces::conn_at(v, p, whole, k, false),
    ensures
        ({
            let end = 64 + pieces::hello(v.mechanism, p).len() as int;
            blocking::drain(c, true) == if m < end {
                over(v, p, whole, m)
            } else {
                writing(
                    pieces::conn_at(v, p, whole, end, true),
                    c,
                    k,
                    end,
                    Stage::Welcome,
                    plain::WELCOME_FRAME@,
                    Some(pieces::credentials(v, p)),
                )
            }
        }),
{
    let all = pieces::speech(v.mechanism, p);
    let wire = pieces::hello(v.mechanism, p);
    let end = 64 + wire.len() as int;
    let input = c.rx.skip(c.fed as int);
    lemma_frames_of_the_peer(v, p);
    assert(input.len() == m - k);
    if k == m {
        lemma_drain_nothing(v, p, whole, c, k, true);
    } else if m < end {
        let done = BlockingView {
            conn: pieces::conn_at(v, p, whole, m, false),
            fed: c.rx.len(),
            stage: Stage::Idle,
            ..c
        };
        assert(blocking::drain_once(c, true) == Part::More(done)) by {
            reveal(blocking::drain_once);
            assert(input =~= wire.subrange(k - 64, m - 64));
            lemma_frame_begins(c.conn, wire, k - 64, m - 64, true);
        }
        reveal_with_fuel(blocking::drain, 2);
        assert(c.rx.skip(c.rx.len() as int) =~= Seq::<u8>::empty());
    } else {
        let rest = all.subrange(end, m);
        reveal(blocking::drain);
        reveal(blocking::drain_once);
        assert(p.ready.take(0) =~= Seq::<u8>::empty());
        assert(input =~= wire.skip(k - 64) + rest);
        lemma_hello_ends(v, c.conn, p, k - 64, rest);
    }
}

/// Draining bytes of the peer's greeting, not up to its end, where the rest of
/// ours is not due.
proof fn lemma_drain_greeting(
    v: SessionView,
    p: Peer,
    whole: bool,
    c: BlockingView,
    k: int,
    m: int,
    verdict: bool,
)
    requires
        pieces::fits(v, p),
        has_left(v, p, c, k, m),
        m < 64,
        whole || k >= 11 || m < 11,
        c.conn == pieces::conn_at(v, p, whole, k, false),
    ensures
        blocking::drain(c, verdict) == over(v, p, whole, m),
{
    let input = c.rx.skip(c.fed as int);
    lemma_frames_of_the_peer(v, p);
    assert(input.len() == m - k);
    if k == m {
        lemma_drain_nothing(v, p, whole, c, k, verdict);
    } else {
        let done = BlockingView {
            conn: pieces::conn_at(v, p, whole, m, false),
            fed: c.rx.len(),
            stage: Stage::Idle,
            ..c
        };
        assert(blocking::drain_once(c, verdict) == Part::More(done)) by {
            reveal(blocking::drain_once);
            assert(input =~= p.greeting.subrange(k, m));
            lemma_greeting_begins(c.conn, p.greeting, k, m, verdict);
        }
        reveal_with_fuel(blocking::drain, 2);
        assert(c.rx.skip(c.rx.len() as int) =~= Seq::<u8>::empty());
    }
}

/// Draining the head of the peer's greeting: the rest of ours is due.
proof fn lemma_drain_head(
    v: SessionView,
    p: Peer,
    c: BlockingView,
    k: int,
    m: int,
    verdict: bool,
)
    requires
        pieces::fits(v, p),
        has_left(v, p, c, k, m),
        k < 11 <= m,
        c.conn == pieces::conn_at(v, p, false, k, false),
    ensures
        ({
            let to = if m < 64 {
                m
            } else {
                64
            };
            blocking::drain(c, verdict) == writing(
                pieces::conn_at(v, p, false, to, true),
                c,
                k,
                to,
                Stage::Rest(true),
                pieces::our_rest(v.mechanism),
                None,
            )
        }),
{
    reveal(blocking::drain);
    reveal(blocking::drain_once);
    let all = pieces::speech(v.mechanism, p);
    let g = p.greeting;
    let input = c.rx.skip(c.fed as int);
    greeting::lemma_our_greeting_len(v.mechanism);
    if m < 64 {
        assert(input =~= g.subrange(k, m));
        lemma_greeting_begins(c.conn, g, k, m, verdict);
    } else {
        let rest = all.subrange(64, m);
        assert(input =~= g.skip(k) + rest);
        lemma_greeting_ends(c.conn, g, k, rest, verdict);
        assert(p.ready.take(0) =~= Seq::<u8>::empty());
        assert(pieces::hello(v.mechanism, p).take(0) =~= Seq::<u8>::empty());
    }
}

/// Draining the end of the peer's greeting: with NULL, our READY is due; with
/// PLAIN, it comes to what the HELLO comes to.
proof fn lemma_drain_to_answer(
    v: SessionView,
    p: Peer,
    whole: bool,
    c: BlockingView,
    k: int,
    m: int,
    verdict: bool,
)
    requires
        pieces::fits(v, p),
        has_left(v, p, c, k, m),
        k < 64 <= m,
        whole || k >= 11,
        c.conn == pieces::conn_at(v, p, whole, k, false),
    ensures
        blocking::drain(c, verdict) == match v.mechanism {
            Mechanism::Null => writing(
                pieces::conn_at(v, p, whole, 64, false),
                c,
                k,
                64,
                Stage::Ready,
                null::our_ready(v.role),
                None,
            ),
            Mechanism::Plain => blocking::drain(
                BlockingView {
                    conn: pieces::conn_at(v, p, whole, 64, false),
                    fed: (c.fed + 64 - k) as nat,
                    stage: Stage::Idle,
                    ..c
                },
                verdict,
            ),
        },
{
    reveal(blocking::drain);
    reveal(blocking::drain_once);
    let all = pieces::speech(v.mechanism, p);
    let g = p.greeting;
    let input = c.rx.skip(c.fed as int);
    let rest = all.subrange(64, m);
    lemma_frames_of_the_peer(v, p);
    assert(input =~= g.skip(k) + rest);
    lemma_greeting_ends(c.conn, g, k, rest, verdict);
    assert(p.ready.take(0) =~= Seq::<u8>::empty());
    assert(pieces::hello(v.mechanism, p).take(0) =~= Seq::<u8>::empty());
}

// ---------------------------------------------------------------------------
// From read to read
// ---------------------------------------------------------------------------

/// What a blocking driver that goes on for a while comes to.
pub struct PollProgress {
    /// The core afterwards.
    pub after: BlockingView,
    /// The bytes that were written.
    pub written: Seq<u8>,
    /// The credentials that the authenticator was asked about.
    pub asked: Seq<(Seq<u8>, Seq<u8>)>,
    /// What was to be done next at the end, or the error.
    pub result: Result<Ask, ConnError>,
}

/// Goes on from `o`: writes what there is to write, and begins a new poll where
/// one is over and the driver is not established, until bytes have to be read or
/// it is, or `n` times. The authenticator, where it is asked, gives `verdict`.
pub open spec fn press_on(o: PollOutcome, n: nat, verdict: bool) -> PollProgress
    decreases n,
{
    let stopped = PollProgress {
        after: o.after,
        written: Seq::empty(),
        asked: pieces::listed(o.asked),
        result: o.result,
    };
    if n == 0 {
        stopped
    } else {
        match o.result {
            Ok(Ask::Write(bytes)) => {
                let more = press_on(blocking::wrote_of(o.after, verdict), (n - 1) as nat, verdict);
                PollProgress {
                    written: bytes + more.written,
                    asked: pieces::listed(o.asked) + more.asked,
                    ..more
                }
            },
            Ok(Ask::Done(established)) => if established {
                stopped
            } else {
                let more = press_on(blocking::poll_of(o.after, verdict), (n - 1) as nat, verdict);
                PollProgress { asked: pieces::listed(o.asked) + more.asked, ..more }
            },
            _ => stopped,
        }
    }
}

/// Reads one piece after the other, and goes on after each until the driver wants
/// to read the next; `n` times are enough for that, or the driver is given up.
pub open spec fn poll_through(
    c: BlockingView,
    chunks: Seq<Seq<u8>>,
    n: nat,
    verdict: bool,
) -> PollProgress
    decreases chunks.len(),
{
    if chunks.len() == 0 {
        PollProgress {
            after: c,
            written: Seq::empty(),
            asked: Seq::empty(),
            result: Ok(Ask::Read),
        }
    } else {
        let once = press_on(blocking::received_of(c, chunks.first(), verdict), n, verdict);
        match once.result {
            Ok(Ask::Read) => {
                let more = poll_through(once.after, chunks.drop_first(), n, verdict);
                PollProgress {
                    written: once.written + more.written,
                    asked: once.asked + more.asked,
                    ..more
                }
            },
            _ => once,
        }
    }
}

/// The driver goes on from `o` until it has taken all up to the `m`-th byte, and
/// writes and asks on the way what `written` and `asked` say.
spec fn comes_to(
    v: SessionView,
    p: Peer,
    whole: bool,
    o: PollOutcome,
    m: int,
    n: nat,
    verdict: bool,
    written: Seq<u8>,
    asked: Seq<(Seq<u8>, Seq<u8>)>,
) -> bool {
    press_on(o, n, verdict) == (PollProgress {
        after: waiting_at(v, p, whole, m),
        written,
        asked,
        result: Ok(
            if m < pieces::speech(v.mechanism, p).len() {
                Ask::Read
            } else {
                Ask::Done(true)
            },
        ),
    })
}

/// A poll that is over with nothing left: the next one reads, if there is one.
proof fn lemma_after_poll(
    v: SessionView,
    p: Peer,
    whole: bool,
    m: int,
    n: nat,
    verdict: bool,
)
    requires
        pieces::fits(v, p),
        0 <= m <= pieces::speech(v.mechanism, p).len(),
        n >= 1,
    ensures
        comes_to(
            v,
            p,
            whole,
            over(v, p, whole, m),
            m,
            n,
            verdict,
            Seq::empty(),
            Seq::empty(),
        ),
{
    let o = over(v, p, whole, m);
    let none = Seq::<(Seq<u8>, Seq<u8>)>::empty();
    lemma_frames_of_the_peer(v, p);
    reveal_with_fuel(press_on, 2);
    assert(none + none =~= none);
    if m < pieces::speech(v.mechanism, p).len() {
        assert(blocking::poll_of(o.after, verdict).after == o.after);
    }
}

/// READY has been written: the poll is over, and the next one takes bytes of the
/// peer's READY, or finds none.
proof fn lemma_after_ready(
    v: SessionView,
    p: Peer,
    whole: bool,
    c: BlockingView,
    k: int,
    m: int,
    n: nat,
    verdict: bool,
)
    requires
        pieces::fits(v, p),
        has_left(v, p, c, k, m),
        k == 64 + pieces::hello(v.mechanism, p).len(),
        c.conn == pieces::conn_at(v, p, whole, k, false),
        c.stage == Stage::Ready,
        n >= 2,
    ensures
        comes_to(
            v,
            p,
            whole,
            blocking::wrote_of(c, verdict),
            m,
            n,
            verdict,
            Seq::empty(),
            Seq::empty(),
        ),
{
    let o = blocking::wrote_of(c, verdict);
    let none = Seq::<(Seq<u8>, Seq<u8>)>::empty();
    let next = blocking::poll_of(o.after, verdict);
    lemma_frames_of_the_peer(v, p);
    assert(o.after.rx =~= pieces::speech(v.mechanism, p).subrange(k, m));
    assert(none + none =~= none);
    if k == m {
        assert(o.after.rx =~= Seq::<u8>::empty());
        assert(o.after == waiting_at(v, p, whole, m));
        lemma_after_poll(v, p, whole, m, n, verdict);
    } else {
        assert(o.after.rx.skip(0) =~= o.after.rx);
        lemma_drain_ready(v, p, whole, o.after, k, m, verdict);
        assert(next == over(v, p, whole, m));
        lemma_after_poll(v, p, whole, m, (n - 1) as nat, verdict);
    }
}

/// Our READY is written, and then bytes of the peer's are taken, or none found.
proof fn lemma_ready_written(
    v: SessionView,
    p: Peer,
    whole: bool,
    o: PollOutcome,
    k: int,
    m: int,
    n: nat,
    verdict: bool,
)
    requires
        pieces::fits(v, p),
        has_left(v, p, o.after, k, m),
        k == 64 + pieces::hello(v.mechanism, p).len(),
        o.after.conn == pieces::conn_at(v, p, whole, k, false),
        o.after.stage == Stage::Ready,
        o.result == Ok::<Ask, ConnError>(Ask::Write(null::our_ready(v.role))),
        o.asked is None,
        n >= 3,
    ensures
        comes_to(
            v,
            p,
            whole,
            o,
            m,
            n,
            verdict,
            null::our_ready(v.role),
            Seq::empty(),
        ),
{
    let none = Seq::<(Seq<u8>, Seq<u8>)>::empty();
    lemma_after_ready(v, p, whole, o.after, k, m, (n - 1) as nat, verdict);
    assert(none + none =~= none);
    assert(null::our_ready(v.role) + Seq::<u8>::empty() =~= null::our_ready(v.role));
}

/// Bytes of the peer's HELLO and what follows are taken, or none found.
proof fn lemma_hello_heard(
    v: SessionView,
    p: Peer,
    whole: bool,
    c: BlockingView,
    k: int,
    m: int,
    n: nat,
)
    requires
        pieces::fits(v, p),
        has_left(v, p, c, k, m),
        64 <= k < 64 + pieces::hello(v.mechanism, p).len(),
        c.conn == pieces::conn_at(v, p, whole, k, false),
        n >= 4,
    ensures
        ({
            let end = 64 + pieces::hello(v.mechanism, p).len() as int;
            let o = blocking::drain(c, true);
            if m < end {
                comes_to(v, p, whole, o, m, n, true, Seq::empty(), Seq::empty())
            } else {
                comes_to(
                    v,
                    p,
                    whole,
                    o,
                    m,
                    n,
                    true,
                    plain::WELCOME_FRAME@ + null::our_ready(v.role),
                    seq![pieces::credentials(v, p)],
                )
            }
        }),
{
    let end = 64 + pieces::hello(v.mechanism, p).len() as int;
    let o = blocking::drain(c, true);
    lemma_frames_of_the_peer(v, p);
    lemma_drain_hello(v, p, whole, c, k, m);
    if m < end {
        lemma_after_poll(v, p, whole, m, n, true);
    } else {
        let ready = blocking::wrote_of(o.after, true);
        assert(c.rx.skip(c.fed as int).len() == m - k);
        assert(o.after.rx.skip(o.after.fed as int) =~= c.rx.skip(c.fed as int).skip(end - k));
        assert(o.after.rx.skip(o.after.fed as int) =~= pieces::speech(v.mechanism, p).subrange(
            end,
            m,
        ));
        assert(ready.after.conn == pieces::conn_at(v, p, whole, end, false));
        lemma_ready_written(v, p, whole, ready, end, m, (n - 1) as nat, true);
        let asked = seq![pieces::credentials(v, p)];
        assert(asked + Seq::<(Seq<u8>, Seq<u8>)>::empty() =~= asked);
    }
}

/// What is written from the `k`-th byte of what the peer says to the `m`-th.
spec fn written_between(v: SessionView, p: Peer, whole: bool, k: int, m: int) -> Seq<u8> {
    let end = 64 + pieces::hello(v.mechanism, p).len();
    let rest = if !whole && k < 11 <= m {
        pieces::our_rest(v.mechanism)
    } else {
        Seq::empty()
    };
    let answer = match v.mechanism {
        Mechanism::Null => if k < 64 <= m {
            null::our_ready(v.role)
        } else {
            Seq::empty()
        },
        Mechanism::Plain => if k < end <= m {
            plain::WELCOME_FRAME@ + null::our_ready(v.role)
        } else {
            Seq::empty()
        },
    };
    rest + answer
}

/// What is asked from the `k`-th byte of what the peer says to the `m`-th.
spec fn asked_between(v: SessionView, p: Peer, k: int, m: int) -> Seq<(Seq<u8>, Seq<u8>)> {
    if v.mechanism == Mechanism::Plain && k < 64 + pieces::hello(v.mechanism, p).len() <= m {
        seq![pieces::credentials(v, p)]
    } else {
        Seq::empty()
    }
}

/// Bytes of the peer's greeting and what follows are taken.
proof fn lemma_greeting_heard(
    v: SessionView,
    p: Peer,
    whole: bool,
    c: BlockingView,
    k: int,
    m: int,
    n: nat,
    verdict: bool,
)
    requires
        pieces::fits(v, p),
        has_left(v, p, c, k, m),
        k < 64,
        whole || k >= 11,
        c.conn == pieces::conn_at(v, p, whole, k, false),
        v.mechanism == Mechanism::Plain ==> verdict,
        n >= 4,
    ensures
        comes_to(
            v,
            p,
            whole,
            blocking::drain(c, verdict),
            m,
            n,
            verdict,
            written_between(v, p, whole, k, m),
            asked_between(v, p, k, m),
        ),
{
    let o = blocking::drain(c, verdict);
    lemma_frames_of_the_peer(v, p);
    assert(c.rx.skip(c.fed as int).len() == m - k);
    if m < 64 {
        lemma_drain_greeting(v, p, whole, c, k, m, verdict);
        lemma_after_poll(v, p, whole, m, n, verdict);
        assert(written_between(v, p, whole, k, m) =~= Seq::<u8>::empty());
    } else {
        lemma_drain_to_answer(v, p, whole, c, k, m, verdict);
        let fed = c.fed + 64 - k;
        assert(c.rx.skip(fed) =~= c.rx.skip(c.fed as int).skip(64 - k));
        assert(c.rx.skip(fed) =~= pieces::speech(v.mechanism, p).subrange(64, m));
        if v.mechanism == Mechanism::Null {
            lemma_ready_written(v, p, whole, o, 64, m, n, verdict);
            assert(written_between(v, p, whole, k, m) =~= null::our_ready(v.role));
        } else {
            let next = BlockingView {
                conn: pieces::conn_at(v, p, whole, 64, false),
                fed: fed as nat,
                stage: Stage::Idle,
                ..c
            };
            lemma_hello_heard(v, p, whole, next, 64, m, n);
            if m < 64 + pieces::hello(v.mechanism, p).len() {
                assert(written_between(v, p, whole, k, m) =~= Seq::<u8>::empty());
            } else {
                assert(written_between(v, p, whole, k, m) =~= plain::WELCOME_FRAME@
                    + null::our_ready(v.role));
            }
        }
    }
}

/// The head of the peer's greeting and what follows are taken.
#[verifier::rlimit(40)]
proof fn lemma_head_heard(
    v: SessionView,
    p: Peer,
    c: BlockingView,
    k: int,
    m: int,
    n: nat,
    verdict: bool,
)
    requires
        pieces::fits(v, p),
        has_left(v, p, c, k, m),
        k < 11 <= m,
        c.conn == pieces::conn_at(v, p, false, k, false),
        v.mechanism == Mechanism::Plain ==> verdict,
        n >= 5,
    ensures
        comes_to(
            v,
            p,
            false,
            blocking::drain(c, verdict),
            m,
            n,
            verdict,
            written_between(v, p, false, k, m),
            asked_between(v, p, k, m),
        ),
{
    let o = blocking::drain(c, verdict);
    let to = if m < 64 {
        m
    } else {
        64
    };
    let rest = pieces::our_rest(v.mechanism);
    let none = Seq::<(Seq<u8>, Seq<u8>)>::empty();
    lemma_frames_of_the_peer(v, p);
    lemma_drain_head(v, p, c, k, m, verdict);
    assert(c.rx.skip(c.fed as int).len() == m - k);
    let d = o.after;
    assert(d.rx.skip(d.fed as int) =~= c.rx.skip(c.fed as int).skip(to - k));
    assert(d.rx.skip(d.fed as int) =~= pieces::speech(v.mechanism, p).subrange(to, m));
    let next = blocking::wrote_of(d, verdict);
    if m < 64 {
        lemma_drain_nothing(v, p, false, d, m, verdict);
        lemma_after_poll(v, p, false, m, (n - 1) as nat, verdict);
        assert(written_between(v, p, false, k, m) =~= rest + Seq::<u8>::empty());
    } else if v.mechanism == Mechanism::Null {
        lemma_ready_written(v, p, false, next, 64, m, (n - 1) as nat, verdict);
    } else {
        lemma_hello_heard(v, p, false, d, 64, m, (n - 1) as nat);
    }
    assert(none + asked_between(v, p, k, m) =~= asked_between(v, p, k, m));
}

/// A blocking driver that has taken the first `k` bytes of what the peer says, and
/// reads those up to the `m`-th, takes them all.
proof fn lemma_piece_read(
    v: SessionView,
    p: Peer,
    whole: bool,
    k: int,
    m: int,
    n: nat,
    verdict: bool,
)
    requires
        pieces::fits(v, p),
        0 <= k < m <= pieces::speech(v.mechanism, p).len(),
        v.mechanism == Mechanism::Plain ==> verdict,
        n >= 5,
    ensures
        comes_to(
            v,
            p,
            whole,
            blocking::received_of(
                waiting_at(v, p, whole, k),
                pieces::speech(v.mechanism, p).subrange(k, m),
                verdict,
            ),
            m,
            n,
            verdict,
            written_between(v, p, whole, k, m),
            asked_between(v, p, k, m),
        ),
{
    let piece = pieces::speech(v.mechanism, p).subrange(k, m);
    let end = 64 + pieces::hello(v.mechanism, p).len();
    let c = BlockingView { rx: piece, ..waiting_at(v, p, whole, k) };
    assert(Seq::<u8>::empty() + piece =~= piece);
    assert(c.rx.skip(0) =~= piece);
    lemma_frames_of_the_peer(v, p);
    if !whole && m < 11 {
        lemma_drain_greeting(v, p, whole, c, k, m, verdict);
        lemma_after_poll(v, p, whole, m, n, verdict);
        assert(written_between(v, p, whole, k, m) =~= Seq::<u8>::empty());
    } else if !whole && k < 11 {
        lemma_head_heard(v, p, c, k, m, n, verdict);
    } else if k < 64 {
        lemma_greeting_heard(v, p, whole, c, k, m, n, verdict);
    } else if k < end {
        lemma_hello_heard(v, p, whole, c, k, m, n);
        if m < end {
            assert(written_between(v, p, whole, k, m) =~= Seq::<u8>::empty());
        } else {
            assert(written_between(v, p, whole, k, m) =~= plain::WELCOME_FRAME@ + null::our_ready(
                v.role,
            ));
        }
    } else {
        lemma_drain_ready(v, p, whole, c, k, m, verdict);
        lemma_after_poll(v, p, whole, m, n, verdict);
        assert(written_between(v, p, whole, k, m) =~= Seq::<u8>::empty());
    }
}

/// The rest of what the peer says, in pieces, takes a blocking driver to the end.
proof fn lemma_pieces_read(
    v: SessionView,
    p: Peer,
    whole: bool,
    k: int,
    chunks: Seq<Seq<u8>>,
    n: nat,
    verdict: bool,
)
    requires
        pieces::fits(v, p),
        0 <= k < pieces::speech(v.mechanism, p).len(),
        chunks.flatten() == pieces::speech(v.mechanism, p).skip(k),
        forall|i: int| 0 <= i < chunks.len() ==> #[trigger] chunks[i].len() > 0,
        v.mechanism == Mechanism::Plain ==> verdict,
        n >= 5,
    ensures
        poll_through(waiting_at(v, p, whole, k), chunks, n, verdict) == (PollProgress {
            after: waiting_at(v, p, whole, pieces::speech(v.mechanism, p).len() as int),
            written: pieces::owed(v, p, whole, k, false),
            asked: pieces::questions(v, p, k),
            result: Ok(Ask::Done(true)),
        }),
    decreases chunks.len(),
{
    let all = pieces::speech(v.mechanism, p);
    let first = chunks.first();
    let others = chunks.drop_first();
    let m = k + first.len();
    lemma_frames_of_the_peer(v, p);
    assert(all.skip(k).len() > 0);
    assert(chunks.len() > 0);
    assert(chunks.flatten() == first + others.flatten());
    assert(first =~= chunks.flatten().take(first.len() as int));
    assert(first =~= all.subrange(k, m));
    assert(others.flatten() =~= chunks.flatten().skip(first.len() as int));
    assert(others.flatten() =~= all.skip(m));
    assert(chunks[0].len() > 0);
    lemma_piece_read(v, p, whole, k, m, n, verdict);
    assert(written_between(v, p, whole, k, m) + pieces::owed(v, p, whole, m, false)
        =~= pieces::owed(v, p, whole, k, false));
    assert(asked_between(v, p, k, m) + pieces::questions(v, p, m) =~= pieces::questions(v, p, k));
    if m < all.len() {
        assert forall|i: int| 0 <= i < others.len() implies #[trigger] others[i].len() > 0 by {
            assert(others[i] == chunks[i + 1]);
        }
        lemma_pieces_read(v, p, whole, m, others, n, verdict);
    } else {
        let written = written_between(v, p, whole, k, m);
        assert(written + Seq::<u8>::empty() =~= written);
        let asked = asked_between(v, p, k, m);
        assert(asked + Seq::<(Seq<u8>, Seq<u8>)>::empty() =~= asked);
        assert(pieces::owed(v, p, whole, m, false) =~= Seq::<u8>::empty());
    }
}

/// A blocking driver whose greeting has been written in part or as a whole, and
/// which has read nothing yet.
pub open spec fn opened_poll(v: SessionView, whole: bool) -> BlockingView {
    let room = greeting::GREETING_LEN as nat;
    blocking::blocking_start(
        if whole {
            session::write_full_step(v, room).after
        } else {
            session::write_head_step(v, room).after
        },
    )
}

/// The handshake of a blocking driver, with a peer that fits and credentials that
/// are accepted, ends the same in whatever pieces the bytes of the peer come: the
/// first poll reads, the driver writes the same, asks once about the credentials
/// where there are any, and the poll that takes the last piece reports that it is
/// established.
pub proof fn law_blocking_handshake_in_pieces(
    v: SessionView,
    p: Peer,
    whole: bool,
    chunks: Seq<Seq<u8>>,
    n: nat,
    verdict: bool,
)
    requires
        pieces::fits(v, p),
        chunks.flatten() == pieces::speech(v.mechanism, p),
        forall|i: int| 0 <= i < chunks.len() ==> #[trigger] chunks[i].len() > 0,
        v.mechanism == Mechanism::Plain ==> verdict,
        n >= 5,
    ensures
        ({
            let begun = blocking::poll_of(opened_poll(v, whole), verdict);
            let end = poll_through(begun.after, chunks, n, verdict);
            &&& begun.result == Ok::<Ask, ConnError>(Ask::Read)
            &&& end.result == Ok::<Ask, ConnError>(Ask::Done(true))
            &&& end.written == pieces::answers(v, whole)
            &&& end.asked == pieces::questions(v, p, 0)
            &&& end.after.conn == (SessionView {
                state: State::Established,
                head_sent: true,
                greeting_sent: true,
                peer_greeting: p.greeting,
                welcome_sent: v.mechanism == Mechanism::Plain,
                ready_sent: true,
                ..v
            })
            &&& end.after.rx.len() == 0
        }),
{
    let all = pieces::speech(v.mechanism, p);
    lemma_frames_of_the_peer(v, p);
    assert(all.skip(0) =~= all);
    assert(p.greeting.take(0) =~= Seq::<u8>::empty());
    assert(opened_poll(v, whole) == waiting_at(v, p, whole, 0));
    lemma_pieces_read(v, p, whole, 0, chunks, n, verdict);
    assert(pieces::owed(v, p, whole, 0, false) =~= pieces::answers(v, whole));
}

} // verus!
