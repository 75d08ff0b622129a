//! The DATA message body decoder: a seven-state automaton over the byte
//! stream that removes dot-stuffing and stops at the `CRLF . CRLF`
//! end-of-data token without ever emitting it.

use vstd::prelude::*;

verus! {

use crate::text::contains_seq;
use crate::text::lemma_contains_seq_drop_first;
use crate::text::seq_at;

/// The decoder state: how much of an end-of-data or escaped-dot token
/// has been seen and withheld from the output.
#[derive(Debug, Clone, Copy, PartialEq, Eq, Structural)]
pub enum State {
    Start,
    Cr,
    CrLf,
    CrLfDot,
    CrLfDotCr,
    CrLfDotDot,
    CrLfDotDotCr,
    Eof,
}

/// The end-of-data token `CRLF . CRLF`.
pub open spec fn eod() -> Seq<u8> {
    seq![13u8, 10u8, 46u8, 13u8, 10u8]
}

/// An escaped lone dot on the wire: `CRLF . . CRLF`.
pub open spec fn escaped_dot() -> Seq<u8> {
    seq![13u8, 10u8, 46u8, 46u8, 13u8, 10u8]
}

impl State {
    /// The bytes the state has read but not yet emitted.
    pub open spec fn pending(self) -> Seq<u8> {
        match self {
            State::Start => Seq::<u8>::empty(),
            State::Cr => seq![13u8],
            State::CrLf => seq![13u8, 10u8],
            State::CrLfDot => seq![13u8, 10u8, 46u8],
            State::CrLfDotCr => seq![13u8, 10u8, 46u8, 13u8],
            State::CrLfDotDot => seq![13u8, 10u8, 46u8, 46u8],
            State::CrLfDotDotCr => seq![13u8, 10u8, 46u8, 46u8, 13u8],
            State::Eof => Seq::<u8>::empty(),
        }
    }

    /// The withheld bytes, for flushing them to the output when a byte
    /// does not continue a token.
    pub fn as_bytes(self) -> (r: Vec<u8>)
        requires
            !(self is Start),
            !(self is Eof),
        ensures
            r@ == self.pending(),
    {
        let mut out: Vec<u8> = Vec::new();
        match self {
            State::Start | State::Eof => {
            },
            State::Cr => {
                out.push(13);
            },
            State::CrLf => {
                out.push(13);
                out.push(10);
            },
            State::CrLfDot => {
                out.push(13);
                out.push(10);
                out.push(46);
            },
            State::CrLfDotCr => {
                out.push(13);
                out.push(10);
                out.push(46);
                out.push(13);
            },
            State::CrLfDotDot => {
                out.push(13);
                out.push(10);
                out.push(46);
                out.push(46);
            },
            State::CrLfDotDotCr => {
                out.push(13);
                out.push(10);
                out.push(46);
                out.push(46);
                out.push(13);
            },
        }
        proof {
            assert(out@ =~= self.pending());
        }
        out
    }
}

/// One automaton step: the next state and the bytes emitted. A byte that
/// does not continue a token flushes the pending bytes and is re-fed
/// from `Start`; the end-of-data token emits its leading CRLF and stops;
/// an escaped dot emits `CRLF .` and stays at a line start.
pub open spec fn step(s: State, b: u8) -> (State, Seq<u8>) {
    match s {
        State::Start => if b == 13 {
            (State::Cr, Seq::<u8>::empty())
        } else {
            (State::Start, seq![b])
        },
        State::Cr => if b == 10 {
            (State::CrLf, Seq::<u8>::empty())
        } else {
            flush(s, b)
        },
        State::CrLf => if b == 46 {
            (State::CrLfDot, Seq::<u8>::empty())
        } else {
            flush(s, b)
        },
        State::CrLfDot => if b == 13 {
            (State::CrLfDotCr, Seq::<u8>::empty())
        } else if b == 46 {
            (State::CrLfDotDot, Seq::<u8>::empty())
        } else {
            flush(s, b)
        },
        State::CrLfDotCr => if b == 10 {
            (State::Eof, seq![13u8, 10u8])
        } else {
            flush(s, b)
        },
        State::CrLfDotDot => if b == 13 {
            (State::CrLfDotDotCr, Seq::<u8>::empty())
        } else {
            flush(s, b)
        },
        State::CrLfDotDotCr => if b == 10 {
            (State::CrLf, seq![13u8, 10u8, 46u8])
        } else {
            flush(s, b)
        },
        State::Eof => (State::Eof, Seq::<u8>::empty()),
    }
}

/// Flushing: the pending bytes go out and `b` is re-fed from `Start`.
pub open spec fn flush(s: State, b: u8) -> (State, Seq<u8>) {
    if b == 13 {
        (State::Cr, s.pending())
    } else {
        (State::Start, s.pending().push(b))
    }
}

/// The automaton run over a whole input.
pub open spec fn run(s: State, input: Seq<u8>) -> (State, Seq<u8>)
    decreases input.len(),
{
    if input.len() == 0 {
        (s, Seq::<u8>::empty())
    } else {
        let (s1, o1) = step(s, input[0]);
        let (s2, o2) = run(s1, input.drop_first());
        (s2, o1 + o2)
    }
}

impl State {
    /// Feeds one byte to the decoder, appending what it emits to `buf`.
    pub fn advance(&mut self, buf: &mut Vec<u8>, b: u8)
        requires
            !(*old(self) is Eof),
        ensures
            *final(self) == step(*old(self), b).0,
            final(buf)@ == old(buf)@ + step(*old(self), b).1,
    {
        let s = *self;
        match s {
            State::Start => {
                if b == 13 {
                    *self = State::Cr;
                } else {
                    buf.push(b);
                }
            },
            State::Cr => {
                if b == 10 {
                    *self = State::CrLf;
                } else {
                    self.flush_into(buf, b);
                }
            },
            State::CrLf => {
                if b == 46 {
                    *self = State::CrLfDot;
                } else {
                    self.flush_into(buf, b);
                }
            },
            State::CrLfDot => {
                if b == 13 {
                    *self = State::CrLfDotCr;
                } else if b == 46 {
                    *self = State::CrLfDotDot;
                } else {
                    self.flush_into(buf, b);
                }
            },
            State::CrLfDotCr => {
                if b == 10 {
                    buf.push(13);
                    buf.push(10);
                    *self = State::Eof;
                } else {
                    self.flush_into(buf, b);
                }
            },
            State::CrLfDotDot => {
                if b == 13 {
                    *self = State::CrLfDotDotCr;
                } else {
                    self.flush_into(buf, b);
                }
            },
            State::CrLfDotDotCr => {
                if b == 10 {
                    buf.push(13);
                    buf.push(10);
                    buf.push(46);
                    *self = State::CrLf;
                } else {
                    self.flush_into(buf, b);
                }
            },
            State::Eof => {
            },
        }
        proof {
            assert(buf@ =~= old(buf)@ + step(*old(self), b).1);
        }
    }

    /// Flushes the pending bytes and re-feeds `b` from `Start`.
    fn flush_into(&mut self, buf: &mut Vec<u8>, b: u8)
        requires
            !(*old(self) is Start),
            !(*old(self) is Eof),
        ensures
            *final(self) == flush(*old(self), b).0,
            final(buf)@ == old(buf)@ + flush(*old(self), b).1,
    {
        let mut pending = self.as_bytes();
        buf.append(&mut pending);
        if b == 13 {
            *self = State::Cr;
        } else {
            *self = State::Start;
            buf.push(b);
        }
        proof {
            assert(buf@ =~= old(buf)@ + flush(*old(self), b).1);
        }
    }
}

/// Decodes a DATA body from a buffer: the decoded message, the final
/// decoder state, and how many input bytes were consumed. Consumption
/// stops right after the end-of-data token; without one the whole input
/// is consumed and the decoder is still waiting.
pub fn decode_data(input: &[u8]) -> (r: (Vec<u8>, State, usize))
    ensures
        r.2 <= input@.len(),
        run(State::Start, input@.take(r.2 as int)).0 == r.1,
        run(State::Start, input@.take(r.2 as int)).1 == r.0@,
        forall|j: int| 0 <= j < r.2 ==> !(run(State::Start, input@.take(j)).0 is Eof),
        !(r.1 is Eof) ==> r.2 == input@.len(),
{
    let mut out: Vec<u8> = Vec::new();
    let mut state = State::Start;
    let mut i: usize = 0;
    let n = input.len();
    proof {
        assert(input@.take(0) =~= Seq::<u8>::empty());
    }
    while i < n
        invariant
            0 <= i <= n,
            n == input@.len(),
            run(State::Start, input@.take(i as int)).0 == state,
            run(State::Start, input@.take(i as int)).1 == out@,
            forall|j: int| 0 <= j < i ==> !(run(State::Start, input@.take(j)).0 is Eof),
            !(state is Eof),
        decreases n - i,
    {
        state.advance(&mut out, input[i]);
        proof {
            assert(input@.take(i + 1) =~= input@.take(i as int).push(input@[i as int]));
            lemma_run_snoc(State::Start, input@.take(i as int), input@[i as int]);
        }
        i += 1;
        if matches!(state, State::Eof) {
            return (out, state, i);
        }
    }
    (out, state, i)
}

/// Running over one more byte runs the step on the final state.
proof fn lemma_run_snoc(s: State, x: Seq<u8>, b: u8)
    ensures
        run(s, x.push(b)).0 == step(run(s, x).0, b).0,
        run(s, x.push(b)).1 == run(s, x).1 + step(run(s, x).0, b).1,
    decreases x.len(),
{
    let y = x.push(b);
    if x.len() == 0 {
        assert(y.len() == 1);
        assert(y[0] == b);
        assert(y.drop_first() =~= Seq::<u8>::empty());
        let s1 = step(s, b).0;
        assert(run(s1, y.drop_first()).0 == s1);
        assert(run(s1, y.drop_first()).1 =~= Seq::<u8>::empty());
        assert(run(s, x).0 == s);
        assert(run(s, x).1 =~= Seq::<u8>::empty());
        assert(run(s, y).0 == s1);
        assert(run(s, y).1 =~= run(s, x).1 + step(run(s, x).0, b).1);
    } else {
        assert(y[0] == x[0]);
        assert(y.drop_first() =~= x.drop_first().push(b));
        let (s1, o1) = step(s, x[0]);
        lemma_run_snoc(s1, x.drop_first(), b);
        assert(run(s, y).1 =~= run(s, x).1 + step(run(s, x).0, b).1);
    }
}

/// Splitting a run at any point: the second half continues from where
/// the first half stopped.
pub proof fn lemma_run_concat(s: State, a: Seq<u8>, b: Seq<u8>)
    ensures
        run(s, a + b).0 == run(run(s, a).0, b).0,
        run(s, a + b).1 == run(s, a).1 + run(run(s, a).0, b).1,
    decreases a.len(),
{
    if a.len() == 0 {
        assert(a + b =~= b);
        assert(run(s, a + b).1 =~= run(s, a).1 + run(run(s, a).0, b).1);
    } else {
        assert((a + b)[0] == a[0]);
        assert((a + b).drop_first() =~= a.drop_first() + b);
        let (s1, o1) = step(s, a[0]);
        lemma_run_concat(s1, a.drop_first(), b);
        assert(run(s, a + b).1 =~= run(s, a).1 + run(run(s, a).0, b).1);
    }
}

/// The decoder state that any processed prefix leaves behind, read off
/// the prefix's tail, provided no complete token has gone by.
pub open spec fn state_after(p: Seq<u8>) -> State {
    let n = p.len() as int;
    if n >= 5 && p[n - 5] == 13 && p[n - 4] == 10 && p[n - 3] == 46 && p[n - 2] == 46 && p[n - 1]
        == 13 {
        State::CrLfDotDotCr
    } else if n >= 4 && p[n - 4] == 13 && p[n - 3] == 10 && p[n - 2] == 46 && p[n - 1] == 46 {
        State::CrLfDotDot
    } else if n >= 4 && p[n - 4] == 13 && p[n - 3] == 10 && p[n - 2] == 46 && p[n - 1] == 13 {
        State::CrLfDotCr
    } else if n >= 3 && p[n - 3] == 13 && p[n - 2] == 10 && p[n - 1] == 46 {
        State::CrLfDot
    } else if n >= 2 && p[n - 2] == 13 && p[n - 1] == 10 {
        State::CrLf
    } else if n >= 1 && p[n - 1] == 13 {
        State::Cr
    } else {
        State::Start
    }
}

/// One identity-region step: starting from the state its processed
/// prefix dictates, a byte that completes no token keeps every input
/// byte in the output-plus-pending account and moves to the state the
/// extended prefix dictates.
#[verifier::rlimit(50)]
proof fn lemma_step_id(p: Seq<u8>, b: u8)
    requires
        !contains_seq(p.push(b), eod()),
        !contains_seq(p.push(b), escaped_dot()),
    ensures
        ({
            let s = state_after(p);
            let (s2, o) = step(s, b);
            &&& s2 == state_after(p.push(b))
            &&& !(s2 is Eof)
            &&& o + s2.pending() =~= s.pending().push(b)
        }),
{
    let s = state_after(p);
    let q = p.push(b);
    let n = p.len() as int;
    assert(q.len() == n + 1);
    assert(q[n] == b);
    assert(forall|j: int| 0 <= j < n ==> q[j] == p[j]);
    if s is CrLfDotCr && b == 10 {
        assert(seq_at(q, eod(), n - 4)) by {
            assert(q[n - 4] == 13 && q[n - 3] == 10 && q[n - 2] == 46 && q[n - 1] == 13 && q[n]
                == 10);
            assert forall|j: int| 0 <= j < eod().len() implies q[n - 4 + j] == eod()[j] by {
                if j == 0 {
                } else if j == 1 {
                } else if j == 2 {
                } else if j == 3 {
                } else {
                    assert(j == 4);
                }
            }
        }
        assert(false);
    }
    if s is CrLfDotDotCr && b == 10 {
        assert(seq_at(q, escaped_dot(), n - 5)) by {
            assert(q[n - 5] == 13 && q[n - 4] == 10 && q[n - 3] == 46 && q[n - 2] == 46 && q[n - 1]
                == 13 && q[n] == 10);
            assert forall|j: int| 0 <= j < escaped_dot().len() implies q[n - 5 + j]
                == escaped_dot()[j] by {
                if j == 0 {
                } else if j == 1 {
                } else if j == 2 {
                } else if j == 3 {
                } else if j == 4 {
                } else {
                    assert(j == 5);
                }
            }
        }
        assert(false);
    }
    let (s2, o) = step(s, b);
    assert(s2 == state_after(q));
    assert(o + s2.pending() =~= s.pending().push(b));
}

/// Rearranging the output account of two decoding phases.
proof fn lemma_acct(o1: Seq<u8>, o2: Seq<u8>, p0: Seq<u8>, p1: Seq<u8>, p2: Seq<u8>, b: u8, r: Seq<
    u8,
>)
    requires
        o1 + p1 == p0.push(b),
        o2 + p2 == p1 + r,
    ensures
        (o1 + o2) + p2 == p0 + (seq![b] + r),
{
    assert((o1 + o2) + p2 =~= o1 + (o2 + p2));
    assert(o1 + (p1 + r) =~= (o1 + p1) + r);
    assert(p0.push(b) + r =~= p0 + (seq![b] + r));
}

/// The identity region: as long as no end-of-data and no escaped-dot
/// token goes by, the decoder emits exactly what it reads, minus the
/// pending tail its final state withholds.
#[verifier::rlimit(100)]
proof fn lemma_run_id(p: Seq<u8>, rest: Seq<u8>)
    requires
        !contains_seq(p + rest, eod()),
        !contains_seq(p + rest, escaped_dot()),
    ensures
        ({
            let s = state_after(p);
            let (s2, o) = run(s, rest);
            &&& s2 == state_after(p + rest)
            &&& !(s2 is Eof)
            &&& o + s2.pending() =~= s.pending() + rest
        }),
    decreases rest.len(),
{
    let s = state_after(p);
    if rest.len() == 0 {
        assert(p + rest =~= p);
        assert(run(s, rest).1 + s.pending() =~= s.pending() + rest);
    } else {
        let b = rest[0];
        let w = p + rest;
        assert(p.push(b) =~= w.take(p.len() as int + 1));
        crate::text::lemma_contains_seq_prefix(w, eod(), p.len() as int + 1);
        crate::text::lemma_contains_seq_prefix(w, escaped_dot(), p.len() as int + 1);
        lemma_step_id(p, b);
        let (s1, o1) = step(s, b);
        assert(p.push(b) + rest.drop_first() =~= p + rest);
        lemma_run_id(p.push(b), rest.drop_first());
        let (s2, o2) = run(s1, rest.drop_first());
        assert(run(s, rest).0 == s2);
        assert(run(s, rest).1 == o1 + o2);
        lemma_acct(o1, o2, s.pending(), s1.pending(), s2.pending(), b, rest.drop_first());
        assert(rest =~= seq![b] + rest.drop_first());
    }
}

/// Escaping lone dots: a line consisting of a single dot is doubled on
/// the wire; everything else passes through.
pub open spec fn dot_stuff(body: Seq<u8>) -> Seq<u8>
    decreases body.len(),
{
    if seq_at(body, eod(), 0) {
        seq![13u8, 10u8, 46u8, 46u8] + dot_stuff(body.skip(3))
    } else if body.len() > 0 {
        seq![body[0]] + dot_stuff(body.drop_first())
    } else {
        Seq::<u8>::empty()
    }
}

/// On a body with no lone-dot line the escape has nothing to do.
pub proof fn lemma_dot_stuff_id(body: Seq<u8>)
    requires
        !contains_seq(body, eod()),
    ensures
        dot_stuff(body) == body,
    decreases body.len(),
{
    if seq_at(body, eod(), 0) {
        assert(contains_seq(body, eod()));
    } else if body.len() > 0 {
        lemma_contains_seq_drop_first(body, eod());
        lemma_dot_stuff_id(body.drop_first());
        assert(seq![body[0]] + body.drop_first() =~= body);
    } else {
        assert(dot_stuff(body) =~= body);
    }
}

/// Dot-stuffing round-trip: a body that ends in CRLF, has no lone-dot
/// line and no escaped-dot sequence, is encoded by escaping lone dots
/// (here: unchanged) and appending the `. CRLF` terminator; decoding
/// that wire form yields exactly the body, and the decoder stops there.
pub proof fn lemma_dot_stuff_roundtrip(body: Seq<u8>)
    requires
        body.len() >= 2,
        body[body.len() - 2] == 13,
        body[body.len() - 1] == 10,
        !contains_seq(body, eod()),
        !contains_seq(body, escaped_dot()),
    ensures
        run(State::Start, dot_stuff(body) + seq![46u8, 13u8, 10u8]).0 == State::Eof,
        run(State::Start, dot_stuff(body) + seq![46u8, 13u8, 10u8]).1 == body,
{
    lemma_dot_stuff_id(body);
    let term = seq![46u8, 13u8, 10u8];
    assert(Seq::<u8>::empty() + body =~= body);
    assert(state_after(Seq::<u8>::empty()) == State::Start);
    lemma_run_id(Seq::<u8>::empty(), body);
    let s_mid = state_after(body);
    let (sm, om) = run(State::Start, body);
    assert(sm == s_mid);
    assert(s_mid == State::CrLf);
    lemma_run_concat(State::Start, body, term);
    let (se, oe) = run(State::CrLf, term);
    let t1 = term.drop_first();
    let t2 = t1.drop_first();
    assert(run(State::CrLfDotCr, t2).0 == State::Eof && run(State::CrLfDotCr, t2).1 =~= seq![
        13u8,
        10u8,
    ]) by {
        assert(t2.len() == 1 && t2[0] == 10);
        assert(t2.drop_first() =~= Seq::<u8>::empty());
        assert(run(State::Eof, t2.drop_first()).0 == State::Eof);
        assert(run(State::Eof, t2.drop_first()).1 =~= Seq::<u8>::empty());
    }
    assert(run(State::CrLfDot, t1).0 == State::Eof && run(State::CrLfDot, t1).1 =~= seq![
        13u8,
        10u8,
    ]) by {
        assert(t1.len() == 2 && t1[0] == 13);
    }
    assert(se == State::Eof && oe =~= seq![13u8, 10u8]) by {
        assert(term.len() == 3 && term[0] == 46);
    }
    assert(om + s_mid.pending() =~= body);
    assert(om + oe =~= body);
    assert(run(State::Start, body + term).1 == om + oe);
}

} // verus!
