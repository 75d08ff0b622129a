//! The BDAT message body reader: length-prefixed chunks, with further
//! protocol commands read between chunks (RFC 3030 chunking).

use vstd::prelude::*;

verus! {

use vstd::utf8::encode_utf8;

use crate::line::crlf;
use crate::line::line_at;
use crate::line::line_end;
use crate::smtp::command::Command;
use crate::smtp::command::Error;
use crate::smtp::command::LineOutcome;
use crate::smtp::command::SpecCommand;
use crate::smtp::command::classify;

/// What reading a chunked body from a buffer produced: the message
/// bytes, the replies owed to the client, how much input went by, and
/// whether a final chunk ended the message (`false` means the body
/// ended in an unexpected end of input or an aborting command).
pub struct BdatOutcome {
    pub msg: Seq<u8>,
    pub replies: Seq<u8>,
    pub used: int,
    pub complete: bool,
}

pub open spec fn ok_reply() -> Seq<u8> {
    encode_utf8("250 ok\r\n"@)
}

pub open spec fn bye_reply() -> Seq<u8> {
    encode_utf8("221 Bye\r\n"@)
}

pub open spec fn expected_bdat_reply() -> Seq<u8> {
    encode_utf8("503 expected BDAT\r\n"@)
}

pub open spec fn unknown_reply() -> Seq<u8> {
    encode_utf8("500 Unrecognized command\r\n"@)
}

pub open spec fn syntax_reply(hint: Seq<char>) -> Seq<u8> {
    encode_utf8("501 Syntax: "@) + encode_utf8(hint) + crlf()
}

/// Reading one chunk of `size` bytes at `pos`, then whatever follows:
/// a short buffer is an incomplete body; a last chunk ends it; any
/// other chunk is acknowledged with `250 ok` and the next command is
/// awaited.
pub open spec fn read_chunk(input: Seq<u8>, pos: int, size: nat, last: bool) -> BdatOutcome
    recommends
        0 <= pos <= input.len(),
    decreases input.len() - pos, 1int,
    when 0 <= pos <= input.len()
{
    if pos + size > input.len() {
        BdatOutcome {
            msg: input.subrange(pos, input.len() as int),
            replies: Seq::<u8>::empty(),
            used: input.len() as int,
            complete: false,
        }
    } else if last {
        BdatOutcome {
            msg: input.subrange(pos, pos + size),
            replies: Seq::<u8>::empty(),
            used: pos + size,
            complete: true,
        }
    } else {
        let rest = await_chunk(input, pos + size);
        BdatOutcome {
            msg: input.subrange(pos, pos + size) + rest.msg,
            replies: ok_reply() + rest.replies,
            used: rest.used,
            complete: rest.complete,
        }
    }
}

/// Between chunks: one command line at a time. `BDAT` resumes reading
/// (a zero-size last chunk ends the message), `NOOP` is acknowledged,
/// `QUIT` is answered and aborts, `RSET` or the end of input aborts,
/// anything else is rejected and the wait goes on.
pub open spec fn await_chunk(input: Seq<u8>, pos: int) -> BdatOutcome
    recommends
        0 <= pos <= input.len(),
    decreases input.len() - pos, 0int,
    when 0 <= pos <= input.len()
{
    if pos >= input.len() {
        BdatOutcome { msg: Seq::<u8>::empty(), replies: Seq::<u8>::empty(), used: pos, complete: false }
    } else {
        let line = line_at(input, pos);
        let pos2 = line_end(input, pos);
        proof {
            crate::line::lemma_line_end_bounds(input, pos);
        }
        match classify(line) {
            LineOutcome::Cmd(SpecCommand::Bdat(size, last)) => if size == 0 && last {
                BdatOutcome {
                    msg: Seq::<u8>::empty(),
                    replies: Seq::<u8>::empty(),
                    used: pos2,
                    complete: true,
                }
            } else {
                read_chunk(input, pos2, size, last)
            },
            LineOutcome::Cmd(SpecCommand::Quit) => BdatOutcome {
                msg: Seq::<u8>::empty(),
                replies: bye_reply(),
                used: pos2,
                complete: false,
            },
            LineOutcome::Cmd(SpecCommand::Rset) => BdatOutcome {
                msg: Seq::<u8>::empty(),
                replies: Seq::<u8>::empty(),
                used: pos2,
                complete: false,
            },
            LineOutcome::Cmd(SpecCommand::Noop) => {
                let rest = await_chunk(input, pos2);
                BdatOutcome { replies: ok_reply() + rest.replies, ..rest }
            },
            LineOutcome::Cmd(_) => {
                let rest = await_chunk(input, pos2);
                BdatOutcome { replies: expected_bdat_reply() + rest.replies, ..rest }
            },
            LineOutcome::SyntaxErr(hint) => {
                let rest = await_chunk(input, pos2);
                BdatOutcome { replies: syntax_reply(hint) + rest.replies, ..rest }
            },
            LineOutcome::Unknown => {
                let rest = await_chunk(input, pos2);
                BdatOutcome { replies: unknown_reply() + rest.replies, ..rest }
            },
            LineOutcome::Invalid => await_chunk(input, pos2),
        }
    }
}

/// Reads a whole chunked message from a buffer, starting inside the
/// first chunk as `BDAT <size> [LAST]` announced it: the message, the
/// replies owed between chunks, the bytes consumed, and whether the
/// body completed.
#[verifier::rlimit(100)]
pub fn read_bdat(input: &[u8], size: u64, last: bool) -> (r: (Vec<u8>, Vec<u8>, usize, bool))
    ensures
        ({
            let o = read_chunk(input@, 0, size as nat, last);
            &&& r.0@ == o.msg
            &&& r.1@ == o.replies
            &&& r.2 == o.used
            &&& r.3 == o.complete
        }),
{
    let ghost o = read_chunk(input@, 0, size as nat, last);
    let mut msg: Vec<u8> = Vec::new();
    let mut replies: Vec<u8> = Vec::new();
    let mut pos: usize = 0;
    let mut cur_size = size;
    let mut cur_last = last;
    let mut awaiting = false;
    let n = input.len();
    proof {
        assert(msg@ + o.msg =~= o.msg);
        assert(replies@ + o.replies =~= o.replies);
    }
    loop
        invariant
            0 <= pos <= n,
            n == input@.len(),
            o == read_chunk(input@, 0, size as nat, last),
            ({
                let cont = if awaiting {
                    await_chunk(input@, pos as int)
                } else {
                    read_chunk(input@, pos as int, cur_size as nat, cur_last)
                };
                &&& o.msg == msg@ + cont.msg
                &&& o.replies == replies@ + cont.replies
                &&& o.used == cont.used
                &&& o.complete == cont.complete
            }),
        decreases n - pos, (if awaiting { 0int } else { 1int }),
    {
        if !awaiting {
            if cur_size > (n - pos) as u64 {
                let tail = vstd::slice::slice_subrange(input, pos, n);
                msg.extend_from_slice(tail);
                proof {
                    assert(msg@ =~= o.msg);
                    assert(replies@ =~= o.replies);
                }
                return (msg, replies, n, false);
            }
            let sz = cur_size as usize;
            let body = vstd::slice::slice_subrange(input, pos, pos + sz);
            let ghost m0 = msg@;
            let ghost r0 = replies@;
            msg.extend_from_slice(body);
            pos = pos + sz;
            if cur_last {
                proof {
                    assert(msg@ =~= o.msg);
                    assert(replies@ =~= o.replies);
                }
                return (msg, replies, pos, true);
            }
            crate::text::push_str_bytes(&mut replies, "250 ok\r\n");
            awaiting = true;
            proof {
                let rest = await_chunk(input@, pos as int);
                assert(m0 + (body@ + rest.msg) =~= (m0 + body@) + rest.msg);
                assert(r0 + (ok_reply() + rest.replies) =~= (r0 + ok_reply()) + rest.replies);
            }
        } else {
            if pos >= n {
                proof {
                    assert(msg@ =~= o.msg);
                    assert(replies@ =~= o.replies);
                }
                return (msg, replies, pos, false);
            }
            let (line, next) = crate::line::take_line(input, pos).unwrap();
            let ghost cls = classify(line@);
            let ghost rest = await_chunk(input@, next as int);
            let ghost r0 = replies@;
            match Command::parse(line.as_slice()) {
                Ok(Command::Bdat { size: s2, last: l2 }) => {
                    proof {
                        assert(cls == LineOutcome::Cmd(SpecCommand::Bdat(s2 as nat, l2)));
                    }
                    if s2 == 0 && l2 {
                        proof {
                            assert(msg@ =~= o.msg);
                            assert(replies@ =~= o.replies);
                        }
                        return (msg, replies, next, true);
                    }
                    cur_size = s2;
                    cur_last = l2;
                    pos = next;
                    awaiting = false;
                },
                Ok(Command::Quit) => {
                    proof {
                        assert(cls == LineOutcome::Cmd(SpecCommand::Quit));
                    }
                    crate::text::push_str_bytes(&mut replies, "221 Bye\r\n");
                    proof {
                        assert(msg@ =~= o.msg);
                        assert(replies@ =~= o.replies);
                    }
                    return (msg, replies, next, false);
                },
                Ok(Command::Rset) => {
                    proof {
                        assert(cls == LineOutcome::Cmd(SpecCommand::Rset));
                        assert(msg@ =~= o.msg);
                        assert(replies@ =~= o.replies);
                    }
                    return (msg, replies, next, false);
                },
                Ok(Command::Noop) => {
                    proof {
                        assert(cls == LineOutcome::Cmd(SpecCommand::Noop));
                    }
                    crate::text::push_str_bytes(&mut replies, "250 ok\r\n");
                    pos = next;
                    proof {
                        assert(r0 + (ok_reply() + rest.replies) =~= (r0 + ok_reply())
                            + rest.replies);
                    }
                },
                Ok(_) => {
                    proof {
                        assert(cls matches LineOutcome::Cmd(c) && !(c is Bdat) && !(c is Quit) && !(
                        c is Rset) && !(c is Noop));
                    }
                    crate::text::push_str_bytes(&mut replies, "503 expected BDAT\r\n");
                    pos = next;
                    proof {
                        assert(r0 + (expected_bdat_reply() + rest.replies) =~= (r0
                            + expected_bdat_reply()) + rest.replies);
                    }
                },
                Err(Error::Syntax(hint)) => {
                    proof {
                        assert(cls matches LineOutcome::SyntaxErr(h) && h == hint@);
                    }
                    crate::text::push_str_bytes(&mut replies, "501 Syntax: ");
                    crate::text::push_str_bytes(&mut replies, hint);
                    replies.push(13);
                    replies.push(10);
                    pos = next;
                    proof {
                        assert(replies@ =~= r0 + syntax_reply(hint@));
                        assert(r0 + (syntax_reply(hint@) + rest.replies) =~= (r0 + syntax_reply(
                            hint@,
                        )) + rest.replies);
                    }
                },
                Err(Error::UnrecognizedCommand) => {
                    proof {
                        assert(cls is Unknown);
                    }
                    crate::text::push_str_bytes(&mut replies, "500 Unrecognized command\r\n");
                    pos = next;
                    proof {
                        assert(r0 + (unknown_reply() + rest.replies) =~= (r0 + unknown_reply())
                            + rest.replies);
                    }
                },
                Err(Error::InvalidUtf8) => {
                    proof {
                        assert(cls is Invalid);
                    }
                    pos = next;
                },
            }
        }
    }
}

/// Awaiting at a final `BDAT <n> LAST` line followed by exactly its
/// chunk resolves into that chunk, completing the message.
#[verifier::rlimit(100)]
proof fn lemma_await_last(input: Seq<u8>, pos: int, line: Seq<u8>, n2: nat)
    requires
        0 <= pos < input.len(),
        line_at(input, pos) == line,
        line_end(input, pos) == pos + line.len() + 2,
        classify(line) == LineOutcome::Cmd(SpecCommand::Bdat(n2, true)),
        pos + line.len() + 2 + n2 == input.len(),
    ensures
        ({
            let a = await_chunk(input, pos);
            &&& a.msg == input.subrange(pos + line.len() as int + 2, input.len() as int)
            &&& a.replies == Seq::<u8>::empty()
            &&& a.used == input.len()
            &&& a.complete
        }),
{
    let pos2 = pos + line.len() as int + 2;
    let a = await_chunk(input, pos);
    if n2 == 0 {
        assert(pos2 == input.len());
        assert(a.msg =~= input.subrange(pos2, input.len() as int));
    } else {
        let inner = read_chunk(input, pos2, n2, true);
        assert(a == inner);
        assert(inner.msg == input.subrange(pos2, pos2 + n2 as int));
    }
}

/// Chunk concatenation: a first chunk of the body, a `BDAT <n> LAST`
/// command line, and a final chunk of n bytes read back as exactly the
/// two chunk bodies joined, with one `250 ok` owed between the chunks.
#[verifier::rlimit(100)]
pub proof fn lemma_bdat_concat(body1: Seq<u8>, line: Seq<u8>, body2: Seq<u8>, n2: nat)
    requires
        classify(line) == LineOutcome::Cmd(SpecCommand::Bdat(n2, true)),
        forall|i: int| 0 <= i < line.len() ==> line[i] != 13 && #[trigger] line[i] != 10,
        body2.len() == n2,
    ensures
        ({
            let input = body1 + (line + crlf() + body2);
            let o = read_chunk(input, 0, body1.len() as nat, false);
            &&& o.msg == body1 + body2
            &&& o.replies == ok_reply()
            &&& o.used == input.len()
            &&& o.complete
        }),
{
    let wire = line + crlf() + body2;
    let input = body1 + wire;
    let n1 = body1.len() as int;
    assert(input.subrange(n1, input.len() as int) =~= wire);
    crate::line::lemma_line_at_frame(input, n1, line, body2);
    lemma_await_last(input, n1, line, n2);
    let o = read_chunk(input, 0, body1.len() as nat, false);
    let rest = await_chunk(input, n1);
    assert(input.subrange(0, n1) =~= body1);
    assert(input.subrange(n1 + line.len() as int + 2, input.len() as int) =~= body2);
    assert(o.msg == input.subrange(0, n1) + rest.msg);
    assert(o.msg =~= body1 + body2);
    assert(o.replies =~= ok_reply());
}

/// What the transport loop must do after one command line between
/// chunks.
pub enum BdatLineAction {
    /// Start reading the announced next chunk.
    NextChunk,
    /// Keep awaiting a BDAT command.
    KeepWaiting,
    /// A zero-sized last chunk ended the message.
    Finished,
    /// The client reset the transaction: unexpected end of the body.
    Abort,
    /// The client quit: the goodbye is in the reply, then the
    /// connection closes.
    AbortQuit,
}

/// The chunked-body reader in streaming form: the caller moves bytes
/// and lines; every decision and reply is decided here, as
/// [`read_chunk`] and [`await_chunk`] state it for whole buffers.
pub struct BdatReader {
    /// Bytes still owed by the chunk being read.
    pub remaining: u64,
    /// Whether that chunk is the message's last.
    pub last: bool,
}

impl BdatReader {
    /// A reader inside the first chunk, as `BDAT <size> [LAST]`
    /// announced it.
    pub fn new(size: u64, last: bool) -> (r: BdatReader)
        ensures
            r.remaining == size,
            r.last == last,
    {
        BdatReader { remaining: size, last }
    }

    /// Called when the current chunk's bytes have all arrived: the
    /// reply owed (an acknowledgement unless this was the last chunk)
    /// and whether the message is complete.
    pub fn chunk_done(&self) -> (r: (Vec<u8>, bool))
        ensures
            self.last ==> r.1 && r.0@ == Seq::<u8>::empty(),
            !self.last ==> !r.1 && r.0@ == ok_reply(),
    {
        if self.last {
            (Vec::new(), true)
        } else {
            let mut out: Vec<u8> = Vec::new();
            crate::text::push_str_bytes(&mut out, "250 ok\r\n");
            proof {
                assert(out@ =~= ok_reply());
            }
            (out, false)
        }
    }

    /// Handles one command line while awaiting the next chunk,
    /// mirroring what [`await_chunk`] does at that line.
    pub fn next_line(&mut self, line: &[u8]) -> (r: (Vec<u8>, BdatLineAction))
        ensures
            match classify(line@) {
                LineOutcome::Cmd(SpecCommand::Bdat(size, last)) => if size == 0 && last {
                    r.0@ == Seq::<u8>::empty() && r.1 is Finished
                } else {
                    r.0@ == Seq::<u8>::empty() && r.1 is NextChunk && final(self).remaining
                        == size && final(self).last == last
                },
                LineOutcome::Cmd(SpecCommand::Quit) => r.0@ == bye_reply() && r.1 is AbortQuit,
                LineOutcome::Cmd(SpecCommand::Rset) => r.0@ == Seq::<u8>::empty() && r.1 is Abort,
                LineOutcome::Cmd(SpecCommand::Noop) => r.0@ == ok_reply() && r.1 is KeepWaiting,
                LineOutcome::Cmd(_) => r.0@ == expected_bdat_reply() && r.1 is KeepWaiting,
                LineOutcome::SyntaxErr(hint) => r.0@ == syntax_reply(hint) && r.1 is KeepWaiting,
                LineOutcome::Unknown => r.0@ == unknown_reply() && r.1 is KeepWaiting,
                LineOutcome::Invalid => r.0@ == Seq::<u8>::empty() && r.1 is KeepWaiting,
            },
    {
        match Command::parse(line) {
            Ok(Command::Bdat { size, last }) => {
                if size == 0 && last {
                    (Vec::new(), BdatLineAction::Finished)
                } else {
                    self.remaining = size;
                    self.last = last;
                    (Vec::new(), BdatLineAction::NextChunk)
                }
            },
            Ok(Command::Quit) => {
                let mut out: Vec<u8> = Vec::new();
                crate::text::push_str_bytes(&mut out, "221 Bye\r\n");
                proof {
                    assert(out@ =~= bye_reply());
                }
                (out, BdatLineAction::AbortQuit)
            },
            Ok(Command::Rset) => (Vec::new(), BdatLineAction::Abort),
            Ok(Command::Noop) => {
                let mut out: Vec<u8> = Vec::new();
                crate::text::push_str_bytes(&mut out, "250 ok\r\n");
                proof {
                    assert(out@ =~= ok_reply());
                }
                (out, BdatLineAction::KeepWaiting)
            },
            Ok(_) => {
                let mut out: Vec<u8> = Vec::new();
                crate::text::push_str_bytes(&mut out, "503 expected BDAT\r\n");
                proof {
                    assert(out@ =~= expected_bdat_reply());
                }
                (out, BdatLineAction::KeepWaiting)
            },
            Err(Error::Syntax(hint)) => {
                let mut out: Vec<u8> = Vec::new();
                crate::text::push_str_bytes(&mut out, "501 Syntax: ");
                crate::text::push_str_bytes(&mut out, hint);
                out.push(13);
                out.push(10);
                proof {
                    assert(out@ =~= syntax_reply(hint@));
                }
                (out, BdatLineAction::KeepWaiting)
            },
            Err(Error::UnrecognizedCommand) => {
                let mut out: Vec<u8> = Vec::new();
                crate::text::push_str_bytes(&mut out, "500 Unrecognized command\r\n");
                proof {
                    assert(out@ =~= unknown_reply());
                }
                (out, BdatLineAction::KeepWaiting)
            },
            Err(Error::InvalidUtf8) => (Vec::new(), BdatLineAction::KeepWaiting),
        }
    }
}

} // verus!
