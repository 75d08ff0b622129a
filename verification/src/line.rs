//! Line-oriented framing: both protocols exchange CRLF-terminated lines.
//!
//! The transport read loop lives outside the crate; here stand the exact
//! model of how a raw byte stream is cut into lines, the trimming of line
//! endings, and the proof that framing a line and reading it back returns
//! the very same bytes.

use vstd::prelude::*;

verus! {

/// Why a line read failed: the transport failed, or the stream ended
/// before a single byte of the line arrived.
#[derive(Debug, Clone, Copy, PartialEq, Eq, Structural)]
pub enum ReadLineError {
    Io,
    Eof,
}

/// The CRLF pair that terminates every line on the wire.
pub open spec fn crlf() -> Seq<u8> {
    seq![13u8, 10u8]
}

/// `s` with every trailing CR or LF byte removed.
pub open spec fn trim_crlf(s: Seq<u8>) -> Seq<u8>
    decreases s.len(),
{
    if s.len() > 0 && (s.last() == 13 || s.last() == 10) {
        trim_crlf(s.drop_last())
    } else {
        s
    }
}

/// Where the line that starts at `start` ends: one past its LF, or the
/// end of the buffer when no LF follows.
pub open spec fn line_end(s: Seq<u8>, start: int) -> int {
    if exists|i: int| start <= i < s.len() && s[i] == 10 {
        (choose|i: int|
            start <= i < s.len() && s[i] == 10 && forall|j: int| start <= j < i ==> s[j] != 10) + 1
    } else {
        s.len() as int
    }
}

/// The line beginning at `start`, with its ending trimmed: what a reader
/// hands to the parser.
pub open spec fn line_at(s: Seq<u8>, start: int) -> Seq<u8> {
    trim_crlf(s.subrange(start, line_end(s, start)))
}

/// Removes the trailing CR/LF run from a buffer, in place.
pub fn trim_line_ending(buf: &mut Vec<u8>)
    ensures
        final(buf)@ == trim_crlf(old(buf)@),
{
    loop
        invariant
            trim_crlf(buf@) == trim_crlf(old(buf)@),
        decreases buf@.len(),
    {
        let n = buf.len();
        if n == 0 {
            return ;
        }
        let b = buf[n - 1];
        if b == 13 || b == 10 {
            proof {
                assert(buf@.drop_last() =~= buf@.subrange(0, n - 1));
            }
            buf.truncate(n - 1);
        } else {
            return ;
        }
    }
}

/// Cuts the next line out of a byte buffer: `None` at the end of the
/// buffer, otherwise the trimmed line and the position just after it.
pub fn take_line(input: &[u8], start: usize) -> (r: Option<(Vec<u8>, usize)>)
    requires
        start <= input@.len(),
    ensures
        r is Some <==> start < input@.len(),
        r is Some ==> ({
            let (line, next) = r.unwrap();
            &&& next == line_end(input@, start as int)
            &&& start < next <= input@.len()
            &&& line@ == line_at(input@, start as int)
        }),
{
    if start >= input.len() {
        return None;
    }
    let end = match crate::text::find_byte(input, 10, start) {
        Some(i) => i + 1,
        None => input.len(),
    };
    proof {
        assert(end == line_end(input@, start as int)) by {
            if exists|i: int| start <= i < input@.len() && input@[i] == 10 {
                let w = choose|i: int|
                    start <= i < input@.len() && input@[i] == 10 && forall|j: int|
                        start <= j < i ==> input@[j] != 10;
                assert(input@[w] == 10);
            }
        }
    }
    let mut line: Vec<u8> = Vec::new();
    let mut i: usize = start;
    while i < end
        invariant
            start <= i <= end <= input@.len(),
            line@ =~= input@.subrange(start as int, i as int),
        decreases end - i,
    {
        line.push(input[i]);
        proof {
            assert(line@ =~= input@.subrange(start as int, i + 1));
        }
        i += 1;
    }
    trim_line_ending(&mut line);
    Some((line, end))
}

/// Trimming strips an exact CRLF terminator.
proof fn lemma_trim_crlf_terminated(s: Seq<u8>)
    requires
        s.len() == 0 || (s.last() != 13 && s.last() != 10),
    ensures
        trim_crlf(s + crlf()) == s,
        trim_crlf(s) == s,
{
    let t = s + crlf();
    assert(t.last() == 10);
    assert(t.drop_last() =~= s + seq![13u8]);
    assert((s + seq![13u8]).last() == 13);
    assert((s + seq![13u8]).drop_last() =~= s);
    assert(trim_crlf(t) == trim_crlf(s + seq![13u8]));
    assert(trim_crlf(s + seq![13u8]) == trim_crlf(s));
}

/// Line framing round-trip: a line without CR or LF bytes, written with a
/// CRLF terminator, is read back unchanged by the line reader, whatever
/// follows it on the stream.
pub proof fn lemma_line_roundtrip(s: Seq<u8>, rest: Seq<u8>)
    requires
        forall|i: int| 0 <= i < s.len() ==> s[i] != 13 && #[trigger] s[i] != 10,
    ensures
        line_end(s + crlf() + rest, 0) == s.len() + 2,
        line_at(s + crlf() + rest, 0) == s,
{
    let w = s + crlf() + rest;
    assert(w[s.len() as int + 1] == 10);
    assert(forall|j: int| 0 <= j < s.len() + 1 ==> #[trigger] w[j] != 10);
    assert(exists|i: int| 0 <= i < w.len() && w[i] == 10);
    let c = choose|i: int|
        0 <= i < w.len() && w[i] == 10 && forall|j: int| 0 <= j < i ==> w[j] != 10;
    assert(w[c] == 10);
    assert(c == s.len() + 1);
    assert(w.subrange(0, s.len() as int + 2) =~= s + crlf());
    if s.len() > 0 {
        lemma_trim_crlf_terminated(s);
    } else {
        lemma_trim_crlf_terminated(s);
    }
}

/// Any occurrence of a byte has a first occurrence.
proof fn lemma_exists_first(s: Seq<u8>, start: int)
    requires
        0 <= start,
        exists|i: int| start <= i < s.len() && s[i] == 10,
    ensures
        exists|i: int|
            start <= i < s.len() && s[i] == 10 && forall|j: int| start <= j < i ==> s[j] != 10,
    decreases s.len() - start,
{
    let i0 = choose|i: int| start <= i < s.len() && s[i] == 10;
    if s[start] == 10 {
        assert(start <= start < s.len() && s[start] == 10 && forall|j: int|
            start <= j < start ==> s[j] != 10);
    } else {
        assert(start <= i0 < s.len() && s[i0] == 10);
        assert(i0 != start);
        lemma_exists_first(s, start + 1);
        let w = choose|i: int|
            start + 1 <= i < s.len() && s[i] == 10 && forall|j: int|
                start + 1 <= j < i ==> s[j] != 10;
        assert(start <= w < s.len() && s[w] == 10 && forall|j: int| start <= j < w ==> s[j] != 10);
    }
}

/// Where a line ends always lies past its start and within the buffer.
pub proof fn lemma_line_end_bounds(s: Seq<u8>, start: int)
    requires
        0 <= start <= s.len(),
    ensures
        start <= line_end(s, start) <= s.len(),
        start < s.len() ==> start < line_end(s, start),
{
    if exists|i: int| start <= i < s.len() && s[i] == 10 {
        lemma_exists_first(s, start);
        let c = choose|i: int|
            start <= i < s.len() && s[i] == 10 && forall|j: int| start <= j < i ==> s[j] != 10;
        assert(start <= c < s.len() && s[c] == 10);
    }
}

/// Line framing at any position: a CRLF-terminated line without inner
/// CR or LF bytes is read back unchanged from wherever it starts.
pub proof fn lemma_line_at_frame(s: Seq<u8>, start: int, line: Seq<u8>, rest: Seq<u8>)
    requires
        0 <= start <= s.len(),
        s.subrange(start, s.len() as int) == line + crlf() + rest,
        forall|i: int| 0 <= i < line.len() ==> line[i] != 13 && #[trigger] line[i] != 10,
    ensures
        line_end(s, start) == start + line.len() + 2,
        line_at(s, start) == line,
{
    let ll = line.len() as int;
    let w = s.subrange(start, s.len() as int);
    assert(w.len() == ll + 2 + rest.len());
    assert(s[start + ll + 1] == 10) by {
        assert(w[ll + 1] == (line + crlf() + rest)[ll + 1]);
        assert((line + crlf() + rest)[ll + 1] == crlf()[1]);
    }
    assert forall|j: int| start <= j < start + ll + 1 implies s[j] != 10 by {
        let k = j - start;
        assert(w[k] == s[start + k]);
        assert(w[k] == (line + crlf() + rest)[k]);
        if k < ll {
            assert((line + crlf() + rest)[k] == line[k]);
        } else {
            assert((line + crlf() + rest)[k] == crlf()[0]);
        }
    }
    assert(exists|i: int| start <= i < s.len() && s[i] == 10);
    let c = choose|i: int|
        start <= i < s.len() && s[i] == 10 && forall|j: int| start <= j < i ==> s[j] != 10;
    assert(s[c] == 10);
    assert(c == start + ll + 1);
    assert(line_end(s, start) == start + ll + 2);
    assert(s.subrange(start, start + ll + 2) =~= line + crlf());
    lemma_trim_crlf_terminated(line);
}

} // verus!
