//! Message sequence sets (RFC 9051, section 9): comma-separated ranges,
//! each a number, `N:M`, or a range with `*` for the greatest present
//! number.

use vstd::prelude::*;

verus! {

use crate::text::all_digits;
use crate::text::dec_digits;
use crate::text::dec_val;

/// One end of a range: a non-zero message number, or `*`.
#[derive(Debug, Clone, Copy, PartialEq, Eq, Structural)]
pub enum Bound {
    Inclusive(u32),
    Unbounded,
}

/// The wire form of a bound.
pub open spec fn bound_bytes(b: Bound) -> Seq<u8> {
    match b {
        Bound::Inclusive(n) => dec_digits(n as nat),
        Bound::Unbounded => seq![42u8],
    }
}

/// A range of message numbers; `2:4` and a single `7` (a range of one)
/// are both ranges.
#[derive(Debug, Clone, Copy, PartialEq, Eq, Structural)]
pub struct SequenceRange {
    pub lower: Bound,
    pub upper: Bound,
}

impl SequenceRange {
    pub fn new(lower: Bound, upper: Bound) -> (r: Self)
        ensures
            r.lower == lower,
            r.upper == upper,
    {
        SequenceRange { lower, upper }
    }
}

/// A range prints as a single bound when collapsed, else `lower:upper`.
pub open spec fn range_bytes(r: SequenceRange) -> Seq<u8> {
    if r.lower == r.upper {
        bound_bytes(r.lower)
    } else {
        bound_bytes(r.lower) + seq![58u8] + bound_bytes(r.upper)
    }
}

/// A range the formatter and parser agree on: numbers are non-zero and
/// a collapsed range is a number (a lone `*` is not an element of the
/// grammar).
pub open spec fn range_wf(r: SequenceRange) -> bool {
    &&& (r.lower matches Bound::Inclusive(n) ==> n > 0)
    &&& (r.upper matches Bound::Inclusive(n) ==> n > 0)
    &&& (r.lower == r.upper ==> r.lower is Inclusive)
}

/// A sequence set: the ranges in client order.
#[derive(Debug, Clone, PartialEq, Eq)]
pub struct SequenceSet {
    pub ranges: Vec<SequenceRange>,
}

/// The wire form of a set: its ranges, comma-separated.
pub open spec fn set_bytes(ranges: Seq<SequenceRange>) -> Seq<u8> {
    crate::imap::sep_join(44, ranges.map_values(|r: SequenceRange| range_bytes(r)))
}

/// Where the digit run starting at `pos` ends.
pub open spec fn digits_end(s: Seq<u8>, pos: int) -> int
    recommends
        0 <= pos <= s.len(),
    decreases s.len() - pos,
    when 0 <= pos <= s.len()
{
    if pos < s.len() && 48 <= s[pos] <= 57 {
        digits_end(s, pos + 1)
    } else {
        pos
    }
}

pub proof fn lemma_digits_end_bounds(s: Seq<u8>, pos: int)
    requires
        0 <= pos <= s.len(),
    ensures
        pos <= digits_end(s, pos) <= s.len(),
        forall|j: int| pos <= j < digits_end(s, pos) ==> 48 <= #[trigger] s[j] <= 57,
        digits_end(s, pos) < s.len() ==> !(48 <= s[digits_end(s, pos)] <= 57),
    decreases s.len() - pos,
{
    if pos < s.len() && 48 <= s[pos] <= 57 {
        lemma_digits_end_bounds(s, pos + 1);
    }
}

/// A bound at `pos`: a digit run naming a non-zero 32-bit number, or a
/// `*`.
pub open spec fn bound_at(s: Seq<u8>, pos: int) -> Option<(Bound, int)>
    recommends
        0 <= pos <= s.len(),
{
    let e = digits_end(s, pos);
    if e > pos {
        let v = dec_val(s.subrange(pos, e));
        if 1 <= v <= u32::MAX {
            Some((Bound::Inclusive(v as u32), e))
        } else {
            None
        }
    } else if pos < s.len() && s[pos] == 42 {
        Some((Bound::Unbounded, pos + 1))
    } else {
        None
    }
}

pub proof fn lemma_bound_at_bounds(s: Seq<u8>, pos: int)
    requires
        0 <= pos <= s.len(),
    ensures
        bound_at(s, pos) matches Some((b, e)) ==> pos < e <= s.len(),
{
    lemma_digits_end_bounds(s, pos);
}

/// An element at `pos`: `bound : bound`, with a single number as the
/// collapsed fallback exactly as the grammar's ordered choice has it.
pub open spec fn element_at(s: Seq<u8>, pos: int) -> Option<(SequenceRange, int)>
    recommends
        0 <= pos <= s.len(),
{
    match bound_at(s, pos) {
        None => None,
        Some((b1, p1)) => {
            let single = if b1 is Inclusive {
                Some((SequenceRange { lower: b1, upper: b1 }, p1))
            } else {
                None
            };
            if p1 < s.len() && s[p1] == 58 {
                match bound_at(s, p1 + 1) {
                    Some((b2, p2)) => Some((SequenceRange { lower: b1, upper: b2 }, p2)),
                    None => single,
                }
            } else {
                single
            }
        },
    }
}

pub proof fn lemma_element_at_bounds(s: Seq<u8>, pos: int)
    requires
        0 <= pos <= s.len(),
    ensures
        element_at(s, pos) matches Some((r, e)) ==> pos < e <= s.len(),
{
    lemma_bound_at_bounds(s, pos);
    match bound_at(s, pos) {
        Some((b1, p1)) => {
            if p1 < s.len() && s[p1] == 58 {
                lemma_bound_at_bounds(s, p1 + 1);
            }
        },
        None => {
        },
    }
}

/// The ranges that follow an element ending at `pos`: as long as a
/// comma and another element follow, they are taken.
pub open spec fn more_ranges(s: Seq<u8>, pos: int) -> (Seq<SequenceRange>, int)
    recommends
        0 <= pos <= s.len(),
    decreases s.len() - pos,
    when 0 <= pos <= s.len()
{
    if pos < s.len() && s[pos] == 44 {
        match element_at(s, pos + 1) {
            Some((r, p2)) => {
                proof {
                    lemma_element_at_bounds(s, pos + 1);
                }
                let (rest, e) = more_ranges(s, p2);
                (seq![r] + rest, e)
            },
            None => (Seq::<SequenceRange>::empty(), pos),
        }
    } else {
        (Seq::<SequenceRange>::empty(), pos)
    }
}

/// The whole set grammar at the start of the input: possibly no element
/// at all.
pub open spec fn spec_parse(s: Seq<u8>) -> (Seq<SequenceRange>, int) {
    match element_at(s, 0) {
        None => (Seq::<SequenceRange>::empty(), 0),
        Some((r, p)) => {
            let (rest, e) = more_ranges(s, p);
            (seq![r] + rest, e)
        },
    }
}

impl SequenceSet {
    /// Parses a sequence set from the start of the input; the second
    /// component is how many bytes the set covered (possibly none).
    pub fn parse(input: &[u8]) -> (r: (SequenceSet, usize))
        ensures
            r.0.ranges@ == spec_parse(input@).0,
            r.1 == spec_parse(input@).1,
    {
        let mut ranges: Vec<SequenceRange> = Vec::new();
        let mut pos: usize = 0;
        let (first, p) = match element_exec(input, 0) {
            None => {
                proof {
                    assert(ranges@ =~= spec_parse(input@).0);
                }
                return (SequenceSet { ranges }, 0);
            },
            Some(rp) => rp,
        };
        proof {
            lemma_element_at_bounds(input@, 0);
        }
        ranges.push(first);
        pos = p;
        let n = input.len();
        loop
            invariant
                0 < pos <= n,
                n == input@.len(),
                ({
                    let (rest, e) = more_ranges(input@, pos as int);
                    &&& spec_parse(input@).0 == ranges@ + rest
                    &&& spec_parse(input@).1 == e
                }),
            decreases n - pos,
        {
            let ghost (rest0, e0) = more_ranges(input@, pos as int);
            if pos < n && input[pos] == 44 {
                match element_exec(input, pos + 1) {
                    Some((r, p2)) => {
                        proof {
                            lemma_element_at_bounds(input@, pos as int + 1);
                            let (rest1, e1) = more_ranges(input@, p2 as int);
                            assert(rest0 =~= seq![r] + rest1);
                            assert((ranges@ + rest0) =~= (ranges@.push(r) + rest1));
                        }
                        ranges.push(r);
                        pos = p2;
                    },
                    None => {
                        proof {
                            assert(ranges@ + rest0 =~= ranges@);
                        }
                        return (SequenceSet { ranges }, pos);
                    },
                }
            } else {
                proof {
                    assert(ranges@ + rest0 =~= ranges@);
                }
                return (SequenceSet { ranges }, pos);
            }
        }
    }

    /// Formats the set: the ranges comma-separated, a collapsed range
    /// as its single number.
    pub fn to_bytes(&self) -> (out: Vec<u8>)
        ensures
            out@ == set_bytes(self.ranges@),
    {
        let ghost im = self.ranges@.map_values(|r: SequenceRange| range_bytes(r));
        let mut out: Vec<u8> = Vec::new();
        let n = self.ranges.len();
        let mut i: usize = 0;
        while i < n
            invariant
                0 <= i <= n,
                n == self.ranges@.len(),
                im == self.ranges@.map_values(|r: SequenceRange| range_bytes(r)),
                out@ == crate::imap::sep_join_upto(44, im, i as int),
            decreases n - i,
        {
            if i > 0 {
                out.push(44);
            }
            push_range(&mut out, &self.ranges[i]);
            proof {
                assert(im[i as int] == range_bytes(self.ranges@[i as int]));
                assert(out@ =~= crate::imap::sep_join_upto(44, im, i + 1));
            }
            i += 1;
        }
        proof {
            crate::imap::lemma_sep_join_upto_all(44, im);
        }
        out
    }
}

/// Appends one bound.
fn push_bound(out: &mut Vec<u8>, b: &Bound)
    ensures
        final(out)@ == old(out)@ + bound_bytes(*b),
{
    match b {
        Bound::Inclusive(n) => crate::text::push_dec_u32(out, *n),
        Bound::Unbounded => {
            out.push(42);
            proof {
                assert(out@ =~= old(out)@ + bound_bytes(*b));
            }
        },
    }
}

/// Appends one range.
fn push_range(out: &mut Vec<u8>, r: &SequenceRange)
    ensures
        final(out)@ == old(out)@ + range_bytes(*r),
{
    let collapsed = match (&r.lower, &r.upper) {
        (Bound::Inclusive(a), Bound::Inclusive(b)) => *a == *b,
        (Bound::Unbounded, Bound::Unbounded) => true,
        _ => false,
    };
    if collapsed {
        push_bound(out, &r.lower);
    } else {
        push_bound(out, &r.lower);
        out.push(58);
        push_bound(out, &r.upper);
        proof {
            assert(out@ =~= old(out)@ + range_bytes(*r));
        }
    }
}

/// One bound read off the input, as the grammar has it.
fn bound_exec(input: &[u8], pos: usize) -> (r: Option<(Bound, usize)>)
    requires
        pos <= input@.len(),
    ensures
        match r {
            Some((b, e)) => bound_at(input@, pos as int) == Some((b, e as int)),
            None => bound_at(input@, pos as int) is None,
        },
{
    let n = input.len();
    let mut e: usize = pos;
    while e < n && 48 <= input[e] && input[e] <= 57
        invariant
            pos <= e <= n,
            n == input@.len(),
            digits_end(input@, pos as int) == digits_end(input@, e as int),
            forall|j: int| pos <= j < e ==> 48 <= #[trigger] input@[j] <= 57,
        decreases n - e,
    {
        e += 1;
    }
    proof {
        assert(digits_end(input@, e as int) == e);
    }
    if e > pos {
        let run = vstd::slice::slice_subrange(input, pos, e);
        proof {
            assert(all_digits(run@));
        }
        match crate::text::parse_u64(run) {
            Some(v) if 1 <= v && v <= u32::MAX as u64 => Some((Bound::Inclusive(v as u32), e)),
            _ => None,
        }
    } else if pos < n && input[pos] == 42 {
        Some((Bound::Unbounded, pos + 1))
    } else {
        None
    }
}

/// One element read off the input.
fn element_exec(input: &[u8], pos: usize) -> (r: Option<(SequenceRange, usize)>)
    requires
        pos <= input@.len(),
    ensures
        match r {
            Some((rg, e)) => element_at(input@, pos as int) == Some((rg, e as int)),
            None => element_at(input@, pos as int) is None,
        },
{
    let n = input.len();
    match bound_exec(input, pos) {
        None => None,
        Some((b1, p1)) => {
            proof {
                lemma_bound_at_bounds(input@, pos as int);
            }
            let single: Option<(SequenceRange, usize)> = match b1 {
                Bound::Inclusive(_) => Some((SequenceRange { lower: b1, upper: b1 }, p1)),
                Bound::Unbounded => None,
            };
            if p1 < n && input[p1] == 58 {
                match bound_exec(input, p1 + 1) {
                    Some((b2, p2)) => Some((SequenceRange { lower: b1, upper: b2 }, p2)),
                    None => single,
                }
            } else {
                single
            }
        },
    }
}

/// A digit run embedded in a larger buffer parses to its own end.
proof fn lemma_digits_end_frame(w: Seq<u8>, pos: int, t: Seq<u8>)
    requires
        0 <= pos,
        pos + t.len() <= w.len(),
        w.subrange(pos, pos + t.len()) == t,
        all_digits(t),
        pos + t.len() == w.len() || !(48 <= w[pos + t.len()] <= 57),
    ensures
        digits_end(w, pos) == pos + t.len(),
    decreases t.len(),
{
    if t.len() == 0 {
    } else {
        assert(w[pos] == t[0]);
        assert(48 <= t[0] <= 57);
        assert(w.subrange(pos + 1, pos + 1 + t.drop_first().len()) =~= t.drop_first());
        assert(all_digits(t.drop_first()));
        lemma_digits_end_frame(w, pos + 1, t.drop_first());
    }
}

/// A well-formed bound embedded before a stopper byte parses to
/// itself.
proof fn lemma_bound_frame(w: Seq<u8>, pos: int, b: Bound)
    requires
        0 <= pos,
        pos + bound_bytes(b).len() <= w.len(),
        w.subrange(pos, pos + bound_bytes(b).len()) == bound_bytes(b),
        b matches Bound::Inclusive(n) ==> n > 0,
        ({
            let e = pos + bound_bytes(b).len();
            e == w.len() || !(48 <= w[e] <= 57)
        }),
    ensures
        bound_at(w, pos) == Some((b, pos + bound_bytes(b).len())),
{
    match b {
        Bound::Inclusive(n) => {
            let t = dec_digits(n as nat);
            crate::text::lemma_dec_digits_canonical(n as nat);
            lemma_digits_end_frame(w, pos, t);
            assert(w.subrange(pos, pos + t.len()) == t);
            assert(dec_val(w.subrange(pos, digits_end(w, pos))) == n);
        },
        Bound::Unbounded => {
            assert(bound_bytes(b)[0] == 42);
            assert(w[pos] == w.subrange(pos, pos + bound_bytes(b).len() as int)[0]);
            lemma_digits_end_bounds(w, pos);
            assert(digits_end(w, pos) == pos);
        },
    }
}

/// A well-formed range embedded before a comma or the end parses to
/// itself.
proof fn lemma_element_frame(w: Seq<u8>, pos: int, r: SequenceRange)
    requires
        0 <= pos,
        pos + range_bytes(r).len() <= w.len(),
        w.subrange(pos, pos + range_bytes(r).len()) == range_bytes(r),
        range_wf(r),
        ({
            let e = pos + range_bytes(r).len();
            e == w.len() || w[e] == 44
        }),
    ensures
        element_at(w, pos) == Some((r, pos + range_bytes(r).len())),
{
    let e = pos + range_bytes(r).len();
    assert forall|k: int| 0 <= k < range_bytes(r).len() implies w[pos + k] == #[trigger] range_bytes(
        r,
    )[k] by {
        assert(w.subrange(pos, pos + range_bytes(r).len() as int)[k] == range_bytes(r)[k]);
    }
    if r.lower == r.upper {
        let b = r.lower;
        assert(b is Inclusive);
        lemma_bound_frame(w, pos, b);
        assert(!(pos + bound_bytes(b).len() < w.len() && w[pos + bound_bytes(b).len()] == 58));
    } else {
        let lb = bound_bytes(r.lower);
        let ub = bound_bytes(r.upper);
        let mid = pos + lb.len() as int;
        assert(range_bytes(r)[lb.len() as int] == 58);
        assert(w[mid] == 58);
        assert(w.subrange(pos, mid) =~= lb);
        assert forall|k: int|
            0 <= k < ub.len() implies w.subrange(mid + 1, mid + 1 + ub.len() as int)[k] == ub[k] by {
            assert(w[pos + (lb.len() + 1 + k)] == range_bytes(r)[lb.len() as int + 1 + k]);
            assert(range_bytes(r)[lb.len() as int + 1 + k] == ub[k]);
        }
        assert(w.subrange(mid + 1, mid + 1 + ub.len() as int) =~= ub);
        lemma_bound_frame(w, pos, r.lower);
        lemma_bound_frame(w, mid + 1, r.upper);
    }
}

/// The wire tail after the first range: a comma before every further
/// range.
pub open spec fn tail_bytes(ranges: Seq<SequenceRange>) -> Seq<u8>
    decreases ranges.len(),
{
    if ranges.len() == 0 {
        Seq::<u8>::empty()
    } else {
        seq![44u8] + range_bytes(ranges[0]) + tail_bytes(ranges.drop_first())
    }
}

proof fn lemma_set_bytes_head(ranges: Seq<SequenceRange>)
    requires
        ranges.len() > 0,
    ensures
        set_bytes(ranges) == range_bytes(ranges[0]) + tail_bytes(ranges.drop_first()),
    decreases ranges.len(),
{
    let im = ranges.map_values(|r: SequenceRange| range_bytes(r));
    if ranges.len() == 1 {
        assert(set_bytes(ranges) == im[0]);
        assert(tail_bytes(ranges.drop_first()) =~= Seq::<u8>::empty());
        assert(range_bytes(ranges[0]) + tail_bytes(ranges.drop_first()) =~= range_bytes(
            ranges[0],
        ));
    } else {
        let d = ranges.drop_first();
        lemma_set_bytes_head(d);
        assert(im.drop_first() =~= d.map_values(|r: SequenceRange| range_bytes(r)));
        assert(set_bytes(ranges) == im[0] + seq![44u8] + set_bytes(d));
        assert(tail_bytes(d) =~= seq![44u8] + range_bytes(d[0]) + tail_bytes(d.drop_first()));
        assert(im[0] + seq![44u8] + (range_bytes(d[0]) + tail_bytes(d.drop_first()))
            =~= range_bytes(ranges[0]) + tail_bytes(d));
    }
}

/// Parsing the tail: every comma-prefixed range is taken, up to the
/// end of the buffer.
proof fn lemma_more_frame(w: Seq<u8>, pos: int, ranges: Seq<SequenceRange>)
    requires
        0 <= pos <= w.len(),
        w.subrange(pos, w.len() as int) == tail_bytes(ranges),
        forall|i: int| 0 <= i < ranges.len() ==> range_wf(#[trigger] ranges[i]),
    ensures
        more_ranges(w, pos) == (ranges, w.len() as int),
    decreases ranges.len(),
{
    let whole = w.subrange(pos, w.len() as int);
    if ranges.len() == 0 {
        assert(whole.len() == 0);
        assert(pos == w.len());
        assert(more_ranges(w, pos).0 =~= ranges);
    } else {
        let r0 = ranges[0];
        let rb = range_bytes(r0);
        let tb = tail_bytes(ranges);
        let td = tail_bytes(ranges.drop_first());
        assert(tb == seq![44u8] + rb + td);
        assert(w[pos] == 44) by {
            assert(w[pos] == whole[0]);
            assert(tb[0] == 44);
        }
        let p1 = pos + 1;
        assert forall|j: int| 0 <= j < rb.len() implies w.subrange(p1, p1 + rb.len() as int)[j]
            == rb[j] by {
            assert(w[pos + (1 + j)] == whole[1 + j]);
            assert(tb[1 + j] == rb[j]);
        }
        assert(w.subrange(p1, p1 + rb.len() as int) =~= rb);
        let e = p1 + rb.len() as int;
        assert(e == w.len() || w[e] == 44) by {
            if e < w.len() {
                assert(w[e] == whole[1 + rb.len() as int]);
                assert(td.len() > 0);
                assert(tb[1 + rb.len() as int] == td[0]);
                assert(td[0] == 44);
            }
        }
        lemma_element_frame(w, p1, r0);
        assert forall|j: int| 0 <= j < w.len() - e implies w.subrange(e, w.len() as int)[j]
            == td[j] by {
            assert(w[pos + (1 + rb.len() + j)] == whole[1 + rb.len() as int + j]);
            assert(tb[1 + rb.len() as int + j] == td[j]);
        }
        assert(w.subrange(e, w.len() as int) =~= td);
        lemma_more_frame(w, e, ranges.drop_first());
        assert(more_ranges(w, pos).0 =~= ranges);
    }
}

/// Printing a well-formed sequence set and parsing the result gives
/// the same set back, consuming the whole text: parse and print are
/// mutually inverse on the sets the grammar can express.
pub proof fn lemma_sequence_roundtrip(ranges: Seq<SequenceRange>)
    requires
        forall|i: int| 0 <= i < ranges.len() ==> range_wf(#[trigger] ranges[i]),
    ensures
        spec_parse(set_bytes(ranges)).0 == ranges,
        spec_parse(set_bytes(ranges)).1 == set_bytes(ranges).len(),
{
    let w = set_bytes(ranges);
    if ranges.len() == 0 {
        assert(w =~= Seq::<u8>::empty());
        lemma_digits_end_bounds(w, 0);
        assert(spec_parse(w).0 =~= ranges);
    } else {
        lemma_set_bytes_head(ranges);
        let r0 = ranges[0];
        let rb = range_bytes(r0);
        assert(w.subrange(0, rb.len() as int) =~= rb);
        let e = rb.len() as int;
        assert(e == w.len() || w[e] == 44) by {
            if e < w.len() {
                assert(w[e] == tail_bytes(ranges.drop_first())[0]);
            }
        }
        lemma_element_frame(w, 0, r0);
        assert(w.subrange(e, w.len() as int) =~= tail_bytes(ranges.drop_first()));
        lemma_more_frame(w, e, ranges.drop_first());
        assert(spec_parse(w).0 =~= ranges);
    }
}

} // verus!
