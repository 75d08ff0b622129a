//! The IMAP side: command grammar, response formatters, typed flags,
//! the session state machine and its operation queue.

pub mod capability;
pub mod command;
pub mod fetch;
pub mod flags;
pub mod list;
pub mod ops;
pub mod queue;
pub mod response;
pub mod select;
pub mod sequence;
pub mod session;
pub mod status;

use vstd::prelude::*;

verus! {

/// A unique identifier for a message; valid identifiers are non-zero.
#[derive(Debug, Clone, Copy, PartialEq, Eq, Structural)]
pub struct Uid(pub u32);

impl Uid {
    /// Message identifiers are non-zero (RFC 9051, section 2.3.1.1).
    pub open spec fn valid(&self) -> bool {
        self.0 > 0
    }
}

/// The client-chosen identifier that correlates a command with its
/// tagged responses.
#[derive(Debug, Clone, PartialEq, Eq, Hash)]
pub struct Tag(pub String);

/// The space-separated parenthesized list of RFC 9051, section 4.4.
pub open spec fn sep_join(sep: u8, items: Seq<Seq<u8>>) -> Seq<u8>
    decreases items.len(),
{
    if items.len() == 0 {
        Seq::<u8>::empty()
    } else if items.len() == 1 {
        items[0]
    } else {
        items[0] + seq![sep] + sep_join(sep, items.drop_first())
    }
}

pub open spec fn paren_list(items: Seq<Seq<u8>>) -> Seq<u8> {
    seq![40u8] + sep_join(32, items) + seq![41u8]
}

/// What joining the first `i` items produces, a separator before every
/// item but the first.
pub open spec fn sep_join_upto(sep: u8, items: Seq<Seq<u8>>, i: int) -> Seq<u8>
    recommends
        0 <= i <= items.len(),
    decreases i,
{
    if i <= 0 {
        Seq::<u8>::empty()
    } else {
        sep_join_upto(sep, items, i - 1) + (if i == 1 {
            Seq::<u8>::empty()
        } else {
            seq![sep]
        }) + items[i - 1]
    }
}

proof fn lemma_sep_join_shift(sep: u8, items: Seq<Seq<u8>>, i: int)
    requires
        items.len() > 0,
        1 <= i <= items.len(),
    ensures
        sep_join_upto(sep, items, i) == items[0] + sep_join_upto2(sep, items.drop_first(), i - 1),
    decreases i,
{
    let d = items.drop_first();
    if i == 1 {
        assert(sep_join_upto(sep, items, 0) == Seq::<u8>::empty());
        assert(sep_join_upto2(sep, d, 0) == Seq::<u8>::empty());
        assert(sep_join_upto(sep, items, 1) =~= items[0] + sep_join_upto2(sep, d, 0));
    } else {
        lemma_sep_join_shift(sep, items, i - 1);
        assert(d[i - 2] == items[i - 1]);
        assert((items[0] + sep_join_upto2(sep, d, i - 2)) + seq![sep] + items[i - 1]
            =~= items[0] + (sep_join_upto2(sep, d, i - 2) + seq![sep] + d[i - 2]));
    }
}

/// Joining from the second item on, a separator before every item.
pub open spec fn sep_join_upto2(sep: u8, items: Seq<Seq<u8>>, i: int) -> Seq<u8>
    recommends
        0 <= i <= items.len(),
    decreases i,
{
    if i <= 0 {
        Seq::<u8>::empty()
    } else {
        sep_join_upto2(sep, items, i - 1) + seq![sep] + items[i - 1]
    }
}

proof fn lemma_sep_join2_shift(sep: u8, items: Seq<Seq<u8>>, i: int)
    requires
        items.len() > 0,
        1 <= i <= items.len(),
    ensures
        sep_join_upto2(sep, items, i) == seq![sep] + items[0] + sep_join_upto2(
            sep,
            items.drop_first(),
            i - 1,
        ),
    decreases i,
{
    let d = items.drop_first();
    if i == 1 {
        assert(sep_join_upto2(sep, items, 0) == Seq::<u8>::empty());
        assert(sep_join_upto2(sep, d, 0) == Seq::<u8>::empty());
        assert(sep_join_upto2(sep, items, 1) =~= seq![sep] + items[0] + sep_join_upto2(
            sep,
            d,
            0,
        ));
    } else {
        lemma_sep_join2_shift(sep, items, i - 1);
        assert(d[i - 2] == items[i - 1]);
        assert((seq![sep] + items[0] + sep_join_upto2(sep, d, i - 2)) + seq![sep]
            + items[i - 1] =~= seq![sep] + items[0] + (sep_join_upto2(sep, d, i - 2)
            + seq![sep] + d[i - 2]));
    }
}

/// The item-at-a-time join equals the recursive one.
pub proof fn lemma_sep_join_upto_all(sep: u8, items: Seq<Seq<u8>>)
    ensures
        sep_join_upto(sep, items, items.len() as int) == sep_join(sep, items),
    decreases items.len(),
{
    if items.len() == 0 {
    } else if items.len() == 1 {
        assert(sep_join_upto(sep, items, 0) == Seq::<u8>::empty());
        assert(sep_join_upto(sep, items, 1) =~= items[0]);
    } else {
        lemma_sep_join_upto_all(sep, items.drop_first());
        lemma_sep_join_shift(sep, items, items.len() as int);
        lemma_sep_join2_vs_join(sep, items.drop_first());
        assert(sep_join(sep, items) == items[0] + seq![sep] + sep_join(sep, items.drop_first()));
        assert(items[0] + (seq![sep] + sep_join(sep, items.drop_first())) =~= items[0]
            + seq![sep] + sep_join(sep, items.drop_first()));
    }
}

proof fn lemma_sep_join2_vs_join(sep: u8, items: Seq<Seq<u8>>)
    requires
        items.len() > 0,
    ensures
        sep_join_upto2(sep, items, items.len() as int) == seq![sep] + sep_join(sep, items),
    decreases items.len(),
{
    if items.len() == 1 {
        assert(sep_join_upto2(sep, items, 0) == Seq::<u8>::empty());
        assert(sep_join_upto2(sep, items, 1) =~= seq![sep] + sep_join(sep, items));
    } else {
        lemma_sep_join2_vs_join(sep, items.drop_first());
        lemma_sep_join2_shift(sep, items, items.len() as int);
        assert(seq![sep] + items[0] + (seq![sep] + sep_join(sep, items.drop_first()))
            =~= seq![sep] + (items[0] + seq![sep] + sep_join(
            sep,
            items.drop_first(),
        )));
    }
}

/// Formats a parenthesized list (RFC 9051, section 4.4): the items
/// delimited by spaces, the whole bounded by parentheses.
pub fn fmt_paren_list(out: &mut Vec<u8>, items: &Vec<Vec<u8>>)
    ensures
        final(out)@ == old(out)@ + paren_list(items@.map_values(|v: Vec<u8>| v@)),
{
    let ghost im = items@.map_values(|v: Vec<u8>| v@);
    out.push(40);
    let n = items.len();
    let mut i: usize = 0;
    while i < n
        invariant
            0 <= i <= n,
            n == items@.len(),
            im == items@.map_values(|v: Vec<u8>| v@),
            out@ == old(out)@ + seq![40u8] + sep_join_upto(32, im, i as int),
        decreases n - i,
    {
        if i > 0 {
            out.push(32);
        }
        out.extend_from_slice(items[i].as_slice());
        proof {
            assert(im[i as int] == items@[i as int]@);
            assert(out@ =~= old(out)@ + seq![40u8] + sep_join_upto(32, im, i + 1));
        }
        i += 1;
    }
    out.push(41);
    proof {
        lemma_sep_join_upto_all(32, im);
        assert(out@ =~= old(out)@ + paren_list(im));
    }
}

} // verus!
