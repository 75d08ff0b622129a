//! The mail envelope and the handle a ready message body is yielded
//! through.

use vstd::prelude::*;

verus! {

use vstd::utf8::encode_utf8;

/// The sender and recipients of one mail transaction. The recipient
/// list has set semantics: no address appears twice.
pub struct Envelope {
    pub from: String,
    pub recipients: Vec<String>,
}

impl Envelope {
    /// No recipient address appears twice.
    pub open spec fn wf(&self) -> bool {
        forall|i: int, j: int|
            0 <= i < j < self.recipients@.len() ==> #[trigger] self.recipients@[i]@
                != #[trigger] self.recipients@[j]@
    }

    /// A fresh envelope for a sender: no recipients yet.
    pub fn new(from: String) -> (r: Self)
        ensures
            r.from == from,
            r.recipients@.len() == 0,
            r.wf(),
    {
        Envelope { from, recipients: Vec::new() }
    }

    /// Adds a recipient; an address already present is not added again.
    pub fn add_recipient(&mut self, to: String)
        requires
            old(self).wf(),
        ensures
            final(self).wf(),
            final(self).from == old(self).from,
            (exists|i: int|
                0 <= i < old(self).recipients@.len() && old(self).recipients@[i]@ == to@) ==> final(self).recipients@ == old(self).recipients@,
            !(exists|i: int|
                0 <= i < old(self).recipients@.len() && old(self).recipients@[i]@ == to@) ==> final(self).recipients@ == old(self).recipients@.push(to),
    {
        let n = self.recipients.len();
        let mut i: usize = 0;
        while i < n
            invariant
                0 <= i <= n,
                n == self.recipients@.len(),
                *self == *old(self),
                old(self).wf(),
                forall|j: int| 0 <= j < i ==> self.recipients@[j]@ != to@,
            decreases n - i,
        {
            let existing = &self.recipients[i];
            if crate::text::bytes_eq(existing.as_str().as_bytes(), to.as_str().as_bytes()) {
                proof {
                    vstd::utf8::encode_utf8_decode_utf8(existing@);
                    vstd::utf8::encode_utf8_decode_utf8(to@);
                    assert(existing@ == to@);
                    assert(exists|k: int|
                        0 <= k < old(self).recipients@.len() && old(self).recipients@[k]@
                            == to@) by {
                        assert(old(self).recipients@[i as int]@ == to@);
                    }
                    assert(self.recipients@ == old(self).recipients@);
                    assert(self.wf());
                }
                return ;
            }
            proof {
                if existing@ == to@ {
                    assert(encode_utf8(existing@) == encode_utf8(to@));
                }
            }
            i += 1;
        }
        self.recipients.push(to);
    }
}

/// How a message body arrives: the dot-stuffed DATA stream, or
/// length-prefixed BDAT chunks.
pub enum BodyMode {
    Data,
    Bdat { size: u64, last: bool },
}

/// A message ready to be received: its envelope and how its body is
/// framed on the wire. The caller streams the body and then settles it
/// with the accept or reject reply.
pub struct Incoming {
    pub envelope: Envelope,
    pub mode: BodyMode,
}

impl Incoming {
    pub fn envelope(&self) -> (r: &Envelope)
        ensures
            r == &self.envelope,
    {
        &self.envelope
    }
}

/// The reply that settles an accepted message.
pub fn accept_reply() -> (r: Vec<u8>)
    ensures
        r@ == encode_utf8("250 ok\r\n"@),
{
    let mut out: Vec<u8> = Vec::new();
    crate::text::push_str_bytes(&mut out, "250 ok\r\n");
    proof {
        assert(out@ =~= encode_utf8("250 ok\r\n"@));
    }
    out
}

/// The reply that settles a rejected message.
pub fn reject_reply() -> (r: Vec<u8>)
    ensures
        r@ == encode_utf8("554 nope\r\n"@),
{
    let mut out: Vec<u8> = Vec::new();
    crate::text::push_str_bytes(&mut out, "554 nope\r\n");
    proof {
        assert(out@ =~= encode_utf8("554 nope\r\n"@));
    }
    out
}

} // verus!
