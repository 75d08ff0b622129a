//! The STATUS data items and the STATUS response line.

use vstd::prelude::*;

verus! {

use vstd::utf8::encode_utf8;

use crate::imap::Uid;
use crate::imap::paren_list;
use crate::text::dec_digits;
use crate::text::has_token;

/// Which STATUS data items a client asked for.
#[derive(Debug, Clone, Copy, PartialEq, Eq, Structural)]
pub struct Items {
    /// The number of messages in the mailbox.
    pub messages: bool,
    /// The next unique identifier value of the mailbox.
    pub uidnext: bool,
    /// The unique identifier validity value of the mailbox.
    pub uidvalidity: bool,
    /// The number of messages without the `\Seen` flag.
    pub unseen: bool,
    /// The number of messages with the `\Deleted` flag.
    pub deleted: bool,
    /// The total size of the mailbox in octets.
    pub size: bool,
}

impl Items {
    pub fn empty() -> (r: Self)
        ensures
            r == (Items {
                messages: false,
                uidnext: false,
                uidvalidity: false,
                unseen: false,
                deleted: false,
                size: false,
            }),
    {
        Items {
            messages: false,
            uidnext: false,
            uidvalidity: false,
            unseen: false,
            deleted: false,
            size: false,
        }
    }

    /// The items named by space-separated names; unknown names are
    /// silently ignored.
    pub fn from_names(names: &[u8]) -> (r: Self)
        ensures
            r.messages == has_token(names@, encode_utf8("MESSAGES"@)),
            r.uidnext == has_token(names@, encode_utf8("UIDNEXT"@)),
            r.uidvalidity == has_token(names@, encode_utf8("UIDVALIDITY"@)),
            r.unseen == has_token(names@, encode_utf8("UNSEEN"@)),
            r.deleted == has_token(names@, encode_utf8("DELETED"@)),
            r.size == has_token(names@, encode_utf8("SIZE"@)),
    {
        Items {
            messages: crate::text::has_token_bytes(names, "MESSAGES".as_bytes()),
            uidnext: crate::text::has_token_bytes(names, "UIDNEXT".as_bytes()),
            uidvalidity: crate::text::has_token_bytes(names, "UIDVALIDITY".as_bytes()),
            unseen: crate::text::has_token_bytes(names, "UNSEEN".as_bytes()),
            deleted: crate::text::has_token_bytes(names, "DELETED".as_bytes()),
            size: crate::text::has_token_bytes(names, "SIZE".as_bytes()),
        }
    }
}

/// The values a STATUS reply carries; only the present ones are
/// reported, in the fixed item order.
#[derive(Debug)]
pub struct Response {
    pub mailbox: String,
    pub messages: Option<u32>,
    pub uid_next: Option<Uid>,
    pub uid_validity: Option<Uid>,
    pub unseen: Option<u32>,
    pub deleted: Option<u32>,
    pub size: Option<u32>,
}

impl Default for Response {
    /// A response that reports nothing about an unnamed mailbox.
    fn default() -> (r: Self)
        ensures
            r.mailbox@ == Seq::<char>::empty(),
            r.messages is None && r.uid_next is None && r.uid_validity is None && r.unseen is None
                && r.deleted is None && r.size is None,
    {
        Response {
            mailbox: String::new(),
            messages: None,
            uid_next: None,
            uid_validity: None,
            unseen: None,
            deleted: None,
            size: None,
        }
    }
}

/// One `<value> <NAME>` pair, when the value is present.
pub open spec fn one_pair(v: Option<u32>, name: &str) -> Seq<Seq<u8>> {
    match v {
        Some(n) => seq![dec_digits(n as nat) + encode_utf8(name@)],
        None => Seq::<Seq<u8>>::empty(),
    }
}

pub open spec fn one_uid_pair(v: Option<Uid>, name: &str) -> Seq<Seq<u8>> {
    match v {
        Some(u) => seq![dec_digits(u.0 as nat) + encode_utf8(name@)],
        None => Seq::<Seq<u8>>::empty(),
    }
}

/// The pairs of a response, in the fixed order MESSAGES, UIDNEXT,
/// UIDVALIDITY, UNSEEN, DELETED, SIZE.
pub open spec fn spec_pairs(r: &Response) -> Seq<Seq<u8>> {
    one_pair(r.messages, " MESSAGES") + one_uid_pair(r.uid_next, " UIDNEXT") + one_uid_pair(
        r.uid_validity,
        " UIDVALIDITY",
    ) + one_pair(r.unseen, " UNSEEN") + one_pair(r.deleted, " DELETED") + one_pair(
        r.size,
        " SIZE",
    )
}

/// The whole line body: `STATUS <mailbox> (<pairs>)`.
pub open spec fn spec_status(r: &Response) -> Seq<u8> {
    encode_utf8("STATUS "@) + encode_utf8(r.mailbox@) + seq![32u8] + paren_list(spec_pairs(r))
}

impl Response {
    /// Formats the STATUS line body.
    #[verifier::rlimit(100)]
    pub fn to_bytes(&self) -> (out: Vec<u8>)
        ensures
            out@ == spec_status(self),
    {
        let mut pairs: Vec<Vec<u8>> = Vec::new();
        let ghost e0 = one_pair(self.messages, " MESSAGES");
        match self.messages {
            Some(n) => pairs.push(num_pair(n, " MESSAGES")),
            None => {
            },
        }
        proof {
            assert(pairs@.map_values(|v: Vec<u8>| v@) =~= e0);
        }
        let ghost e1 = e0 + one_uid_pair(self.uid_next, " UIDNEXT");
        match self.uid_next {
            Some(u) => pairs.push(num_pair(u.0, " UIDNEXT")),
            None => {
            },
        }
        proof {
            assert(pairs@.map_values(|v: Vec<u8>| v@) =~= e1);
        }
        let ghost e2 = e1 + one_uid_pair(self.uid_validity, " UIDVALIDITY");
        match self.uid_validity {
            Some(u) => pairs.push(num_pair(u.0, " UIDVALIDITY")),
            None => {
            },
        }
        proof {
            assert(pairs@.map_values(|v: Vec<u8>| v@) =~= e2);
        }
        let ghost e3 = e2 + one_pair(self.unseen, " UNSEEN");
        match self.unseen {
            Some(n) => pairs.push(num_pair(n, " UNSEEN")),
            None => {
            },
        }
        proof {
            assert(pairs@.map_values(|v: Vec<u8>| v@) =~= e3);
        }
        let ghost e4 = e3 + one_pair(self.deleted, " DELETED");
        match self.deleted {
            Some(n) => pairs.push(num_pair(n, " DELETED")),
            None => {
            },
        }
        proof {
            assert(pairs@.map_values(|v: Vec<u8>| v@) =~= e4);
        }
        let ghost e5 = e4 + one_pair(self.size, " SIZE");
        match self.size {
            Some(n) => pairs.push(num_pair(n, " SIZE")),
            None => {
            },
        }
        proof {
            assert(pairs@.map_values(|v: Vec<u8>| v@) =~= e5);
            assert(e5 == spec_pairs(self));
        }
        let mut out: Vec<u8> = Vec::new();
        crate::text::push_str_bytes(&mut out, "STATUS ");
        crate::text::push_str_bytes(&mut out, self.mailbox.as_str());
        out.push(32);
        crate::imap::fmt_paren_list(&mut out, &pairs);
        proof {
            assert(out@ =~= spec_status(self));
        }
        out
    }
}

/// One `<value><name>` pair as bytes.
fn num_pair(n: u32, name: &str) -> (r: Vec<u8>)
    ensures
        r@ == dec_digits(n as nat) + encode_utf8(name@),
{
    let mut v: Vec<u8> = Vec::new();
    crate::text::push_dec_u32(&mut v, n);
    crate::text::push_str_bytes(&mut v, name);
    proof {
        assert(v@ =~= dec_digits(n as nat) + encode_utf8(name@));
    }
    v
}

} // verus!
