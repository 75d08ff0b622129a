//! The composite reply to a successful SELECT or EXAMINE.

use vstd::prelude::*;

verus! {

use vstd::utf8::encode_utf8;

use crate::imap::Tag;
use crate::imap::Uid;
use crate::imap::flags;
use crate::imap::list::ListItem;
use crate::imap::list::spec_list_item;
use crate::imap::response::ExistsResponse;
use crate::line::crlf;
use crate::text::dec_digits;

/// Everything a SELECT reports: the mailbox flags, its message count,
/// identifier validity and prediction, the mailbox's own list line, and
/// the tagged completion.
pub struct Response {
    pub flags: flags::Response,
    pub exists: ExistsResponse,
    pub uid_validity: u32,
    pub next_uid: Uid,
    pub mailbox: ListItem,
    pub tag: Tag,
    pub read_only: bool,
}

/// The wire form of the whole composite.
pub open spec fn spec_select(r: &Response) -> Seq<u8> {
    encode_utf8("* "@) + flags::spec_flags(&r.flags) + crlf() + encode_utf8("* "@) + dec_digits(
        r.exists.0 as nat,
    ) + encode_utf8(" EXISTS"@) + crlf() + encode_utf8("* OK [UIDVALIDITY "@) + dec_digits(
        r.uid_validity as nat,
    ) + encode_utf8("] UIDs valid"@) + crlf() + encode_utf8("* OK [UIDNEXT "@) + dec_digits(
        r.next_uid.0 as nat,
    ) + encode_utf8("] Predicted next UID"@) + crlf() + spec_list_item(&r.mailbox) + encode_utf8(
        r.tag.0@,
    ) + encode_utf8(" OK ["@) + (if r.read_only {
        encode_utf8("READ-ONLY"@)
    } else {
        encode_utf8("READ-WRITE"@)
    }) + encode_utf8("] Done"@) + crlf()
}

impl Response {
    #[verifier::rlimit(60)]
    pub fn to_bytes(&self) -> (out: Vec<u8>)
        ensures
            out@ == spec_select(self),
    {
        let mut out: Vec<u8> = Vec::new();
        crate::text::push_str_bytes(&mut out, "* ");
        let mut part = self.flags.to_bytes();
        out.append(&mut part);
        out.push(13);
        out.push(10);
        crate::text::push_str_bytes(&mut out, "* ");
        let mut part = self.exists.to_bytes();
        out.append(&mut part);
        out.push(13);
        out.push(10);
        crate::text::push_str_bytes(&mut out, "* OK [UIDVALIDITY ");
        crate::text::push_dec_u32(&mut out, self.uid_validity);
        crate::text::push_str_bytes(&mut out, "] UIDs valid");
        out.push(13);
        out.push(10);
        crate::text::push_str_bytes(&mut out, "* OK [UIDNEXT ");
        crate::text::push_dec_u32(&mut out, self.next_uid.0);
        crate::text::push_str_bytes(&mut out, "] Predicted next UID");
        out.push(13);
        out.push(10);
        let mut part = self.mailbox.to_bytes();
        out.append(&mut part);
        crate::text::push_str_bytes(&mut out, self.tag.0.as_str());
        crate::text::push_str_bytes(&mut out, " OK [");
        if self.read_only {
            crate::text::push_str_bytes(&mut out, "READ-ONLY");
        } else {
            crate::text::push_str_bytes(&mut out, "READ-WRITE");
        }
        crate::text::push_str_bytes(&mut out, "] Done");
        out.push(13);
        out.push(10);
        proof {
            assert(out@ =~= spec_select(self));
        }
        out
    }
}

} // verus!
