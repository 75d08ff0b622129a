//! Asynchronous operations: the request an operation carries out of
//! the session, and the response its handler sends back. The channel
//! that moves them between tasks lives outside the crate.

use vstd::prelude::*;

verus! {

use vstd::utf8::encode_utf8;

use crate::imap::Tag;
use crate::imap::Uid;
use crate::imap::flags::Flag;
use crate::imap::list::ListItem;
use crate::imap::list::spec_list;
use crate::imap::response::ExistsResponse;
use crate::imap::response::StatusResponse;
use crate::imap::select;
use crate::imap::session::SelectedState;
use crate::line::crlf;

/// What a SELECT or EXAMINE asks its handler for.
#[derive(Debug)]
pub struct SelectRequest {
    pub mailbox: String,
    pub read_only: bool,
}

/// What a successful SELECT or EXAMINE reports back.
pub struct SelectResponse {
    pub flags: Vec<Flag>,
    pub exists: u32,
    pub uid_validity: u32,
    pub next_uid: Uid,
    pub mailbox: ListItem,
    pub read_only: bool,
}

impl SelectResponse {
    /// The composite reply, bound to the command's tag.
    pub fn into_tagged_response(self, tag: Tag) -> (out: Vec<u8>)
        ensures
            out@ == select::spec_select(
                &(select::Response {
                    flags: crate::imap::flags::Response(self.flags),
                    exists: ExistsResponse(self.exists),
                    uid_validity: self.uid_validity,
                    next_uid: self.next_uid,
                    mailbox: self.mailbox,
                    tag: tag,
                    read_only: self.read_only,
                }),
            ),
    {
        let SelectResponse { flags, exists, uid_validity, next_uid, mailbox, read_only } = self;
        let composite = select::Response {
            flags: crate::imap::flags::Response(flags),
            exists: ExistsResponse(exists),
            uid_validity,
            next_uid,
            mailbox,
            tag,
            read_only,
        };
        composite.to_bytes()
    }
}

/// What a LIST asks its handler for.
#[derive(Debug)]
pub struct ListRequest {
    pub reference: String,
    pub mailbox: String,
}

/// What a LIST reports back: its items, one line each.
pub struct ListResponse {
    pub list_items: Vec<ListItem>,
}

impl ListResponse {
    /// The item lines, then the tagged completion.
    pub fn into_tagged_response(self, tag: Tag) -> (out: Vec<u8>)
        ensures
            out@ == spec_list(self.list_items@) + encode_utf8(tag.0@) + encode_utf8(
                " OK LIST completed"@,
            ) + crlf(),
    {
        let items = crate::imap::list::Response { list_items: self.list_items };
        let mut out = items.to_bytes();
        crate::text::push_str_bytes(&mut out, tag.0.as_str());
        crate::text::push_str_bytes(&mut out, " OK LIST completed");
        out.push(13);
        out.push(10);
        proof {
            assert(out@ =~= spec_list(self.list_items@) + encode_utf8(tag.0@) + encode_utf8(
                " OK LIST completed"@,
            ) + crlf());
        }
        out
    }
}

/// What a FETCH asks its handler for: the command's arguments and the
/// selected-state context it runs against.
pub struct FetchRequest {
    pub is_uid: bool,
    pub sequence_set: crate::imap::sequence::SequenceSet,
    pub items: crate::imap::fetch::Items,
    pub selected: SelectedState,
}

/// What a FETCH reports back. Result generation is outside this core;
/// the reply is the bare completion.
pub struct FetchResponse {}

impl FetchResponse {
    pub fn into_tagged_response(self, tag: Tag) -> (out: Vec<u8>)
        ensures
            out@ == encode_utf8(tag.0@) + encode_utf8(" OK FETCH completed"@) + crlf(),
    {
        let mut out: Vec<u8> = Vec::new();
        crate::text::push_str_bytes(&mut out, tag.0.as_str());
        crate::text::push_str_bytes(&mut out, " OK FETCH completed");
        out.push(13);
        out.push(10);
        proof {
            assert(out@ =~= encode_utf8(tag.0@) + encode_utf8(" OK FETCH completed"@) + crlf());
        }
        out
    }
}

/// What a CREATE asks its handler for.
#[derive(Debug)]
pub struct CreateRequest {
    pub mailbox: String,
}

/// What a CREATE reports back: the bare completion.
pub struct CreateResponse {}

impl CreateResponse {
    pub fn into_tagged_response(self, tag: Tag) -> (out: Vec<u8>)
        ensures
            out@ == encode_utf8(tag.0@) + encode_utf8(" OK CREATE completed"@) + crlf(),
    {
        let mut out: Vec<u8> = Vec::new();
        crate::text::push_str_bytes(&mut out, tag.0.as_str());
        crate::text::push_str_bytes(&mut out, " OK CREATE completed");
        out.push(13);
        out.push(10);
        proof {
            assert(out@ =~= encode_utf8(tag.0@) + encode_utf8(" OK CREATE completed"@) + crlf());
        }
        out
    }
}

/// An operation the session hands to its caller: the request payload
/// and the tag the result must come back under.
pub enum Operation {
    Select(SelectRequest, Tag),
    List(ListRequest, Tag),
    Fetch(FetchRequest, Tag),
    Create(CreateRequest, Tag),
}

/// A completed operation's payload.
pub enum Response {
    Select(SelectResponse),
    List(ListResponse),
    Fetch(FetchResponse),
    Create(CreateResponse),
}

/// A completion as the session consumes it: the tag and what the
/// handler decided.
pub struct Payload {
    pub tag: Tag,
    pub result: Result<Response, StatusResponse>,
}

} // verus!
