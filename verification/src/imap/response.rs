//! IMAP status responses: `OK`, `NO` and `BAD`, untagged or tagged, and
//! the untagged counters a SELECT reports.

use vstd::prelude::*;

verus! {

use vstd::utf8::encode_utf8;

use crate::auth::ValidationError;
use crate::imap::Tag;
use crate::line::crlf;
use crate::sasl::MechanismError;
use crate::text::dec_digits;

/// The condition of a status response.
#[derive(Debug, Clone, Copy, PartialEq, Eq, Structural)]
pub enum Status {
    Okay,
    No,
    Bad,
}

/// The wire name of a condition.
pub open spec fn status_bytes(s: Status) -> Seq<u8> {
    match s {
        Status::Okay => encode_utf8("OK"@),
        Status::No => encode_utf8("NO"@),
        Status::Bad => encode_utf8("BAD"@),
    }
}

/// A status response not yet bound to a command.
#[derive(Debug)]
pub struct StatusResponse {
    pub status: Status,
    pub message: String,
}

/// A status response answering one tagged command.
#[derive(Debug)]
pub struct TaggedStatusResponse {
    pub tag: Tag,
    pub status: Status,
    pub message: String,
}

/// The wire form of a tagged status response.
pub open spec fn spec_tagged(r: &TaggedStatusResponse) -> Seq<u8> {
    encode_utf8(r.tag.0@) + seq![32u8] + status_bytes(r.status) + seq![32u8] + encode_utf8(
        r.message@,
    ) + crlf()
}

impl StatusResponse {
    pub fn new(status: Status, message: String) -> (r: Self)
        ensures
            r.status == status,
            r.message == message,
    {
        StatusResponse { status, message }
    }

    pub fn ok(message: String) -> (r: Self)
        ensures
            r.status is Okay,
            r.message == message,
    {
        Self::new(Status::Okay, message)
    }

    pub fn bad(message: String) -> (r: Self)
        ensures
            r.status is Bad,
            r.message == message,
    {
        Self::new(Status::Bad, message)
    }

    pub fn no(message: String) -> (r: Self)
        ensures
            r.status is No,
            r.message == message,
    {
        Self::new(Status::No, message)
    }

    pub fn with_tag(self, tag: Tag) -> (r: TaggedStatusResponse)
        ensures
            r.tag == tag,
            r.status == self.status,
            r.message == self.message,
    {
        TaggedStatusResponse { tag, status: self.status, message: self.message }
    }

    /// The answer to a failed credential validation: `NO` for bad
    /// credentials, `BAD` for an unknown failure.
    pub fn from_validation(e: ValidationError) -> (r: Self)
        ensures
            e is InvalidCredentials ==> r.status is No && r.message@ == "invalid credentials"@,
            e is Unknown ==> r.status is Bad && r.message@ == "invalid identity"@,
    {
        match e {
            ValidationError::InvalidCredentials => Self::no(lit("invalid credentials")),
            ValidationError::Unknown => Self::bad(lit("invalid identity")),
        }
    }

    /// The answer to a failed SASL exchange.
    pub fn from_mechanism(e: MechanismError) -> (r: Self)
        ensures
            e is Decode ==> r.status is Bad && r.message@ == "failed to decode response"@,
            e matches MechanismError::Validation(v) ==> ({
                &&& v is InvalidCredentials ==> r.status is No && r.message@
                    == "invalid credentials"@
                &&& v is Unknown ==> r.status is Bad && r.message@ == "invalid identity"@
            }),
    {
        match e {
            MechanismError::Decode => Self::bad(lit("failed to decode response")),
            MechanismError::Validation(v) => Self::from_validation(v),
        }
    }
}

impl TaggedStatusResponse {
    /// `<tag> <status> <message>` and the line ending.
    pub fn to_bytes(&self) -> (out: Vec<u8>)
        ensures
            out@ == spec_tagged(self),
    {
        let mut out: Vec<u8> = Vec::new();
        crate::text::push_str_bytes(&mut out, self.tag.0.as_str());
        out.push(32);
        match self.status {
            Status::Okay => crate::text::push_str_bytes(&mut out, "OK"),
            Status::No => crate::text::push_str_bytes(&mut out, "NO"),
            Status::Bad => crate::text::push_str_bytes(&mut out, "BAD"),
        }
        out.push(32);
        crate::text::push_str_bytes(&mut out, self.message.as_str());
        out.push(13);
        out.push(10);
        proof {
            assert(out@ =~= spec_tagged(self));
        }
        out
    }
}

/// A `String` from a literal, for response texts.
fn lit(s: &str) -> (r: String)
    ensures
        r@ == s@,
{
    s.to_owned()
}

/// The untagged EXISTS report: how many messages the mailbox holds
/// (RFC 9051, section 7.4.1).
#[derive(Debug, Clone, Copy, PartialEq, Eq, Structural)]
pub struct ExistsResponse(pub u32);

impl ExistsResponse {
    /// `<n> EXISTS`.
    pub fn to_bytes(&self) -> (out: Vec<u8>)
        ensures
            out@ == dec_digits(self.0 as nat) + encode_utf8(" EXISTS"@),
    {
        let mut out: Vec<u8> = Vec::new();
        crate::text::push_dec_u32(&mut out, self.0);
        crate::text::push_str_bytes(&mut out, " EXISTS");
        proof {
            assert(out@ =~= dec_digits(self.0 as nat) + encode_utf8(" EXISTS"@));
        }
        out
    }
}

/// The untagged RECENT report.
#[derive(Debug, Clone, Copy, PartialEq, Eq, Structural)]
pub struct RecentResponse {
    pub n: u32,
}

impl RecentResponse {
    /// `<n> RECENT`.
    pub fn to_bytes(&self) -> (out: Vec<u8>)
        ensures
            out@ == dec_digits(self.n as nat) + encode_utf8(" RECENT"@),
    {
        let mut out: Vec<u8> = Vec::new();
        crate::text::push_dec_u32(&mut out, self.n);
        crate::text::push_str_bytes(&mut out, " RECENT");
        proof {
            assert(out@ =~= dec_digits(self.n as nat) + encode_utf8(" RECENT"@));
        }
        out
    }
}

} // verus!
