//! Message flags and the untagged FLAGS response.

use vstd::prelude::*;

verus! {

use vstd::utf8::encode_utf8;
use vstd::utf8::valid_utf8;

use crate::imap::paren_list;

/// A message flag: the system flags, common keywords, or any other
/// keyword verbatim.
#[derive(Debug, Clone, PartialEq, Eq)]
pub enum Flag {
    Seen,
    Answered,
    Flagged,
    Deleted,
    Draft,
    Recent,
    Forwarded,
    MDNSent,
    Junk,
    NotJunk,
    Phishing,
    Keyword(String),
}

/// A flag's wire name.
pub open spec fn flag_bytes(f: &Flag) -> Seq<u8> {
    match f {
        Flag::Seen => encode_utf8("\\Seen"@),
        Flag::Answered => encode_utf8("\\Answered"@),
        Flag::Flagged => encode_utf8("\\Flagged"@),
        Flag::Deleted => encode_utf8("\\Deleted"@),
        Flag::Draft => encode_utf8("\\Draft"@),
        Flag::Recent => encode_utf8("\\Recent"@),
        Flag::Forwarded => encode_utf8("$Forwarded"@),
        Flag::MDNSent => encode_utf8("$MDNSent"@),
        Flag::Junk => encode_utf8("$Junk"@),
        Flag::NotJunk => encode_utf8("$NotJunk"@),
        Flag::Phishing => encode_utf8("$Phishing"@),
        Flag::Keyword(k) => encode_utf8(k@),
    }
}

impl Flag {
    /// Appends the flag's wire name.
    pub fn push_name(&self, out: &mut Vec<u8>)
        ensures
            final(out)@ == old(out)@ + flag_bytes(self),
    {
        match self {
            Flag::Seen => crate::text::push_str_bytes(out, "\\Seen"),
            Flag::Answered => crate::text::push_str_bytes(out, "\\Answered"),
            Flag::Flagged => crate::text::push_str_bytes(out, "\\Flagged"),
            Flag::Deleted => crate::text::push_str_bytes(out, "\\Deleted"),
            Flag::Draft => crate::text::push_str_bytes(out, "\\Draft"),
            Flag::Recent => crate::text::push_str_bytes(out, "\\Recent"),
            Flag::Forwarded => crate::text::push_str_bytes(out, "$Forwarded"),
            Flag::MDNSent => crate::text::push_str_bytes(out, "$MDNSent"),
            Flag::Junk => crate::text::push_str_bytes(out, "$Junk"),
            Flag::NotJunk => crate::text::push_str_bytes(out, "$NotJunk"),
            Flag::Phishing => crate::text::push_str_bytes(out, "$Phishing"),
            Flag::Keyword(k) => crate::text::push_str_bytes(out, k.as_str()),
        }
    }

    /// Reads a flag from its wire name; any unknown UTF-8 name is a
    /// keyword of its own.
    pub fn parse_name(s: &[u8]) -> (r: Option<Flag>)
        ensures
            r is Some <==> valid_utf8(s@),
            r is Some ==> flag_bytes(&r.unwrap()) == s@,
    {
        let known: Option<Flag> = if crate::text::bytes_eq(s, "\\Seen".as_bytes()) {
            Some(Flag::Seen)
        } else if crate::text::bytes_eq(s, "\\Answered".as_bytes()) {
            Some(Flag::Answered)
        } else if crate::text::bytes_eq(s, "\\Flagged".as_bytes()) {
            Some(Flag::Flagged)
        } else if crate::text::bytes_eq(s, "\\Deleted".as_bytes()) {
            Some(Flag::Deleted)
        } else if crate::text::bytes_eq(s, "\\Draft".as_bytes()) {
            Some(Flag::Draft)
        } else if crate::text::bytes_eq(s, "\\Recent".as_bytes()) {
            Some(Flag::Recent)
        } else if crate::text::bytes_eq(s, "$Forwarded".as_bytes()) {
            Some(Flag::Forwarded)
        } else if crate::text::bytes_eq(s, "$MDNSent".as_bytes()) {
            Some(Flag::MDNSent)
        } else if crate::text::bytes_eq(s, "$Junk".as_bytes()) {
            Some(Flag::Junk)
        } else if crate::text::bytes_eq(s, "$NotJunk".as_bytes()) {
            Some(Flag::NotJunk)
        } else if crate::text::bytes_eq(s, "$Phishing".as_bytes()) {
            Some(Flag::Phishing)
        } else {
            None
        };
        match known {
            Some(f) => {
                proof {
                    vstd::utf8::encode_utf8_valid_utf8(
                        match &f {
                            Flag::Seen => "\\Seen"@,
                            Flag::Answered => "\\Answered"@,
                            Flag::Flagged => "\\Flagged"@,
                            Flag::Deleted => "\\Deleted"@,
                            Flag::Draft => "\\Draft"@,
                            Flag::Recent => "\\Recent"@,
                            Flag::Forwarded => "$Forwarded"@,
                            Flag::MDNSent => "$MDNSent"@,
                            Flag::Junk => "$Junk"@,
                            Flag::NotJunk => "$NotJunk"@,
                            Flag::Phishing => "$Phishing"@,
                            Flag::Keyword(k) => k@,
                        },
                    );
                }
                Some(f)
            },
            None => match crate::text::utf8_to_string(s) {
                Some(k) => {
                    proof {
                        vstd::utf8::decode_utf8_encode_utf8(s@);
                    }
                    Some(Flag::Keyword(k))
                },
                None => None,
            },
        }
    }
}

/// The untagged FLAGS response: `FLAGS (<flag> ...)`.
pub struct Response(pub Vec<Flag>);

/// Its wire form.
pub open spec fn spec_flags(r: &Response) -> Seq<u8> {
    encode_utf8("FLAGS "@) + paren_list(r.0@.map_values(|f: Flag| flag_bytes(&f)))
}

impl Response {
    pub fn to_bytes(&self) -> (out: Vec<u8>)
        ensures
            out@ == spec_flags(self),
    {
        let mut names: Vec<Vec<u8>> = Vec::new();
        let n = self.0.len();
        let mut i: usize = 0;
        while i < n
            invariant
                0 <= i <= n,
                n == self.0@.len(),
                names@.len() == i,
                forall|j: int| 0 <= j < i ==> #[trigger] names@[j]@ == flag_bytes(&self.0@[j]),
            decreases n - i,
        {
            let mut name: Vec<u8> = Vec::new();
            let flag = &self.0[i];
            flag.push_name(&mut name);
            names.push(name);
            i += 1;
        }
        let mut out: Vec<u8> = Vec::new();
        crate::text::push_str_bytes(&mut out, "FLAGS ");
        proof {
            assert(names@.map_values(|v: Vec<u8>| v@) =~= self.0@.map_values(
                |f: Flag| flag_bytes(&f),
            ));
        }
        crate::imap::fmt_paren_list(&mut out, &names);
        out
    }
}

} // verus!
