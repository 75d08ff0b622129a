//! The IMAP capability set and its untagged CAPABILITY line.

use vstd::prelude::*;

verus! {

use vstd::utf8::encode_utf8;

use crate::sasl::WhichMechanism;
use crate::text::has_token;

/// The capabilities this server can advertise, in their RFC listing
/// order (IMAP4 first, per RFC 1730).
#[derive(Debug, Clone, Copy, PartialEq, Eq, Structural)]
pub struct Capabilities {
    pub imap4: bool,
    pub imap4rev1: bool,
    pub imap4rev2: bool,
    pub starttls: bool,
    pub auth_plain: bool,
    pub logindisabled: bool,
    pub sasl_ir: bool,
}

impl Capabilities {
    pub fn empty() -> (r: Self)
        ensures
            r == Capabilities::spec_empty(),
    {
        Capabilities {
            imap4: false,
            imap4rev1: false,
            imap4rev2: false,
            starttls: false,
            auth_plain: false,
            logindisabled: false,
            sasl_ir: false,
        }
    }

    pub open spec fn spec_empty() -> Self {
        Capabilities {
            imap4: false,
            imap4rev1: false,
            imap4rev2: false,
            starttls: false,
            auth_plain: false,
            logindisabled: false,
            sasl_ir: false,
        }
    }

    pub fn all() -> (r: Self)
        ensures
            r == (Capabilities {
                imap4: true,
                imap4rev1: true,
                imap4rev2: true,
                starttls: true,
                auth_plain: true,
                logindisabled: true,
                sasl_ir: true,
            }),
    {
        Capabilities {
            imap4: true,
            imap4rev1: true,
            imap4rev2: true,
            starttls: true,
            auth_plain: true,
            logindisabled: true,
            sasl_ir: true,
        }
    }

    pub fn is_empty(&self) -> (r: bool)
        ensures
            r == (*self == Capabilities::spec_empty()),
    {
        !self.imap4 && !self.imap4rev1 && !self.imap4rev2 && !self.starttls && !self.auth_plain
            && !self.logindisabled && !self.sasl_ir
    }

    /// The capability a SASL mechanism advertises.
    pub fn auth(mechanism: WhichMechanism) -> (r: Self)
        ensures
            r == (Capabilities { auth_plain: true, ..Capabilities::spec_empty() }),
    {
        match mechanism {
            WhichMechanism::Plain => Capabilities {
                auth_plain: true,
                ..Capabilities::empty()
            },
        }
    }

    /// The set named by space-separated capability names; unknown names
    /// are silently ignored.
    pub fn from_names(names: &[u8]) -> (r: Self)
        ensures
            r.imap4 == has_token(names@, encode_utf8("IMAP4"@)),
            r.imap4rev1 == has_token(names@, encode_utf8("IMAP4rev1"@)),
            r.imap4rev2 == has_token(names@, encode_utf8("IMAP4rev2"@)),
            r.starttls == has_token(names@, encode_utf8("STARTTLS"@)),
            r.auth_plain == has_token(names@, encode_utf8("AUTH=PLAIN"@)),
            r.logindisabled == has_token(names@, encode_utf8("LOGINDISABLED"@)),
            r.sasl_ir == has_token(names@, encode_utf8("SASL-IR"@)),
    {
        Capabilities {
            imap4: crate::text::has_token_bytes(names, "IMAP4".as_bytes()),
            imap4rev1: crate::text::has_token_bytes(names, "IMAP4rev1".as_bytes()),
            imap4rev2: crate::text::has_token_bytes(names, "IMAP4rev2".as_bytes()),
            starttls: crate::text::has_token_bytes(names, "STARTTLS".as_bytes()),
            auth_plain: crate::text::has_token_bytes(names, "AUTH=PLAIN".as_bytes()),
            logindisabled: crate::text::has_token_bytes(names, "LOGINDISABLED".as_bytes()),
            sasl_ir: crate::text::has_token_bytes(names, "SASL-IR".as_bytes()),
        }
    }

    /// The capability listing: `CAPABILITY`, then each present
    /// capability's name in listing order.
    pub open spec fn spec_fmt(&self) -> Seq<u8> {
        encode_utf8("CAPABILITY"@) + cap_name(self.imap4, " IMAP4") + cap_name(
            self.imap4rev1,
            " IMAP4rev1",
        ) + cap_name(self.imap4rev2, " IMAP4rev2") + cap_name(self.starttls, " STARTTLS")
            + cap_name(self.auth_plain, " AUTH=PLAIN") + cap_name(
            self.logindisabled,
            " LOGINDISABLED",
        ) + cap_name(self.sasl_ir, " SASL-IR")
    }

    /// Formats the capability listing.
    #[verifier::rlimit(60)]
    pub fn to_bytes(&self) -> (out: Vec<u8>)
        ensures
            out@ == self.spec_fmt(),
    {
        let mut out: Vec<u8> = Vec::new();
        crate::text::push_str_bytes(&mut out, "CAPABILITY");
        let ghost e0 = out@;
        if self.imap4 {
            crate::text::push_str_bytes(&mut out, " IMAP4");
        }
        proof {
            assert(out@ =~= e0 + cap_name(self.imap4, " IMAP4"));
        }
        let ghost e1 = out@;
        if self.imap4rev1 {
            crate::text::push_str_bytes(&mut out, " IMAP4rev1");
        }
        proof {
            assert(out@ =~= e1 + cap_name(self.imap4rev1, " IMAP4rev1"));
        }
        let ghost e2 = out@;
        if self.imap4rev2 {
            crate::text::push_str_bytes(&mut out, " IMAP4rev2");
        }
        proof {
            assert(out@ =~= e2 + cap_name(self.imap4rev2, " IMAP4rev2"));
        }
        let ghost e3 = out@;
        if self.starttls {
            crate::text::push_str_bytes(&mut out, " STARTTLS");
        }
        proof {
            assert(out@ =~= e3 + cap_name(self.starttls, " STARTTLS"));
        }
        let ghost e4 = out@;
        if self.auth_plain {
            crate::text::push_str_bytes(&mut out, " AUTH=PLAIN");
        }
        proof {
            assert(out@ =~= e4 + cap_name(self.auth_plain, " AUTH=PLAIN"));
        }
        let ghost e5 = out@;
        if self.logindisabled {
            crate::text::push_str_bytes(&mut out, " LOGINDISABLED");
        }
        proof {
            assert(out@ =~= e5 + cap_name(self.logindisabled, " LOGINDISABLED"));
        }
        let ghost e6 = out@;
        if self.sasl_ir {
            crate::text::push_str_bytes(&mut out, " SASL-IR");
        }
        proof {
            assert(out@ =~= e6 + cap_name(self.sasl_ir, " SASL-IR"));
            assert(out@ =~= self.spec_fmt());
        }
        out
    }
}

/// A capability's contribution to the listing: its name when present.
pub open spec fn cap_name(present: bool, name: &str) -> Seq<u8> {
    if present {
        encode_utf8(name@)
    } else {
        Seq::<u8>::empty()
    }
}

} // verus!
