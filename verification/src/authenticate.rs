//! The SASL challenge/response exchange, as both protocols run it: the
//! server sends base64 challenges, the client answers with base64 lines,
//! and a mechanism resolves the exchange into an identity.
//!
//! The reads and writes live outside the crate; here stand the
//! formatting of a challenge line and the handling of one client line.

use vstd::prelude::*;

verus! {

use vstd::utf8::encode_utf8;

use crate::auth::Validator;
use crate::line::crlf;
use crate::line::trim_crlf;
use crate::sasl::Exchange;
use crate::sasl::MechanismError;
use crate::sasl::MechanismResult;
use crate::sasl::WhichMechanism;
use crate::sasl::plain::plain_separators;

/// The base64 (standard alphabet, padded) encoding of a byte sequence.
pub uninterp spec fn b64_of(bytes: Seq<u8>) -> Seq<u8>;

/// What the base64 STANDARD engine decodes a text to, if anything.
pub uninterp spec fn b64_decoded(text: Seq<u8>) -> Option<Seq<u8>>;

/// Relies on base64's STANDARD engine `encode`: the result is a function
/// of the input bytes alone, and an empty input encodes to an empty
/// string.
#[verifier::external_body]
fn b64_encode(bytes: &[u8]) -> (r: Vec<u8>)
    ensures
        r@ == b64_of(bytes@),
        bytes@.len() == 0 ==> r@.len() == 0,
{
    base64::Engine::encode(&base64::engine::general_purpose::STANDARD, bytes).into_bytes()
}

/// Relies on base64's STANDARD engine `decode`: it accepts only
/// canonically padded encodings, so a successful decode is inverted by
/// `encode`.
#[verifier::external_body]
fn b64_decode(text: &[u8]) -> (r: Option<Vec<u8>>)
    ensures
        r is Some <==> b64_decoded(text@) is Some,
        r is Some ==> r.unwrap()@ == b64_decoded(text@).unwrap(),
        r is Some ==> b64_of(r.unwrap()@) == text@,
{
    base64::Engine::decode(&base64::engine::general_purpose::STANDARD, text).ok()
}

/// How a SASL exchange failed: the transport, or the mechanism.
#[derive(Debug)]
pub enum Error {
    Io,
    Mechanism(MechanismError),
}

/// The server line that carries a challenge: `"+ "`, the base64 of the
/// challenge, CRLF.
pub fn challenge_line(challenge: &[u8]) -> (r: Vec<u8>)
    ensures
        r@ == encode_utf8("+ "@) + b64_of(challenge@) + crlf(),
        challenge@.len() == 0 ==> r@ == encode_utf8("+ "@) + crlf(),
{
    let mut out: Vec<u8> = Vec::new();
    crate::text::push_str_bytes(&mut out, "+ ");
    let mut encoded = b64_encode(challenge);
    proof {
        if challenge@.len() == 0 {
            assert(b64_of(challenge@) =~= Seq::<u8>::empty());
        }
    }
    out.append(&mut encoded);
    out.push(13);
    out.push(10);
    proof {
        assert(out@ =~= encode_utf8("+ "@) + b64_of(challenge@) + crlf());
        if challenge@.len() == 0 {
            assert(out@ =~= encode_utf8("+ "@) + crlf());
        }
    }
    out
}

/// The bytes a client line stands for: `"="` is the empty response, any
/// other line is base64, and a line that does not decode carries
/// nothing.
pub open spec fn client_bytes(line: Seq<u8>) -> Option<Seq<u8>> {
    let t = trim_crlf(line);
    if t =~= seq![61u8] {
        Some(Seq::<u8>::empty())
    } else {
        b64_decoded(t)
    }
}

/// A running SASL exchange: one variant per mechanism.
pub enum Authenticator {
    Plain(crate::sasl::plain::Plain),
}

impl Authenticator {
    /// Starts an exchange; the second component is the initial server
    /// challenge, which PLAIN leaves empty.
    pub fn init(mechanism: WhichMechanism) -> (r: (Self, Vec<u8>))
        ensures
            r.1@ == Seq::<u8>::empty(),
    {
        match mechanism {
            WhichMechanism::Plain => (
                Self::Plain(crate::sasl::plain::Plain {  }),
                Vec::new(),
            ),
        }
    }

    /// Handles one base64 client line: trims its ending, decodes it
    /// (`"="` for empty), and feeds the bytes to the mechanism. A line
    /// that is not base64, or a PLAIN response that does not decode,
    /// fails with `Decode`; otherwise only the validator's verdict
    /// decides, and PLAIN never asks for another round.
    pub fn eat<V: Validator>(&mut self, validator: &V, line: &[u8]) -> (r: MechanismResult)
        ensures
            client_bytes(line@) is None ==> r is Err && r->Err_0 is Decode,
            client_bytes(line@) is Some ==> ({
                let cb = client_bytes(line@).unwrap();
                if !vstd::utf8::valid_utf8(cb) || plain_separators(cb) is None {
                    r is Err && r->Err_0 is Decode
                } else {
                    (r is Ok && r->Ok_0 is Break) || (r is Err && r->Err_0 is Validation)
                }
            }),
    {
        let mut trimmed: Vec<u8> = Vec::new();
        trimmed.extend_from_slice(line);
        proof {
            assert(trimmed@ =~= line@);
        }
        crate::line::trim_line_ending(&mut trimmed);
        let bytes: Vec<u8> = if trimmed.len() == 1 && trimmed[0] == 61 {
            proof {
                assert(trimmed@ =~= seq![61u8]);
            }
            Vec::new()
        } else {
            proof {
                assert(!(trimmed@ =~= seq![61u8]));
            }
            match b64_decode(trimmed.as_slice()) {
                Some(bytes) => bytes,
                None => {
                    return Err(MechanismError::Decode);
                },
            }
        };
        match self {
            Self::Plain(_) => {
                match crate::sasl::plain::decode(bytes.as_slice()) {
                    Ok(credentials) => match validator.validate(&credentials) {
                        Ok(identity) => Ok(Exchange::Break(identity)),
                        Err(e) => Err(MechanismError::Validation(e)),
                    },
                    Err(_) => Err(MechanismError::Decode),
                }
            },
        }
    }
}

} // verus!
