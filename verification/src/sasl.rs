//! The SASL mechanism framework: mechanism names, mechanism errors, and
//! the mechanism interface. PLAIN lives in [`plain`].

pub mod plain;

use vstd::prelude::*;

verus! {

use vstd::utf8::encode_utf8;

use crate::auth::Identity;
use crate::auth::ValidationError;
use crate::auth::Validator;
use crate::text::upper_bytes;

/// The SASL mechanisms this crate knows by name.
#[derive(Debug, Clone, Copy, PartialEq, Eq, Structural)]
pub enum WhichMechanism {
    Plain,
}

impl WhichMechanism {
    /// Looks a mechanism up by its (case-insensitive) SASL name.
    pub fn parse_name(s: &[u8]) -> (r: Option<Self>)
        ensures
            r == if upper_bytes(s@) == upper_bytes(encode_utf8("PLAIN"@)) {
                Some(WhichMechanism::Plain)
            } else {
                Option::<WhichMechanism>::None
            },
    {
        if crate::text::bytes_ieq(s, "PLAIN".as_bytes()) {
            Some(WhichMechanism::Plain)
        } else {
            None
        }
    }
}

/// Why a mechanism exchange failed.
#[derive(Debug)]
pub enum MechanismError {
    Validation(ValidationError),
    Decode,
}

/// What one round of a mechanism exchange produced: another server
/// challenge, or the authenticated identity.
pub enum Exchange {
    Continue(Vec<u8>),
    Break(Identity),
}

pub type MechanismResult = Result<Exchange, MechanismError>;

/// A SASL mechanism: an initial server challenge, then one `eat` per
/// client response until the exchange resolves.
pub trait Mechanism: Sized {
    fn init() -> (Self, Vec<u8>);

    fn eat<V: Validator>(&mut self, validator: &V, bytes: &[u8]) -> MechanismResult;
}

} // verus!
