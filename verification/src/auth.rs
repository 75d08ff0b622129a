//! Credentials, identities, and the validator interface behind which the
//! embedding server checks credentials.

use vstd::prelude::*;

verus! {

/// A password, held in the secrecy crate's wrapper: wiped on drop and
/// kept out of debug output. Verus cannot declare `secrecy::Secret`
/// itself (its `Zeroize` bound is a foreign trait), so the wrapper
/// lives in this opaque struct and is spoken of through
/// [`secret_chars`].
#[derive(Debug)]
#[verifier::external_body]
pub struct Password {
    inner: secrecy::SecretString,
}

/// The characters a password holds.
pub uninterp spec fn secret_chars(p: Password) -> Seq<char>;

impl Password {
    /// Relies on `secrecy::Secret::new`: it stores the given string,
    /// which `expose_secret` hands back.
    #[verifier::external_body]
    pub fn new(s: String) -> (r: Password)
        ensures
            secret_chars(r) == s@,
    {
        Password { inner: secrecy::Secret::new(s) }
    }

    /// Relies on `secrecy::ExposeSecret::expose_secret`: it returns
    /// the stored string.
    #[verifier::external_body]
    pub fn expose_secret(&self) -> (r: &str)
        ensures
            r@ == secret_chars(*self),
    {
        secrecy::ExposeSecret::expose_secret(&self.inner).as_str()
    }
}

/// A username and password pair, as decoded from the wire. The
/// password is wiped on drop and never printed.
pub struct Credentials {
    pub username: String,
    pub password: Password,
}

/// An authenticated principal, produced only by a successful
/// [`Validator::validate`] call.
#[derive(Debug, Clone, PartialEq, Eq)]
pub struct Identity(pub String);

/// Why credential validation failed.
#[derive(Debug, Clone, Copy, PartialEq, Eq, Structural)]
pub enum ValidationError {
    InvalidCredentials,
    Unknown,
}

/// The credential backend, implemented outside this crate. Nothing is
/// assumed of its verdicts: every caller here handles both outcomes.
pub trait Validator {
    fn validate(&self, credentials: &Credentials) -> Result<Identity, ValidationError>;
}

} // verus!
