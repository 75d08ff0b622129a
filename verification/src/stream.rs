//! A duplex stream that is either plaintext or TLS, with an in-place
//! STARTTLS upgrade.
//!
//! The handshake itself is asynchronous I/O and runs outside the crate;
//! what is proved here is the state discipline around it: a stream is
//! always observably `Plain` or `Tls`, and a failed upgrade hands back
//! exactly the plaintext stream the handshake consumed.

use vstd::prelude::*;

verus! {

/// The two observable states of a [`MaybeTls`] stream.
pub enum StreamState<T, IO> {
    Plain(IO),
    Tls(T),
}

/// A stream that may or may not be encrypted, used by STARTTLS.
pub struct MaybeTls<T, IO> {
    inner: StreamState<T, IO>,
}

impl<T, IO> MaybeTls<T, IO> {
    /// The observable state, for contracts.
    pub closed spec fn spec_state(&self) -> StreamState<T, IO> {
        self.inner
    }

    pub open spec fn spec_is_plain(&self) -> bool {
        self.spec_state() is Plain
    }

    pub open spec fn spec_is_tls(&self) -> bool {
        self.spec_state() is Tls
    }

    pub fn from_plain(plain: IO) -> (r: Self)
        ensures
            r.spec_state() == StreamState::<T, IO>::Plain(plain),
    {
        Self { inner: StreamState::Plain(plain) }
    }

    pub fn from_tls(tls: T) -> (r: Self)
        ensures
            r.spec_state() == StreamState::<T, IO>::Tls(tls),
    {
        Self { inner: StreamState::Tls(tls) }
    }

    pub fn is_plain(&self) -> (r: bool)
        ensures
            r == self.spec_is_plain(),
    {
        match &self.inner {
            StreamState::Plain(_) => true,
            StreamState::Tls(_) => false,
        }
    }

    pub fn is_tls(&self) -> (r: bool)
        ensures
            r == self.spec_is_tls(),
    {
        match &self.inner {
            StreamState::Plain(_) => false,
            StreamState::Tls(_) => true,
        }
    }

    /// Hands the wrapped stream out for the caller's reads and writes.
    pub fn state_mut(&mut self) -> (r: &mut StreamState<T, IO>)
        ensures
            *r == old(self).spec_state(),
            final(self).spec_state() == *final(r),
    {
        &mut self.inner
    }

    /// Consumes the wrapper, for the caller to start a TLS handshake on
    /// the plaintext stream.
    pub fn into_state(self) -> (r: StreamState<T, IO>)
        ensures
            r == self.spec_state(),
    {
        self.inner
    }

    /// Applies the outcome of a TLS handshake: on success the stream is
    /// encrypted from now on; on failure the handshake returns the
    /// plaintext stream it consumed, and the stream is exactly that
    /// stream again, so nothing of the session is lost.
    pub fn apply_upgrade<E>(outcome: Result<T, (E, IO)>) -> (r: (Self, Result<(), E>))
        ensures
            match outcome {
                Ok(tls) => r.0.spec_state() == StreamState::<T, IO>::Tls(tls) && r.1 is Ok,
                Err((e, plain)) => r.0.spec_state() == StreamState::<T, IO>::Plain(plain)
                    && r.1 == Result::<(), E>::Err(e),
            },
    {
        match outcome {
            Ok(tls) => (Self::from_tls(tls), Ok(())),
            Err((e, plain)) => (Self::from_plain(plain), Err(e)),
        }
    }
}

/// A stream is observably plaintext or encrypted, never both and never
/// neither.
pub proof fn lemma_plain_xor_tls<T, IO>(s: &MaybeTls<T, IO>)
    ensures
        s.spec_is_plain() != s.spec_is_tls(),
{
}

} // verus!
