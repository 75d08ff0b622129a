//! The SASL PLAIN mechanism: the client sends
//! `authzid NUL authcid NUL password` in one response; the authorization
//! identity is ignored, the other two parts become the credentials.

use vstd::prelude::*;

verus! {

use vstd::utf8::decode_utf8;
use vstd::utf8::valid_utf8;

use crate::auth::Credentials;
use crate::auth::Validator;
use crate::sasl::Exchange;
use crate::sasl::Mechanism;
use crate::sasl::MechanismError;
use crate::sasl::MechanismResult;
use crate::text::lemma_utf8_ascii_cut;
use crate::text::utf8_to_string;

/// Why a PLAIN response could not be decoded.
#[derive(Debug, Clone, Copy, PartialEq, Eq, Structural)]
pub enum DecodeError {
    Utf8,
    MissingParts,
}

/// The first NUL byte of `data` at or after `from`, if any.
pub open spec fn nul_at(data: Seq<u8>, from: int, i: int) -> bool {
    from <= i < data.len() && data[i] == 0 && (forall|j: int| from <= j < i ==> data[j] != 0)
}

pub open spec fn find_nul(data: Seq<u8>, from: int) -> Option<int> {
    if exists|i: int| nul_at(data, from, i) {
        Some(choose|i: int| nul_at(data, from, i))
    } else {
        None
    }
}

/// Positions of the first two NUL separators of a PLAIN response.
pub open spec fn plain_separators(data: Seq<u8>) -> Option<(int, int)> {
    match find_nul(data, 0) {
        Some(n1) => match find_nul(data, n1 + 1) {
            Some(n2) => Some((n1, n2)),
            None => None,
        },
        None => None,
    }
}

/// The authcid bytes of a PLAIN response: between its two separators.
pub open spec fn plain_user(data: Seq<u8>, n1: int, n2: int) -> Seq<u8> {
    data.subrange(n1 + 1, n2)
}

/// The password bytes of a PLAIN response: everything after the second
/// separator.
pub open spec fn plain_pass(data: Seq<u8>, n2: int) -> Seq<u8> {
    data.subrange(n2 + 1, data.len() as int)
}

/// Decode plain credentials: `authzid NUL authcid NUL password`, where
/// the authorization identity is ignored and the password may itself
/// contain NUL bytes. Input that is not UTF-8 is `Utf8`; input with
/// fewer than two NUL separators is `MissingParts`.
pub fn decode(data: &[u8]) -> (r: Result<Credentials, DecodeError>)
    ensures
        !valid_utf8(data@) ==> r == Err::<Credentials, DecodeError>(DecodeError::Utf8),
        valid_utf8(data@) && plain_separators(data@) is None ==> r == Err::<
            Credentials,
            DecodeError,
        >(DecodeError::MissingParts),
        valid_utf8(data@) && plain_separators(data@) is Some ==> ({
            let (n1, n2) = plain_separators(data@).unwrap();
            &&& r is Ok
            &&& r.unwrap().username@ == decode_utf8(plain_user(data@, n1, n2))
            &&& crate::auth::secret_chars(r.unwrap().password) == decode_utf8(
                plain_pass(data@, n2),
            )
        }),
{
    let dlen = data.len();
    if utf8_to_string(data).is_none() {
        return Err(DecodeError::Utf8);
    }
    let n1 = match crate::text::find_byte(data, 0, 0) {
        Some(i) => i,
        None => {
            proof {
                lemma_find_nul_none(data@, 0);
            }
            return Err(DecodeError::MissingParts);
        },
    };
    proof {
        lemma_find_nul_some(data@, 0, n1 as int);
    }
    let n2 = match crate::text::find_byte(data, 0, n1 + 1) {
        Some(i) => i,
        None => {
            proof {
                lemma_find_nul_none(data@, n1 as int + 1);
            }
            return Err(DecodeError::MissingParts);
        },
    };
    proof {
        lemma_find_nul_some(data@, n1 as int + 1, n2 as int);
        lemma_utf8_ascii_cut(data@, n2 as int);
        let head = data@.subrange(0, n2 as int);
        lemma_utf8_ascii_cut(head, n1 as int);
        assert(head.subrange(n1 as int + 1, head.len() as int) =~= plain_user(
            data@,
            n1 as int,
            n2 as int,
        ));
    }
    let user_bytes = vstd::slice::slice_subrange(data, n1 + 1, n2);
    let pass_bytes = vstd::slice::slice_subrange(data, n2 + 1, dlen);
    let username = utf8_to_string(user_bytes).unwrap();
    let password = crate::auth::Password::new(utf8_to_string(pass_bytes).unwrap());
    Ok(Credentials { username, password })
}

proof fn lemma_find_nul_none(data: Seq<u8>, from: int)
    requires
        0 <= from <= data.len(),
        forall|j: int| from <= j < data.len() ==> data[j] != 0,
    ensures
        find_nul(data, from) is None,
{
    if exists|i: int| nul_at(data, from, i) {
        let i = choose|i: int| nul_at(data, from, i);
        assert(data[i] == 0);
    }
}

proof fn lemma_find_nul_some(data: Seq<u8>, from: int, i: int)
    requires
        nul_at(data, from, i),
    ensures
        find_nul(data, from) == Some(i),
{
    let w = choose|k: int| nul_at(data, from, k);
    assert(data[w] == 0 && data[i] == 0);
    if w < i {
        assert(data[w] != 0);
    }
    if i < w {
        assert(data[i] != 0);
    }
}

/// PLAIN decoding is exact: placing any NUL-free authcid and password
/// behind NUL separators puts the two separators at the ends of the
/// (empty) authzid and the authcid, and the credential fields are
/// exactly the two parts.
pub proof fn lemma_plain_decode(user: Seq<u8>, pass: Seq<u8>)
    requires
        forall|i: int| 0 <= i < user.len() ==> user[i] != 0,
        forall|i: int| 0 <= i < pass.len() ==> pass[i] != 0,
    ensures
        ({
            let data = seq![0u8] + user + seq![0u8] + pass;
            &&& plain_separators(data) == Some((0int, user.len() as int + 1))
            &&& plain_user(data, 0, user.len() as int + 1) == user
            &&& plain_pass(data, user.len() as int + 1) == pass
        }),
{
    let data = seq![0u8] + user + seq![0u8] + pass;
    assert(data[0] == 0);
    assert(nul_at(data, 0, 0));
    lemma_find_nul_some(data, 0, 0);
    let n2 = user.len() as int + 1;
    assert(data[n2] == 0);
    assert(forall|j: int| 1 <= j < n2 ==> data[j] == user[j - 1] && #[trigger] data[j] != 0);
    assert(nul_at(data, 1, n2));
    lemma_find_nul_some(data, 1, n2);
    assert(plain_user(data, 0, n2) =~= user);
    assert(plain_pass(data, n2) =~= pass);
}

/// The PLAIN mechanism: no server challenge, one client response.
pub struct Plain {}

impl Mechanism for Plain {
    fn init() -> (Self, Vec<u8>) {
        (Plain {  }, Vec::new())
    }

    fn eat<V: Validator>(&mut self, validator: &V, bytes: &[u8]) -> MechanismResult {
        match decode(bytes) {
            Ok(credentials) => match validator.validate(&credentials) {
                Ok(identity) => Ok(Exchange::Break(identity)),
                Err(e) => Err(MechanismError::Validation(e)),
            },
            Err(_) => Err(MechanismError::Decode),
        }
    }
}

} // verus!
