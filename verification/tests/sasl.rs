//! The SASL PLAIN decoder and the line-level authenticator.

use brev::auth::{Credentials, Identity, ValidationError, Validator};
use brev::authenticate::Authenticator;
use brev::sasl::plain::{decode, DecodeError};
use brev::sasl::{Exchange, MechanismError, WhichMechanism};

struct Accepting;

impl Validator for Accepting {
    fn validate(&self, credentials: &Credentials) -> Result<Identity, ValidationError> {
        if credentials.password.expose_secret() == "hunter2" {
            Ok(Identity(credentials.username.clone()))
        } else {
            Err(ValidationError::InvalidCredentials)
        }
    }
}

#[test]
fn plain_decode() {
    let creds = decode(b"\0bob\0hunter2").unwrap();
    assert_eq!(creds.username, "bob");
    assert_eq!(creds.password.expose_secret(), "hunter2");

    assert!(matches!(decode(b"bob"), Err(DecodeError::MissingParts)));
    assert!(matches!(decode(b"\0bob"), Err(DecodeError::MissingParts)));
    assert!(matches!(decode(b"\xff\0a\0b"), Err(DecodeError::Utf8)));

    let with_nul = decode(b"authz\0bob\0hun\0ter").unwrap();
    assert_eq!(with_nul.username, "bob");
    assert_eq!(with_nul.password.expose_secret(), "hun\0ter");
}

#[test]
fn authenticator_eat() {
    let (mut auth, challenge) = Authenticator::init(WhichMechanism::Plain);
    assert!(challenge.is_empty());

    // "AGJvYgBodW50ZXIy" is the base64 of "\0bob\0hunter2".
    match auth.eat(&Accepting, b"AGJvYgBodW50ZXIy") {
        Ok(Exchange::Break(identity)) => assert_eq!(identity.0, "bob"),
        _ => panic!("expected a resolved exchange"),
    }

    let (mut auth, _) = Authenticator::init(WhichMechanism::Plain);
    assert!(matches!(
        auth.eat(&Accepting, b"!!! not base64 !!!"),
        Err(MechanismError::Decode)
    ));

    let (mut auth, _) = Authenticator::init(WhichMechanism::Plain);
    assert!(matches!(auth.eat(&Accepting, b"="), Err(MechanismError::Decode)));
}

#[test]
fn mechanism_names() {
    assert_eq!(WhichMechanism::parse_name(b"plain"), Some(WhichMechanism::Plain));
    assert_eq!(WhichMechanism::parse_name(b"PLAIN"), Some(WhichMechanism::Plain));
    assert_eq!(WhichMechanism::parse_name(b"LOGIN"), None);
}
