//! End-to-end session scenarios, driven line by line.

use brev::auth::{Credentials, Identity, ValidationError, Validator};
use brev::imap::session::{ImapAction, Session as ImapSession, State};
use brev::smtp::message::BodyMode;
use brev::smtp::session::{Action, Session as SmtpSession};

struct Accepting;

impl Validator for Accepting {
    fn validate(&self, credentials: &Credentials) -> Result<Identity, ValidationError> {
        Ok(Identity(credentials.username.clone()))
    }
}

struct Rejecting;

impl Validator for Rejecting {
    fn validate(&self, _credentials: &Credentials) -> Result<Identity, ValidationError> {
        Err(ValidationError::InvalidCredentials)
    }
}

fn text(v: Vec<u8>) -> String {
    String::from_utf8(v).unwrap()
}

#[test]
fn imap_login() {
    let mut session = ImapSession::new(true, true);
    let greeting = text(session.greet());
    assert!(greeting.starts_with("* OK [CAPABILITY "));
    assert!(greeting.ends_with("] Server ready\r\n"));

    let (out, action) = session.next_line(&Accepting, b"A001 LOGIN alice \"hunter 2\"");
    assert_eq!(text(out), "A001 OK Logged in\r\n");
    assert!(matches!(action, ImapAction::Continue));
    match &session.state {
        State::Authenticated(identity) => assert_eq!(identity.0, "alice"),
        _ => panic!("expected an authenticated session"),
    }

    let (out, _) = session.next_line(&Accepting, b"A002 LOGIN alice \"hunter 2\"");
    assert_eq!(text(out), "A002 BAD Already authenticated\r\n");
}

#[test]
fn imap_login_rejected() {
    let mut session = ImapSession::new(true, true);
    let (out, _) = session.next_line(&Rejecting, b"A001 LOGIN alice hunter2");
    assert_eq!(text(out), "A001 NO invalid credentials\r\n");
    assert!(matches!(session.state, State::NotAuthenticated));
}

#[test]
fn imap_authenticate_plain() {
    let mut session = ImapSession::new(true, true);
    let (out, action) = session.next_line(&Accepting, b"A002 AUTHENTICATE PLAIN");
    assert_eq!(text(out), "+ \r\n");
    assert!(matches!(action, ImapAction::Continue));

    let (out, action) = session.next_line(&Accepting, b"AGJvYgBodW50ZXIy");
    assert_eq!(text(out), "A002 OK Logged in\r\n");
    assert!(matches!(action, ImapAction::Continue));
    match &session.state {
        State::Authenticated(identity) => assert_eq!(identity.0, "bob"),
        _ => panic!("expected an authenticated session"),
    }
}

#[test]
fn imap_authenticate_initial_response() {
    let mut session = ImapSession::new(true, true);
    let (out, _) = session.next_line(&Accepting, b"A1 AUTHENTICATE PLAIN AGJvYgBodW50ZXIy");
    assert_eq!(text(out), "A1 OK Logged in\r\n");
}

#[test]
fn imap_capabilities() {
    let plain = ImapSession::new(true, false);
    let caps = plain.capabilities();
    assert!(caps.logindisabled);
    assert!(caps.starttls);

    let plain_no_tls = ImapSession::new(false, false);
    let caps = plain_no_tls.capabilities();
    assert!(caps.logindisabled);
    assert!(!caps.starttls);

    let secure = ImapSession::new(true, true);
    let caps = secure.capabilities();
    assert!(!caps.logindisabled);
    assert!(!caps.starttls);
}

#[test]
fn imap_starttls() {
    let mut session = ImapSession::new(true, false);
    let (out, action) = session.next_line(&Accepting, b"A1 STARTTLS");
    assert_eq!(text(out), "A1 OK Begin TLS negotiation\r\n");
    assert!(matches!(action, ImapAction::StartTls));
    session.tls_done();
    assert!(session.secure);

    let (out, _) = session.next_line(&Accepting, b"A2 STARTTLS");
    assert_eq!(text(out), "A2 BAD Already using TLS\r\n");

    let mut no_tls = ImapSession::new(false, false);
    let (out, _) = no_tls.next_line(&Accepting, b"A1 STARTTLS");
    assert_eq!(text(out), "A1 BAD TLS not available\r\n");
}

#[test]
fn imap_select_dispatch() {
    let mut session = ImapSession::new(true, true);
    let (out, _) = session.next_line(&Accepting, b"A1 SELECT INBOX");
    assert_eq!(text(out), "A1 BAD not authenticated\r\n");

    session.next_line(&Accepting, b"A2 LOGIN alice pw");
    let (out, action) = session.next_line(&Accepting, b"A3 SELECT INBOX");
    assert!(out.is_empty());
    match action {
        ImapAction::Run(brev::imap::ops::Operation::Select(req, tag)) => {
            assert_eq!(req.mailbox, "INBOX");
            assert!(!req.read_only);
            assert_eq!(tag.0, "A3");
        }
        _ => panic!("expected a dispatched operation"),
    }
    assert!(session.must_wait_before(&brev::imap::command::CommandName::Noop));
}

#[test]
fn smtp_envelope_gating() {
    let mut session = SmtpSession::new(String::from("localhost"), true, false);
    let greeting = text(session.greet());
    assert_eq!(greeting, "220 localhost\r\n");

    let (out, _) = session.next_line(&Accepting, b"MAIL FROM:<a@b.se>");
    assert_eq!(text(out), "503 say HELO first\r\n");

    let (out, _) = session.next_line(&Accepting, b"HELO there");
    assert_eq!(text(out), "250 hello\r\n");

    let (out, _) = session.next_line(&Accepting, b"DATA");
    assert_eq!(text(out), "503 need MAIL command\r\n");

    let (out, _) = session.next_line(&Accepting, b"MAIL FROM:<a@b.se>");
    assert_eq!(text(out), "250 ok\r\n");

    let (out, action) = session.next_line(&Accepting, b"DATA");
    assert_eq!(text(out), "554 no recipients\r\n");
    assert!(matches!(action, Action::Continue));

    let (out, _) = session.next_line(&Accepting, b"RCPT TO:<c@d.se>");
    assert_eq!(text(out), "250 ok\r\n");
    let (out, _) = session.next_line(&Accepting, b"RCPT TO:<c@d.se>");
    assert_eq!(text(out), "250 ok\r\n");

    let (out, action) = session.next_line(&Accepting, b"DATA");
    assert_eq!(text(out), "354 go ahead\r\n");
    match action {
        Action::Message(incoming) => {
            assert!(matches!(incoming.mode, BodyMode::Data));
            assert_eq!(incoming.envelope().from, "a@b.se");
            assert_eq!(incoming.envelope().recipients.len(), 1);
        }
        _ => panic!("expected a message"),
    }
}

#[test]
fn smtp_bdat_dispatch() {
    let mut session = SmtpSession::new(String::from("localhost"), false, false);
    session.next_line(&Accepting, b"EHLO x");
    session.next_line(&Accepting, b"MAIL FROM:<a@b.se>");
    session.next_line(&Accepting, b"RCPT TO:<c@d.se>");
    let (out, action) = session.next_line(&Accepting, b"BDAT 4 LAST");
    assert!(out.is_empty());
    match action {
        Action::Message(incoming) => {
            assert!(matches!(incoming.mode, BodyMode::Bdat { size: 4, last: true }));
        }
        _ => panic!("expected a message"),
    }
}

#[test]
fn smtp_ehlo_reply() {
    let mut session = SmtpSession::new(String::from("mail.example.com"), true, false);
    let (out, _) = session.next_line(&Accepting, b"EHLO client");
    let out = text(out);
    assert!(out.starts_with("250-mail.example.com\r\n"));
    assert!(out.contains("250-STARTTLS\r\n"));
    assert!(out.ends_with("250 AUTH LOGIN PLAIN\r\n"));

    session.next_line(&Accepting, b"STARTTLS");
    session.tls_done();
    let (out, _) = session.next_line(&Accepting, b"EHLO client");
    assert!(!text(out).contains("STARTTLS"));
}

#[test]
fn smtp_auth_flow() {
    let mut session = SmtpSession::new(String::from("localhost"), false, true);
    let (out, _) = session.next_line(&Accepting, b"AUTH PLAIN");
    assert_eq!(text(out), "+ \r\n");
    let (out, _) = session.next_line(&Accepting, b"AGJvYgBodW50ZXIy");
    assert_eq!(text(out), "235 welcome\r\n");
    assert!(session.identity.is_some());

    let (out, _) = session.next_line(&Accepting, b"AUTH PLAIN");
    assert_eq!(text(out), "503 already authenticated\r\n");
}

#[test]
fn smtp_errors() {
    let mut session = SmtpSession::new(String::from("localhost"), false, false);
    let (out, _) = session.next_line(&Accepting, b"GIBBERISH");
    assert_eq!(text(out), "500 Unrecognized command\r\n");
    let (out, _) = session.next_line(&Accepting, b"MAIL nothing");
    assert_eq!(text(out), "501 Syntax: MAIL FROM:<address>\r\n");
    let (out, action) = session.next_line(&Accepting, b"QUIT");
    assert_eq!(text(out), "221 Bye\r\n");
    assert!(matches!(action, Action::Quit));
}
