//! The SMTP session state machine: one reply per command, transaction
//! state in the envelope, STARTTLS resets, and the SASL AUTH exchange.

use vstd::prelude::*;

verus! {

use vstd::utf8::encode_utf8;

use crate::auth::Identity;
use crate::auth::ValidationError;
use crate::auth::Validator;
use crate::authenticate::Authenticator;
use crate::authenticate::client_bytes;
use crate::line::crlf;
use crate::sasl::Exchange;
use crate::sasl::MechanismError;
use crate::smtp::command::Command;
use crate::smtp::command::Error;
use crate::smtp::command::LineOutcome;
use crate::smtp::command::SpecCommand;
use crate::smtp::command::classify;
use crate::smtp::ehlo;
use crate::smtp::message::BodyMode;
use crate::smtp::message::Envelope;
use crate::smtp::message::Incoming;

/// What the caller must do after a line is handled: nothing more, close
/// the connection, stream in a message body, or run a TLS handshake.
pub enum Action {
    Continue,
    Quit,
    Message(Incoming),
    StartTls,
}

/// An SMTP session with a client.
pub struct Session {
    /// The EHLO domain this server announces.
    pub hostname: String,
    /// Whether a TLS identity is configured at all.
    pub tls_available: bool,
    /// Whether the connection is encrypted right now.
    pub secure: bool,
    /// The domain of the client's HELO or EHLO, once greeted.
    pub helo_domain: Option<String>,
    /// The mail transaction in progress.
    pub envelope: Option<Envelope>,
    /// The authenticated principal, if any.
    pub identity: Option<Identity>,
    /// Whether the 220 greeting has been sent.
    pub greeted: bool,
    /// A SASL exchange awaiting the client's next line.
    pub pending_auth: Option<Authenticator>,
}

/// The state invariant: an in-progress envelope never holds duplicate
/// recipients, and a pending SASL exchange means nobody is logged in
/// yet.
pub open spec fn session_wf(s: &Session) -> bool {
    &&& match s.envelope {
        Some(e) => e.wf(),
        None => true,
    }
    &&& s.pending_auth is Some ==> s.identity is None
}

impl Session {
    /// A session over a fresh connection.
    pub fn new(hostname: String, tls_available: bool, secure: bool) -> (r: Session)
        ensures
            r.hostname == hostname,
            r.tls_available == tls_available,
            r.secure == secure,
            r.helo_domain is None,
            r.envelope is None,
            r.identity is None,
            !r.greeted,
            r.pending_auth is None,
            session_wf(&r),
    {
        Session {
            hostname,
            tls_available,
            secure,
            helo_domain: None,
            envelope: None,
            identity: None,
            greeted: false,
            pending_auth: None,
        }
    }

    /// The `220` greeting, owed once before the first command.
    pub fn greet(&mut self) -> (out: Vec<u8>)
        ensures
            out@ == encode_utf8("220 "@) + encode_utf8(old(self).hostname@) + crlf(),
            *final(self) == (Session { greeted: true, ..*old(self) }),
    {
        let mut out: Vec<u8> = Vec::new();
        crate::text::push_str_bytes(&mut out, "220 ");
        crate::text::push_str_bytes(&mut out, self.hostname.as_str());
        out.push(13);
        out.push(10);
        self.greeted = true;
        proof {
            assert(out@ =~= encode_utf8("220 "@) + encode_utf8(old(self).hostname@) + crlf());
        }
        out
    }

    /// The extensions this session advertises: the unconditional set,
    /// plus STARTTLS exactly when the connection is still plaintext and
    /// a TLS identity is configured.
    pub fn extensions(&self) -> (r: ehlo::Extensions)
        ensures
            r.eightbitmime && r.smtputf8 && r.chunking && !r.enhancedstatuscodes,
            r.starttls <==> self.tls_available && !self.secure,
    {
        ehlo::Extensions {
            eightbitmime: true,
            smtputf8: true,
            chunking: true,
            starttls: self.tls_available && !self.secure,
            enhancedstatuscodes: false,
        }
    }

    /// Takes the envelope for a message body, or reports why it is not
    /// ready: no transaction, or a transaction without recipients.
    pub fn take_envelope(&mut self) -> (r: Result<Envelope, Vec<u8>>)
        requires
            session_wf(old(self)),
        ensures
            session_wf(final(self)),
            old(self).envelope is None ==> r is Err && r->Err_0@ == encode_utf8(
                "503 need MAIL command\r\n"@,
            ) && *final(self) == *old(self),
            old(self).envelope matches Some(e) ==> (e.recipients@.len() == 0 ==> r is Err
                && r->Err_0@ == encode_utf8("554 no recipients\r\n"@) && *final(self) == *old(
                self,
            )),
            old(self).envelope matches Some(e) ==> (e.recipients@.len() > 0 ==> r == Ok::<
                Envelope,
                Vec<u8>,
            >(e) && *final(self) == (Session { envelope: None, ..*old(self) })),
    {
        match self.envelope.take() {
            None => {
                let mut out: Vec<u8> = Vec::new();
                crate::text::push_str_bytes(&mut out, "503 need MAIL command\r\n");
                proof {
                    assert(out@ =~= encode_utf8("503 need MAIL command\r\n"@));
                }
                Err(out)
            },
            Some(envelope) => {
                if envelope.recipients.len() == 0 {
                    let mut out: Vec<u8> = Vec::new();
                    crate::text::push_str_bytes(&mut out, "554 no recipients\r\n");
                    self.envelope = Some(envelope);
                    proof {
                        assert(out@ =~= encode_utf8("554 no recipients\r\n"@));
                        assert(*self == *old(self));
                    }
                    Err(out)
                } else {
                    Ok(envelope)
                }
            },
        }
    }

    /// Handles one client line: at most one reply, written before the
    /// next line is read, and the action the caller owes. Parse errors
    /// are answered per line and the session continues; only DATA and
    /// BDAT with a recipient-bearing envelope yield a message, so no
    /// `Message` action ever carries an empty recipient list.
    #[verifier::rlimit(100)]
    pub fn next_line<V: Validator>(&mut self, validator: &V, line: &[u8]) -> (r: (Vec<u8>, Action))
        requires
            session_wf(old(self)),
        ensures
            session_wf(final(self)),
            final(self).hostname == old(self).hostname,
            final(self).tls_available == old(self).tls_available,
            final(self).secure == old(self).secure,
            final(self).greeted == old(self).greeted,
            r.1 matches Action::Message(m) ==> m.envelope.recipients@.len() >= 1,
            old(self).pending_auth is Some ==> ({
                &&& final(self).pending_auth is Some ==> r.1 is Continue
                &&& (match client_bytes(line@) {
                    None => r.0@ == encode_utf8("535 failed to decode response\r\n"@) && final(self).identity is None && final(self).pending_auth is None,
                    Some(_) => (final(self).identity is Some && r.0@ == encode_utf8(
                        "235 welcome\r\n"@)) || (final(self).identity is None && (r.0@ == encode_utf8(
                        "535 failed to decode response\r\n"@) || r.0@ == encode_utf8("535 invalid credentials\r\n"@) || r.0@
                        == encode_utf8("454 invalid identity\r\n"@))),
                })
                &&& r.1 is Continue
            }),
            old(self).pending_auth is None ==> match classify(line@) {
                LineOutcome::Invalid => r.0@ == Seq::<u8>::empty() && r.1 is Continue && *final(self) == *old(self),
                LineOutcome::Unknown => r.0@ == encode_utf8("500 Unrecognized command\r\n"@)
                    && r.1 is Continue && *final(self) == *old(self),
                LineOutcome::SyntaxErr(h) => r.0@ == encode_utf8("501 Syntax: "@) + encode_utf8(h)
                    + crlf() && r.1 is Continue && *final(self) == *old(self),
                LineOutcome::Cmd(c) => match c {
                    SpecCommand::Helo(d) => r.0@ == encode_utf8("250 hello\r\n"@) && r.1
                        is Continue && (final(self).helo_domain matches Some(hd) && hd@ == d)
                        && final(self).envelope is None && final(self).identity == old(
                        self,
                    ).identity,
                    SpecCommand::Ehlo(d) => r.1 is Continue && (final(self).helo_domain matches
                        Some(hd) && hd@ == d) && final(self).envelope is None && final(self).identity == old(self).identity && r.0@ == ehlo::spec_fmt(
                        &(ehlo::Response {
                            domain: old(self).hostname,
                            extensions: ehlo::Extensions {
                                eightbitmime: true,
                                smtputf8: true,
                                chunking: true,
                                starttls: old(self).tls_available && !old(self).secure,
                                enhancedstatuscodes: false,
                            },
                            size: None,
                            auth: ehlo::Auth { login: true, plain: true },
                        }),
                    ),
                    SpecCommand::Mail(a) => {
                        if old(self).helo_domain is None {
                            r.0@ == encode_utf8("503 say HELO first\r\n"@) && r.1 is Continue
                                && *final(self) == *old(self)
                        } else if old(self).envelope is Some {
                            r.0@ == encode_utf8("501 transaction already started\r\n"@) && r.1
                                is Continue && *final(self) == *old(self)
                        } else {
                            r.0@ == encode_utf8("250 ok\r\n"@) && r.1 is Continue && (final(self).envelope matches Some(e) && e.from@ == a && e.recipients@.len() == 0)
                                && final(self).helo_domain == old(self).helo_domain
                        }
                    },
                    SpecCommand::Rcpt(a) => {
                        if old(self).envelope is None {
                            r.0@ == encode_utf8("503 need MAIL command\r\n"@) && r.1 is Continue
                                && *final(self) == *old(self)
                        } else {
                            r.0@ == encode_utf8("250 ok\r\n"@) && r.1 is Continue && (final(self).envelope matches Some(e2) && ({
                                let e1 = old(self).envelope.unwrap();
                                &&& e2.from == e1.from
                                &&& ((exists|i: int|
                                    0 <= i < e1.recipients@.len() && e1.recipients@[i]@ == a)
                                    ==> e2.recipients@ == e1.recipients@)
                                &&& (!(exists|i: int|
                                    0 <= i < e1.recipients@.len() && e1.recipients@[i]@ == a)
                                    ==> e2.recipients@.len() == e1.recipients@.len() + 1
                                    && e2.recipients@.last()@ == a)
                            }))
                        }
                    },
                    SpecCommand::Data => {
                        if old(self).envelope is None {
                            r.0@ == encode_utf8("503 need MAIL command\r\n"@) && r.1 is Continue
                                && *final(self) == *old(self)
                        } else if old(self).envelope.unwrap().recipients@.len() == 0 {
                            r.0@ == encode_utf8("554 no recipients\r\n"@) && r.1 is Continue
                                && *final(self) == *old(self)
                        } else {
                            r.0@ == encode_utf8("354 go ahead\r\n"@) && (r.1 matches
                                Action::Message(m) && m.envelope == old(self).envelope.unwrap()
                                && m.mode is Data) && final(self).envelope is None
                        }
                    },
                    SpecCommand::Bdat(n, l) => {
                        if old(self).envelope is None {
                            r.0@ == encode_utf8("503 need MAIL command\r\n"@) && r.1 is Continue
                                && *final(self) == *old(self)
                        } else if old(self).envelope.unwrap().recipients@.len() == 0 {
                            r.0@ == encode_utf8("554 no recipients\r\n"@) && r.1 is Continue
                                && *final(self) == *old(self)
                        } else {
                            r.0@ == Seq::<u8>::empty() && (r.1 matches Action::Message(m)
                                && m.envelope == old(self).envelope.unwrap() && (m.mode matches
                                BodyMode::Bdat { size, last } && size == n && last == l)) && final(self).envelope is None
                        }
                    },
                    SpecCommand::Rset => r.0@ == encode_utf8("250 ok\r\n"@) && r.1 is Continue
                        && *final(self) == (Session { envelope: None, ..*old(self) }),
                    SpecCommand::Quit => r.0@ == encode_utf8("221 Bye\r\n"@) && r.1 is Quit
                        && *final(self) == *old(self),
                    SpecCommand::Noop => r.0@ == encode_utf8("250 ok\r\n"@) && r.1 is Continue
                        && *final(self) == *old(self),
                    SpecCommand::Starttls => {
                        if old(self).secure {
                            r.0@ == encode_utf8("454 Already using TLS\r\n"@) && r.1 is Continue
                                && *final(self) == *old(self)
                        } else if !old(self).tls_available {
                            r.0@ == encode_utf8("454 TLS not available\r\n"@) && r.1 is Continue
                                && *final(self) == *old(self)
                        } else {
                            r.0@ == encode_utf8("220 Go ahead\r\n"@) && r.1 is StartTls && *final(self) == *old(self)
                        }
                    },
                    SpecCommand::Auth(ir) => {
                        if old(self).envelope is Some {
                            r.0@ == encode_utf8("503 transaction already started\r\n"@) && r.1
                                is Continue && *final(self) == *old(self)
                        } else if old(self).identity is Some {
                            r.0@ == encode_utf8("503 already authenticated\r\n"@) && r.1
                                is Continue && *final(self) == *old(self)
                        } else {
                            match ir {
                                None => r.0@ == encode_utf8("+ "@) + crate::authenticate::b64_of(
                                    Seq::<u8>::empty(),
                                ) + crlf() && r.1 is Continue && final(self).pending_auth is Some,
                                Some(_) => r.1 is Continue && ((final(self).identity is Some
                                    && r.0@ == encode_utf8("235 welcome\r\n"@)) || (final(self).identity is None && (r.0@ == encode_utf8(
                                    "535 failed to decode response\r\n"@) || r.0@ == encode_utf8("535 invalid credentials\r\n"@) || r.0@
                                    == encode_utf8("454 invalid identity\r\n"@)))),
                            }
                        }
                    },
                },
            },
    {
        if self.pending_auth.is_some() {
            return self.auth_line(validator, line);
        }
        match Command::parse(line) {
            Err(Error::InvalidUtf8) => (Vec::new(), Action::Continue),
            Err(Error::UnrecognizedCommand) => (
                self.reply("500 Unrecognized command\r\n"),
                Action::Continue,
            ),
            Err(Error::Syntax(hint)) => {
                let mut out: Vec<u8> = Vec::new();
                crate::text::push_str_bytes(&mut out, "501 Syntax: ");
                crate::text::push_str_bytes(&mut out, hint);
                out.push(13);
                out.push(10);
                proof {
                    assert(out@ =~= encode_utf8("501 Syntax: "@) + encode_utf8(hint@) + crlf());
                }
                (out, Action::Continue)
            },
            Ok(Command::Helo { domain }) => {
                self.envelope = None;
                self.helo_domain = Some(domain);
                (self.reply("250 hello\r\n"), Action::Continue)
            },
            Ok(Command::Ehlo { domain }) => {
                self.envelope = None;
                self.helo_domain = Some(domain);
                let res = ehlo::Response {
                    domain: self.hostname.clone(),
                    extensions: self.extensions(),
                    size: None,
                    auth: ehlo::Auth::all(),
                };
                proof {
                    assert(res.domain@ == old(self).hostname@);
                    assert(res == (ehlo::Response {
                        domain: res.domain,
                        extensions: ehlo::Extensions {
                            eightbitmime: true,
                            smtputf8: true,
                            chunking: true,
                            starttls: old(self).tls_available && !old(self).secure,
                            enhancedstatuscodes: false,
                        },
                        size: None,
                        auth: ehlo::Auth { login: true, plain: true },
                    }));
                }
                let out = res.to_bytes();
                proof {
                    lemma_spec_fmt_domain_view(&res, old(self).hostname);
                }
                (out, Action::Continue)
            },
            Ok(Command::Mail { from }) => {
                if self.helo_domain.is_none() {
                    (self.reply("503 say HELO first\r\n"), Action::Continue)
                } else if self.envelope.is_some() {
                    (self.reply("501 transaction already started\r\n"), Action::Continue)
                } else {
                    self.envelope = Some(Envelope::new(from));
                    (self.reply("250 ok\r\n"), Action::Continue)
                }
            },
            Ok(Command::Rcpt { to }) => {
                match &mut self.envelope {
                    None => (self.reply("503 need MAIL command\r\n"), Action::Continue),
                    Some(envelope) => {
                        envelope.add_recipient(to);
                        (self.reply("250 ok\r\n"), Action::Continue)
                    },
                }
            },
            Ok(Command::Data) => {
                match self.take_envelope() {
                    Err(out) => (out, Action::Continue),
                    Ok(envelope) => (
                        self.reply("354 go ahead\r\n"),
                        Action::Message(Incoming { envelope, mode: BodyMode::Data }),
                    ),
                }
            },
            Ok(Command::Bdat { size, last }) => {
                match self.take_envelope() {
                    Err(out) => (out, Action::Continue),
                    Ok(envelope) => (
                        Vec::new(),
                        Action::Message(
                            Incoming { envelope, mode: BodyMode::Bdat { size, last } },
                        ),
                    ),
                }
            },
            Ok(Command::Rset) => {
                self.envelope = None;
                (self.reply("250 ok\r\n"), Action::Continue)
            },
            Ok(Command::Quit) => (self.reply("221 Bye\r\n"), Action::Quit),
            Ok(Command::Noop) => (self.reply("250 ok\r\n"), Action::Continue),
            Ok(Command::Starttls) => {
                if self.secure {
                    (self.reply("454 Already using TLS\r\n"), Action::Continue)
                } else if !self.tls_available {
                    (self.reply("454 TLS not available\r\n"), Action::Continue)
                } else {
                    (self.reply("220 Go ahead\r\n"), Action::StartTls)
                }
            },
            Ok(Command::Auth { mechanism, initial_response }) => {
                if self.envelope.is_some() {
                    (self.reply("503 transaction already started\r\n"), Action::Continue)
                } else if self.identity.is_some() {
                    (self.reply("503 already authenticated\r\n"), Action::Continue)
                } else {
                    let (authenticator, challenge) = Authenticator::init(mechanism);
                    match initial_response {
                        Some(ir) => {
                            self.pending_auth = Some(authenticator);
                            let out_action = self.auth_line(validator, ir.as_str().as_bytes());
                            out_action
                        },
                        None => {
                            self.pending_auth = Some(authenticator);
                            let out = crate::authenticate::challenge_line(challenge.as_slice());
                            (out, Action::Continue)
                        },
                    }
                }
            },
        }
    }

    /// One line of a pending SASL exchange.
    fn auth_line<V: Validator>(&mut self, validator: &V, line: &[u8]) -> (r: (Vec<u8>, Action))
        requires
            session_wf(old(self)),
            old(self).pending_auth is Some,
            old(self).identity is None,
        ensures
            session_wf(final(self)),
            final(self).hostname == old(self).hostname,
            final(self).tls_available == old(self).tls_available,
            final(self).secure == old(self).secure,
            final(self).greeted == old(self).greeted,
            final(self).envelope == old(self).envelope,
            final(self).helo_domain == old(self).helo_domain,
            r.1 is Continue,
            match client_bytes(line@) {
                None => r.0@ == encode_utf8("535 failed to decode response\r\n"@) && final(self).identity is None && final(self).pending_auth is None && final(self).identity
                    == old(self).identity,
                Some(_) => (final(self).identity is Some && r.0@ == encode_utf8(
                    "235 welcome\r\n"@)) || (final(self).identity is None && (r.0@ == encode_utf8(
                    "535 failed to decode response\r\n"@) || r.0@ == encode_utf8("535 invalid credentials\r\n"@) || r.0@ == encode_utf8(
                    "454 invalid identity\r\n"@))),
            },
    {
        let mut authenticator = match self.pending_auth.take() {
            Some(a) => a,
            None => {
                proof {
                    assert(false);
                }
                return (Vec::new(), Action::Continue);
            },
        };
        match authenticator.eat(validator, line) {
            Ok(Exchange::Break(identity)) => {
                self.identity = Some(identity);
                (self.reply("235 welcome\r\n"), Action::Continue)
            },
            Ok(Exchange::Continue(challenge)) => {
                self.pending_auth = Some(authenticator);
                let out = crate::authenticate::challenge_line(challenge.as_slice());
                proof {
                    assert(false);
                }
                (out, Action::Continue)
            },
            Err(MechanismError::Decode) => (
                self.reply("535 failed to decode response\r\n"),
                Action::Continue,
            ),
            Err(MechanismError::Validation(ValidationError::InvalidCredentials)) => (
                self.reply("535 invalid credentials\r\n"),
                Action::Continue,
            ),
            Err(MechanismError::Validation(ValidationError::Unknown)) => (
                self.reply("454 invalid identity\r\n"),
                Action::Continue,
            ),
        }
    }

    /// One fixed reply line as bytes.
    fn reply(&self, text: &str) -> (out: Vec<u8>)
        ensures
            out@ == encode_utf8(text@),
    {
        let mut out: Vec<u8> = Vec::new();
        crate::text::push_str_bytes(&mut out, text);
        proof {
            assert(out@ =~= encode_utf8(text@));
        }
        out
    }

    /// Marks a completed TLS handshake: the connection is encrypted and
    /// the client, its transaction and its identity are forgotten.
    pub fn tls_done(&mut self)
        ensures
            *final(self) == (Session {
                secure: true,
                helo_domain: None,
                envelope: None,
                identity: None,
                ..*old(self)
            }),
    {
        self.secure = true;
        self.helo_domain = None;
        self.envelope = None;
        self.identity = None;
    }
}

/// The wire form of an EHLO response depends only on the view of its
/// domain.
proof fn lemma_spec_fmt_domain_view(r: &ehlo::Response, d: String)
    requires
        r.domain@ == d@,
    ensures
        ehlo::spec_fmt(r) == ehlo::spec_fmt(
            &(ehlo::Response {
                domain: d,
                extensions: r.extensions,
                size: r.size,
                auth: r.auth,
            }),
        ),
{
}

} // verus!
