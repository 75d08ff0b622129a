//! The IMAP session state machine: authentication state, capability
//! advertisement, synchronous command handling, and the hand-off of
//! asynchronous operations to the caller.

use vstd::prelude::*;

verus! {

use vstd::utf8::encode_utf8;

use crate::auth::Credentials;
use crate::auth::Identity;
use crate::auth::Validator;
use crate::authenticate::Authenticator;
use crate::authenticate::client_bytes;
use crate::imap::Tag;
use crate::imap::capability::Capabilities;
use crate::imap::command::Command;
use crate::imap::command::CommandName;
use crate::imap::command::Error;
use crate::imap::command::TaggedCommand;
use crate::imap::ops;
use crate::imap::ops::Operation;
use crate::imap::queue::Queue;
use crate::imap::response::Status;
use crate::imap::response::StatusResponse;
use crate::imap::response::TaggedStatusResponse;
use crate::imap::response::spec_tagged;
use crate::line::crlf;
use crate::sasl::Exchange;
use crate::sasl::plain::plain_separators;
use vstd::utf8::decode_utf8;
use vstd::utf8::valid_utf8;

/// The context a selected mailbox gives its commands.
#[derive(Debug)]
pub struct SelectedState {
    pub mailbox: String,
    pub read_only: bool,
    pub identity: Identity,
}

impl SelectedState {
    /// A copy carrying the same values.
    pub fn dup(&self) -> (r: SelectedState)
        ensures
            r.mailbox@ == self.mailbox@,
            r.read_only == self.read_only,
            r.identity.0@ == self.identity.0@,
    {
        SelectedState {
            mailbox: self.mailbox.clone(),
            read_only: self.read_only,
            identity: Identity(self.identity.0.clone()),
        }
    }
}

/// Where a session stands: transitions are irreversible except
/// `Selected` back to `Authenticated`, and either authenticated state
/// to `Logout`.
pub enum State {
    NotAuthenticated,
    Authenticated(Identity),
    Selected(SelectedState),
    Logout,
}

/// What the caller must do after a line: nothing more, stop reading
/// (LOGOUT), run a TLS handshake, or execute an operation and feed its
/// result back.
pub enum ImapAction {
    Continue,
    Logout,
    StartTls,
    Run(Operation),
}

/// An IMAP session with a client.
pub struct Session {
    /// Where the session stands.
    pub state: State,
    /// The in-flight asynchronous operations.
    pub queue: Queue,
    /// Whether the greeting has been sent.
    pub greeted: bool,
    /// Whether the connection is encrypted right now.
    pub secure: bool,
    /// Whether a TLS identity is configured at all.
    pub tls_available: bool,
    /// A SASL exchange awaiting the client's next line, with the tag
    /// that will carry its outcome.
    pub pending_auth: Option<(Authenticator, Tag)>,
}

/// The session invariant: the queue holds each tag once, and a SASL
/// exchange only runs before anyone is authenticated.
pub open spec fn session_wf(s: &Session) -> bool {
    &&& s.queue.wf()
    &&& s.pending_auth is Some ==> s.state is NotAuthenticated
}

/// One tagged status line on the wire.
pub open spec fn tagged_line(tag: Seq<char>, status: Status, message: Seq<char>) -> Seq<u8> {
    encode_utf8(tag) + seq![32u8] + crate::imap::response::status_bytes(status) + seq![32u8]
        + encode_utf8(message) + crlf()
}

/// What one SASL response line must have produced: a line that decodes
/// to no PLAIN credentials is answered `BAD failed to decode response`;
/// a decodable line resolves by the validator's verdict alone, into
/// `OK Logged in` with the authenticated state, or the `NO`/`BAD`
/// validation replies with the session still unauthenticated.
pub open spec fn sasl_reply(s_new: &Session, tagc: Seq<char>, line: Seq<u8>, out: Seq<u8>) -> bool {
    match client_bytes(line) {
        None => out == tagged_line(tagc, Status::Bad, "failed to decode response"@)
            && s_new.state is NotAuthenticated && s_new.pending_auth is None,
        Some(cb) => if !valid_utf8(cb) || plain_separators(cb) is None {
            out == tagged_line(tagc, Status::Bad, "failed to decode response"@) && s_new.state
                is NotAuthenticated && s_new.pending_auth is None
        } else {
            ||| (s_new.state matches State::Authenticated(_) && s_new.pending_auth is None && out
                == tagged_line(tagc, Status::Okay, "Logged in"@))
            ||| (s_new.state is NotAuthenticated && s_new.pending_auth is None && (out
                == tagged_line(tagc, Status::No, "invalid credentials"@) || out == tagged_line(
                tagc,
                Status::Bad,
                "invalid identity"@,
            )))
        },
    }
}

/// What a SELECT or EXAMINE must have produced: the rejection when
/// nobody is authenticated, else no reply and the dispatched operation
/// under the command's tag.
pub open spec fn select_outcome(
    s_old: &Session,
    s_new: &Session,
    tagc: Seq<char>,
    m: Seq<char>,
    read_only: bool,
    out: Seq<u8>,
    act: ImapAction,
) -> bool {
    if s_old.state is NotAuthenticated {
        out == tagged_line(tagc, Status::Bad, "not authenticated"@) && act is Continue && *s_new
            == *s_old
    } else {
        &&& out == Seq::<u8>::empty()
        &&& (act matches ImapAction::Run(op) && (op matches Operation::Select(req, t)
            && req.mailbox@ == m && req.read_only == read_only && t.0@ == tagc))
        &&& s_new.queue.has_tag(tagc)
        &&& s_new.state == s_old.state
        &&& s_new.pending_auth == s_old.pending_auth
    }
}

/// What handling one command line must have produced, for every
/// command the grammar knows: the exact reply bytes, the exact state
/// transition, and the action owed by the caller.
pub open spec fn line_outcome(
    s_old: &Session,
    s_new: &Session,
    line: Seq<u8>,
    out: Seq<u8>,
    act: ImapAction,
) -> bool {
    let tagc = decode_utf8(crate::imap::command::tag_bytes_of(line));
    if !valid_utf8(line) {
        out == Seq::<u8>::empty() && act is Continue && *s_new == *s_old
    } else {
        match crate::imap::command::classify_line(line) {
            crate::imap::command::CmdOutcome::Unknown => out == tagged_line(
                tagc,
                Status::Bad,
                "Unrecognized command"@,
            ) && act is Continue && *s_new == *s_old,
            crate::imap::command::CmdOutcome::SyntaxErr(h) => out == tagged_line(
                tagc,
                Status::Bad,
                h,
            ) && act is Continue && *s_new == *s_old,
            crate::imap::command::CmdOutcome::Cmd(c) => match c {
                crate::imap::command::SpecCmd::Capability => out == encode_utf8("* "@)
                    + s_old.capabilities_spec() + crlf() + tagged_line(
                    tagc,
                    Status::Okay,
                    "CAPABILITY completed"@,
                ) && act is Continue && *s_new == *s_old,
                crate::imap::command::SpecCmd::Noop => out == tagged_line(
                    tagc,
                    Status::Okay,
                    "NOOP completed"@,
                ) && act is Continue && *s_new == *s_old,
                crate::imap::command::SpecCmd::Logout => out == encode_utf8("* BYE"@) + crlf()
                    + tagged_line(tagc, Status::Okay, "Logged out"@) && act is Logout
                    && s_new.state is Logout && s_new.queue == s_old.queue && s_new.pending_auth
                    == s_old.pending_auth,
                crate::imap::command::SpecCmd::Starttls => if s_old.secure {
                    out == tagged_line(tagc, Status::Bad, "Already using TLS"@) && act is Continue
                        && *s_new == *s_old
                } else if !s_old.tls_available {
                    out == tagged_line(tagc, Status::Bad, "TLS not available"@) && act is Continue
                        && *s_new == *s_old
                } else {
                    out == tagged_line(tagc, Status::Okay, "Begin TLS negotiation"@) && act
                        is StartTls && *s_new == *s_old
                },
                crate::imap::command::SpecCmd::Authenticate(ir) => if !(s_old.state
                    is NotAuthenticated) {
                    out == tagged_line(tagc, Status::Bad, "Already authenticated"@) && act
                        is Continue && *s_new == *s_old
                } else {
                    act is Continue && s_new.queue == s_old.queue && (match ir {
                        None => out == encode_utf8("+ "@) + crlf() && (s_new.pending_auth matches
                            Some(p) && p.1.0@ == tagc) && s_new.state is NotAuthenticated,
                        Some(irv) => sasl_reply(s_new, tagc, encode_utf8(irv), out),
                    })
                },
                crate::imap::command::SpecCmd::Login(u, pw) => if !(s_old.state
                    is NotAuthenticated) {
                    out == tagged_line(tagc, Status::Bad, "Already authenticated"@) && act
                        is Continue && *s_new == *s_old
                } else {
                    &&& act is Continue
                    &&& s_new.queue == s_old.queue
                    &&& s_new.pending_auth is None
                    &&& ((s_new.state matches State::Authenticated(_) && out == tagged_line(
                        tagc,
                        Status::Okay,
                        "Logged in"@,
                    )) || (s_new.state is NotAuthenticated && (out == tagged_line(
                        tagc,
                        Status::No,
                        "invalid credentials"@,
                    ) || out == tagged_line(tagc, Status::Bad, "invalid identity"@))))
                },
                crate::imap::command::SpecCmd::Enable(caps) => (if caps
                    == Capabilities::spec_empty() {
                    out == tagged_line(tagc, Status::Bad, "No capabilities specified"@)
                } else {
                    out == tagged_line(tagc, Status::Bad, "ENABLE not supported"@)
                }) && act is Continue && *s_new == *s_old,
                crate::imap::command::SpecCmd::Select(m) => select_outcome(
                    s_old,
                    s_new,
                    tagc,
                    m,
                    false,
                    out,
                    act,
                ),
                crate::imap::command::SpecCmd::Examine(m) => select_outcome(
                    s_old,
                    s_new,
                    tagc,
                    m,
                    true,
                    out,
                    act,
                ),
                crate::imap::command::SpecCmd::Create(m) => out == Seq::<u8>::empty() && (act
                    matches ImapAction::Run(op) && (op matches Operation::Create(req, t)
                    && req.mailbox@ == m && t.0@ == tagc)) && s_new.queue.has_tag(tagc)
                    && s_new.state == s_old.state && s_new.pending_auth == s_old.pending_auth,
                crate::imap::command::SpecCmd::List(refr, m) => out == Seq::<u8>::empty() && (act
                    matches ImapAction::Run(op) && (op matches Operation::List(req, t)
                    && req.reference@ == refr && req.mailbox@ == m && t.0@ == tagc))
                    && s_new.queue.has_tag(tagc) && s_new.state == s_old.state
                    && s_new.pending_auth == s_old.pending_auth,
                crate::imap::command::SpecCmd::Fetch(u, ranges, im) => match s_old.state {
                    State::Selected(sel) => out == Seq::<u8>::empty() && (act matches
                        ImapAction::Run(op) && (op matches Operation::Fetch(req, t) && req.is_uid
                        == u && req.sequence_set.ranges@ == ranges
                        && crate::imap::fetch::items_match(&req.items, im)
                        && req.selected.mailbox@ == sel.mailbox@ && req.selected.read_only
                        == sel.read_only && t.0@ == tagc)) && s_new.queue.has_tag(tagc)
                        && s_new.state == s_old.state && s_new.pending_auth
                        == s_old.pending_auth,
                    _ => out == tagged_line(tagc, Status::Bad, "not in selected state"@) && act
                        is Continue && *s_new == *s_old,
                },
                _ => out == tagged_line(tagc, Status::Bad, "Command not implemented"@) && act
                    is Continue && *s_new == *s_old,
            },
        }
    }
}

impl Session {
    /// A session over a fresh connection.
    pub fn new(tls_available: bool, secure: bool) -> (r: Session)
        ensures
            r.state is NotAuthenticated,
            !r.greeted,
            r.secure == secure,
            r.tls_available == tls_available,
            r.pending_auth is None,
            r.queue.spec_commands().len() == 0,
            session_wf(&r),
    {
        Session {
            state: State::NotAuthenticated,
            queue: Queue::new(),
            greeted: false,
            secure,
            tls_available,
            pending_auth: None,
        }
    }

    /// The capabilities this session advertises right now:
    /// LOGINDISABLED exactly on a plaintext connection, and STARTTLS
    /// exactly on a plaintext connection with a TLS identity
    /// configured.
    pub fn capabilities(&self) -> (r: Capabilities)
        ensures
            r.imap4rev1 && r.imap4rev2 && r.auth_plain && r.sasl_ir && !r.imap4,
            r.logindisabled <==> !self.secure,
            r.starttls <==> !self.secure && self.tls_available,
    {
        Capabilities {
            imap4: false,
            imap4rev1: true,
            imap4rev2: true,
            starttls: !self.secure && self.tls_available,
            auth_plain: true,
            logindisabled: !self.secure,
            sasl_ir: true,
        }
    }

    /// The greeting, owed once: `* OK [<capabilities>] Server ready`.
    pub fn greet(&mut self) -> (out: Vec<u8>)
        ensures
            out@ == encode_utf8("* OK ["@) + old(self).capabilities_spec() + encode_utf8(
                "] Server ready"@,
            ) + crlf(),
            *final(self) == (Session { greeted: true, ..*old(self) }),
    {
        let caps = self.capabilities();
        let mut out: Vec<u8> = Vec::new();
        crate::text::push_str_bytes(&mut out, "* OK [");
        let mut capb = caps.to_bytes();
        out.append(&mut capb);
        crate::text::push_str_bytes(&mut out, "] Server ready");
        out.push(13);
        out.push(10);
        self.greeted = true;
        proof {
            assert(out@ =~= encode_utf8("* OK ["@) + old(self).capabilities_spec() + encode_utf8(
                "] Server ready"@,
            ) + crlf());
        }
        out
    }

    /// The capability line this session's state produces.
    pub open spec fn capabilities_spec(&self) -> Seq<u8> {
        (Capabilities {
            imap4: false,
            imap4rev1: true,
            imap4rev2: true,
            starttls: !self.secure && self.tls_available,
            auth_plain: true,
            logindisabled: !self.secure,
            sasl_ir: true,
        }).spec_fmt()
    }

    /// Marks a completed TLS handshake: the connection is encrypted
    /// and any authentication state is discarded.
    pub fn tls_done(&mut self)
        ensures
            final(self).secure,
            final(self).state is NotAuthenticated,
            final(self).pending_auth is None,
            final(self).tls_available == old(self).tls_available,
            final(self).greeted == old(self).greeted,
            final(self).queue == old(self).queue,
            session_wf(old(self)) ==> session_wf(final(self)),
    {
        self.secure = true;
        self.state = State::NotAuthenticated;
        self.pending_auth = None;
    }

    /// Whether the next command must wait for in-flight operations.
    pub fn must_wait_before(&self, command: &CommandName) -> (r: bool)
        ensures
            r == (self.queue.spec_commands().len() != 0),
    {
        self.queue.must_wait_before(command)
    }

    /// Consumes one completed operation: checks it off the queue and
    /// formats its tagged reply; a successful SELECT moves the session
    /// into the selected state.
    pub fn consume_ready(&mut self, payload: ops::Payload) -> (out: Vec<u8>)
        requires
            session_wf(old(self)),
            (payload.result matches Ok(res) && res is Select) ==> !(old(self).state
                is NotAuthenticated) && !(old(self).state is Logout),
        ensures
            session_wf(final(self)),
            !final(self).queue.has_tag(payload.tag.0@),
            final(self).pending_auth == old(self).pending_auth,
            payload.result matches Ok(res) ==> match res {
                ops::Response::Select(sr) => (final(self).state matches State::Selected(sel)
                    && sel.mailbox@ == sr.mailbox.name@ && sel.read_only == sr.read_only) && out@
                    == crate::imap::select::spec_select(
                    &(crate::imap::select::Response {
                        flags: crate::imap::flags::Response(sr.flags),
                        exists: crate::imap::response::ExistsResponse(sr.exists),
                        uid_validity: sr.uid_validity,
                        next_uid: sr.next_uid,
                        mailbox: sr.mailbox,
                        tag: payload.tag,
                        read_only: sr.read_only,
                    }),
                ),
                ops::Response::List(lr) => final(self).state == old(self).state && out@
                    == crate::imap::list::spec_list(lr.list_items@) + encode_utf8(payload.tag.0@)
                    + encode_utf8(" OK LIST completed"@) + crlf(),
                ops::Response::Fetch(_) => final(self).state == old(self).state && out@
                    == encode_utf8(payload.tag.0@) + encode_utf8(" OK FETCH completed"@) + crlf(),
                ops::Response::Create(_) => final(self).state == old(self).state && out@
                    == encode_utf8(payload.tag.0@) + encode_utf8(" OK CREATE completed"@)
                    + crlf(),
            },
            payload.result matches Err(e) ==> final(self).state == old(self).state && out@
                == spec_tagged(
                &(TaggedStatusResponse { tag: payload.tag, status: e.status, message: e.message }),
            ),
    {
        let ops::Payload { tag, result } = payload;
        self.queue.complete(&tag);
        match result {
            Ok(ops::Response::Select(res)) => {
                let identity = match &self.state {
                    State::Authenticated(identity) => Identity(identity.0.clone()),
                    State::Selected(sel) => Identity(sel.identity.0.clone()),
                    State::NotAuthenticated | State::Logout => {
                        proof {
                            assert(false);
                        }
                        Identity(String::new())
                    },
                };
                let selected = SelectedState {
                    mailbox: res.mailbox.name.clone(),
                    read_only: res.read_only,
                    identity,
                };
                self.state = State::Selected(selected);
                res.into_tagged_response(tag)
            },
            Ok(ops::Response::List(res)) => res.into_tagged_response(tag),
            Ok(ops::Response::Fetch(res)) => res.into_tagged_response(tag),
            Ok(ops::Response::Create(res)) => res.into_tagged_response(tag),
            Err(e) => {
                let resp = TaggedStatusResponse { tag, status: e.status, message: e.message };
                resp.to_bytes()
            },
        }
    }

    /// Handles one client line: the bytes owed to the client and the
    /// action owed by the caller. Synchronous commands are answered in
    /// place; SELECT, EXAMINE, CREATE, LIST and FETCH are handed out as
    /// operations under their tag; a pending SASL exchange swallows the
    /// line first.
    #[verifier::rlimit(100)]
    pub fn next_line<V: Validator>(&mut self, validator: &V, line: &[u8]) -> (r: (
        Vec<u8>,
        ImapAction,
    ))
        requires
            session_wf(old(self)),
            !(old(self).state is Logout),
        ensures
            session_wf(final(self)),
            final(self).secure == old(self).secure,
            final(self).tls_available == old(self).tls_available,
            final(self).greeted == old(self).greeted,
            old(self).pending_auth is Some ==> ({
                &&& r.1 is Continue
                &&& final(self).queue == old(self).queue
                &&& sasl_reply(final(self), old(self).pending_auth.unwrap().1.0@, line@, r.0@)
            }),
            old(self).pending_auth is None ==> line_outcome(
                old(self),
                final(self),
                line@,
                r.0@,
                r.1,
            ),
        {
        if self.pending_auth.is_some() {
            return self.auth_line(validator, line);
        }
        let tagged = match TaggedCommand::parse(line) {
            Ok(tc) => tc,
            Err(Error::Bad(resp)) => {
                return (resp.to_bytes(), ImapAction::Continue);
            },
            Err(Error::InvalidUtf8) => {
                return (Vec::new(), ImapAction::Continue);
            },
        };
        let TaggedCommand { tag, command } = tagged;
        match command {
            Command::Capability => {
                let ghost tagv = tag.0@;
                let mut out: Vec<u8> = Vec::new();
                crate::text::push_str_bytes(&mut out, "* ");
                let caps = self.capabilities();
                proof {
                    assert(caps == (Capabilities {
                        imap4: false,
                        imap4rev1: true,
                        imap4rev2: true,
                        starttls: !self.secure && self.tls_available,
                        auth_plain: true,
                        logindisabled: !self.secure,
                        sasl_ir: true,
                    }));
                }
                let mut capb = caps.to_bytes();
                out.append(&mut capb);
                out.push(13);
                out.push(10);
                let mut resp = self.tagged(tag, Status::Okay, "CAPABILITY completed");
                out.append(&mut resp);
                proof {
                    assert(out@ =~= encode_utf8("* "@) + old(self).capabilities_spec() + crlf()
                        + tagged_line(tagv, Status::Okay, "CAPABILITY completed"@));
                }
                (out, ImapAction::Continue)
            },
            Command::Noop => (self.tagged(tag, Status::Okay, "NOOP completed"), ImapAction::Continue),
            Command::Logout => {
                let ghost tagv = tag.0@;
                let mut out: Vec<u8> = Vec::new();
                crate::text::push_str_bytes(&mut out, "* BYE");
                out.push(13);
                out.push(10);
                let mut resp = self.tagged(tag, Status::Okay, "Logged out");
                out.append(&mut resp);
                self.state = State::Logout;
                proof {
                    assert(out@ =~= encode_utf8("* BYE"@) + crlf() + tagged_line(
                        tagv,
                        Status::Okay,
                        "Logged out"@,
                    ));
                }
                (out, ImapAction::Logout)
            },
            Command::Starttls => {
                if self.secure {
                    (self.tagged(tag, Status::Bad, "Already using TLS"), ImapAction::Continue)
                } else if !self.tls_available {
                    (self.tagged(tag, Status::Bad, "TLS not available"), ImapAction::Continue)
                } else {
                    (
                        self.tagged(tag, Status::Okay, "Begin TLS negotiation"),
                        ImapAction::StartTls,
                    )
                }
            },
            Command::Authenticate { mechanism, initial_response } => {
                if !matches!(self.state, State::NotAuthenticated) {
                    return (
                        self.tagged(tag, Status::Bad, "Already authenticated"),
                        ImapAction::Continue,
                    );
                }
                let (authenticator, challenge) = Authenticator::init(mechanism);
                match initial_response {
                    Some(ir) => {
                        self.pending_auth = Some((authenticator, tag));
                        self.auth_line(validator, ir.as_str().as_bytes())
                    },
                    None => {
                        self.pending_auth = Some((authenticator, tag));
                        let out = crate::authenticate::challenge_line(challenge.as_slice());
                        (out, ImapAction::Continue)
                    },
                }
            },
            Command::Login { username, password } => {
                if !matches!(self.state, State::NotAuthenticated) {
                    return (
                        self.tagged(tag, Status::Bad, "Already authenticated"),
                        ImapAction::Continue,
                    );
                }
                match validator.validate(&Credentials { username, password }) {
                    Ok(identity) => {
                        self.state = State::Authenticated(identity);
                        (self.tagged(tag, Status::Okay, "Logged in"), ImapAction::Continue)
                    },
                    Err(e) => {
                        let resp = StatusResponse::from_validation(e).with_tag(tag);
                        (resp.to_bytes(), ImapAction::Continue)
                    },
                }
            },
            Command::Enable { capabilities } => {
                if capabilities.is_empty() {
                    (
                        self.tagged(tag, Status::Bad, "No capabilities specified"),
                        ImapAction::Continue,
                    )
                } else {
                    (self.tagged(tag, Status::Bad, "ENABLE not supported"), ImapAction::Continue)
                }
            },
            Command::Select { mailbox } => self.dispatch_select(tag, mailbox, false),
            Command::Examine { mailbox } => self.dispatch_select(tag, mailbox, true),
            Command::Create { mailbox } => {
                self.queue.insert(Tag(tag.0.clone()), CommandName::Create);
                (
                    Vec::new(),
                    ImapAction::Run(Operation::Create(ops::CreateRequest { mailbox }, tag)),
                )
            },
            Command::List { reference, mailbox } => {
                self.queue.insert(Tag(tag.0.clone()), CommandName::List);
                (
                    Vec::new(),
                    ImapAction::Run(Operation::List(ops::ListRequest { reference, mailbox }, tag)),
                )
            },
            Command::Fetch(fetch) => {
                match &self.state {
                    State::Selected(selected) => {
                        let context = selected.dup();
                        self.queue.insert(Tag(tag.0.clone()), CommandName::Fetch);
                        (
                            Vec::new(),
                            ImapAction::Run(
                                Operation::Fetch(
                                    ops::FetchRequest {
                                        is_uid: fetch.is_uid,
                                        sequence_set: fetch.sequence_set,
                                        items: fetch.items,
                                        selected: context,
                                    },
                                    tag,
                                ),
                            ),
                        )
                    },
                    _ => (
                        self.tagged(tag, Status::Bad, "not in selected state"),
                        ImapAction::Continue,
                    ),
                }
            },
            _ => (self.tagged(tag, Status::Bad, "Command not implemented"), ImapAction::Continue),
        }
    }

    /// Dispatches a SELECT or EXAMINE, which needs an authenticated
    /// session.
    fn dispatch_select(&mut self, tag: Tag, mailbox: String, read_only: bool) -> (r: (
        Vec<u8>,
        ImapAction,
    ))
        requires
            session_wf(old(self)),
            !(old(self).state is Logout),
        ensures
            session_wf(final(self)),
            final(self).secure == old(self).secure,
            final(self).tls_available == old(self).tls_available,
            final(self).greeted == old(self).greeted,
            select_outcome(
                old(self),
                final(self),
                tag.0@,
                mailbox@,
                read_only,
                r.0@,
                r.1,
            ),
    {
        match &self.state {
            State::NotAuthenticated => (
                self.tagged(tag, Status::Bad, "not authenticated"),
                ImapAction::Continue,
            ),
            _ => {
                self.queue.insert(Tag(tag.0.clone()), CommandName::Select);
                (
                    Vec::new(),
                    ImapAction::Run(
                        Operation::Select(ops::SelectRequest { mailbox, read_only }, tag),
                    ),
                )
            },
        }
    }

    /// One line of a pending SASL exchange.
    fn auth_line<V: Validator>(&mut self, validator: &V, line: &[u8]) -> (r: (Vec<u8>, ImapAction))
        requires
            session_wf(old(self)),
            old(self).pending_auth is Some,
        ensures
            session_wf(final(self)),
            final(self).secure == old(self).secure,
            final(self).tls_available == old(self).tls_available,
            final(self).greeted == old(self).greeted,
            final(self).queue == old(self).queue,
            !(final(self).state is Logout),
            r.1 is Continue,
            sasl_reply(final(self), old(self).pending_auth.unwrap().1.0@, line@, r.0@),
    {
        let (mut authenticator, tag) = match self.pending_auth.take() {
            Some(p) => p,
            None => {
                proof {
                    assert(false);
                }
                return (Vec::new(), ImapAction::Continue);
            },
        };
        match authenticator.eat(validator, line) {
            Ok(Exchange::Break(identity)) => {
                self.state = State::Authenticated(identity);
                (self.tagged(tag, Status::Okay, "Logged in"), ImapAction::Continue)
            },
            Ok(Exchange::Continue(challenge)) => {
                self.pending_auth = Some((authenticator, tag));
                let out = crate::authenticate::challenge_line(challenge.as_slice());
                proof {
                    assert(false);
                }
                (out, ImapAction::Continue)
            },
            Err(e) => {
                let resp = StatusResponse::from_mechanism(e).with_tag(tag);
                (resp.to_bytes(), ImapAction::Continue)
            },
        }
    }

    /// One tagged status line as bytes.
    fn tagged(&self, tag: Tag, status: Status, message: &str) -> (out: Vec<u8>)
        ensures
            out@ == encode_utf8(tag.0@) + seq![32u8] + crate::imap::response::status_bytes(status)
                + seq![32u8] + encode_utf8(message@) + crlf(),
    {
        let resp = TaggedStatusResponse { tag, status, message: message.to_owned() };
        resp.to_bytes()
    }
}

} // verus!
