//! The IMAP command grammar: `<tag> SP <verb> [SP <args>] CRLF`, with
//! an optional `UID ` prefix before the applicable verbs, quoted or
//! bare string arguments, and per-verb argument forms.

use vstd::prelude::*;

verus! {

use vstd::utf8::decode_utf8;
use vstd::utf8::encode_utf8;
use vstd::utf8::valid_utf8;

use crate::imap::Tag;
use crate::imap::capability::Capabilities;
use crate::imap::fetch;
use crate::imap::fetch::ItemsModel;
use crate::imap::fetch::items_at;
use crate::imap::fetch::items_match;
use crate::imap::response::Status;
use crate::imap::response::StatusResponse;
use crate::imap::response::TaggedStatusResponse;
use crate::imap::sequence::SequenceRange;
use crate::imap::sequence::SequenceSet;
use crate::imap::status;
use crate::sasl::WhichMechanism;
use crate::text::first_byte;
use crate::text::has_token;
use crate::text::upper_bytes;

/// A request: the client's tag, and whatever data travels with it.
pub struct Request<T> {
    pub tag: Tag,
    pub data: T,
}

impl<T> Request<T> {
    pub fn new(tag: Tag, data: T) -> (r: Self)
        ensures
            r.tag == tag,
            r.data == data,
    {
        Request { tag, data }
    }

    /// Splits the data from the bare request.
    pub fn into_parts(self) -> (r: (T, Request<()>))
        ensures
            r.0 == self.data,
            r.1.tag == self.tag,
    {
        let Request { tag, data } = self;
        (data, Request { tag, data: () })
    }

    /// The tagged status response that answers this request.
    pub fn into_res(self, status: Status, message: String) -> (r: TaggedStatusResponse)
        ensures
            r.tag == self.tag,
            r.status == status,
            r.message == message,
    {
        StatusResponse::new(status, message).with_tag(self.tag)
    }

    pub fn ok(self, message: String) -> (r: TaggedStatusResponse)
        ensures
            r.tag == self.tag,
            r.status is Okay,
            r.message == message,
    {
        self.into_res(Status::Okay, message)
    }

    pub fn no(self, message: String) -> (r: TaggedStatusResponse)
        ensures
            r.tag == self.tag,
            r.status is No,
            r.message == message,
    {
        self.into_res(Status::No, message)
    }

    pub fn bad(self, message: String) -> (r: TaggedStatusResponse)
        ensures
            r.tag == self.tag,
            r.status is Bad,
            r.message == message,
    {
        self.into_res(Status::Bad, message)
    }
}

impl Request<()> {
    /// A request that carries nothing but its tag.
    pub fn empty(tag: Tag) -> (r: Self)
        ensures
            r.tag == tag,
    {
        Request { tag, data: () }
    }
}

/// An `EXPUNGE` command's argument: whether `UID` prefixed it.
#[derive(Debug, Clone, Copy, PartialEq, Eq, Structural)]
pub struct Expunge {
    pub is_uid: bool,
}

/// A `FETCH` command's arguments.
#[derive(Debug)]
pub struct Fetch {
    pub is_uid: bool,
    pub sequence_set: SequenceSet,
    pub items: fetch::Items,
}

/// A parsed command.
#[derive(Debug)]
pub enum Command {
    Capability,
    Noop,
    Logout,
    Starttls,
    Authenticate { mechanism: WhichMechanism, initial_response: Option<String> },
    Login { username: String, password: crate::auth::Password },
    Enable { capabilities: Capabilities },
    Select { mailbox: String },
    Examine { mailbox: String },
    Create { mailbox: String },
    Delete { mailbox: String },
    Rename { existing: String, new_name: String },
    Subscribe { mailbox: String },
    Unsubscribe { mailbox: String },
    List { reference: String, mailbox: String },
    Namespace,
    Status { mailbox: String, items: status::Items },
    Append,
    Idle,
    Close,
    Unselect,
    Expunge(Expunge),
    Search { is_uid: bool },
    Fetch(Fetch),
    Store { is_uid: bool },
    Copy { is_uid: bool },
    Move { is_uid: bool },
}

/// The verbs, without their arguments: what the operation queue keys
/// in-flight work by.
#[derive(Debug, Clone, Copy, PartialEq, Eq, Structural)]
pub enum CommandName {
    Capability,
    Noop,
    Logout,
    Starttls,
    Authenticate,
    Login,
    Enable,
    Select,
    Examine,
    Create,
    Delete,
    Rename,
    Subscribe,
    Unsubscribe,
    List,
    Namespace,
    Status,
    Append,
    Idle,
    Close,
    Unselect,
    Expunge,
    Search,
    Fetch,
    Store,
    Copy,
    Move,
}

impl Command {
    /// The command's verb.
    pub fn name(&self) -> (r: CommandName)
        ensures
            r == spec_name(self),
    {
        match self {
            Command::Capability => CommandName::Capability,
            Command::Noop => CommandName::Noop,
            Command::Logout => CommandName::Logout,
            Command::Starttls => CommandName::Starttls,
            Command::Authenticate { .. } => CommandName::Authenticate,
            Command::Login { .. } => CommandName::Login,
            Command::Enable { .. } => CommandName::Enable,
            Command::Select { .. } => CommandName::Select,
            Command::Examine { .. } => CommandName::Examine,
            Command::Create { .. } => CommandName::Create,
            Command::Delete { .. } => CommandName::Delete,
            Command::Rename { .. } => CommandName::Rename,
            Command::Subscribe { .. } => CommandName::Subscribe,
            Command::Unsubscribe { .. } => CommandName::Unsubscribe,
            Command::List { .. } => CommandName::List,
            Command::Namespace => CommandName::Namespace,
            Command::Status { .. } => CommandName::Status,
            Command::Append => CommandName::Append,
            Command::Idle => CommandName::Idle,
            Command::Close => CommandName::Close,
            Command::Unselect => CommandName::Unselect,
            Command::Expunge(_) => CommandName::Expunge,
            Command::Search { .. } => CommandName::Search,
            Command::Fetch(_) => CommandName::Fetch,
            Command::Store { .. } => CommandName::Store,
            Command::Copy { .. } => CommandName::Copy,
            Command::Move { .. } => CommandName::Move,
        }
    }
}

/// The verb a command value carries.
pub open spec fn spec_name(c: &Command) -> CommandName {
    match c {
        Command::Capability => CommandName::Capability,
        Command::Noop => CommandName::Noop,
        Command::Logout => CommandName::Logout,
        Command::Starttls => CommandName::Starttls,
        Command::Authenticate { .. } => CommandName::Authenticate,
        Command::Login { .. } => CommandName::Login,
        Command::Enable { .. } => CommandName::Enable,
        Command::Select { .. } => CommandName::Select,
        Command::Examine { .. } => CommandName::Examine,
        Command::Create { .. } => CommandName::Create,
        Command::Delete { .. } => CommandName::Delete,
        Command::Rename { .. } => CommandName::Rename,
        Command::Subscribe { .. } => CommandName::Subscribe,
        Command::Unsubscribe { .. } => CommandName::Unsubscribe,
        Command::List { .. } => CommandName::List,
        Command::Namespace => CommandName::Namespace,
        Command::Status { .. } => CommandName::Status,
        Command::Append => CommandName::Append,
        Command::Idle => CommandName::Idle,
        Command::Close => CommandName::Close,
        Command::Unselect => CommandName::Unselect,
        Command::Expunge(_) => CommandName::Expunge,
        Command::Search { .. } => CommandName::Search,
        Command::Fetch(_) => CommandName::Fetch,
        Command::Store { .. } => CommandName::Store,
        Command::Copy { .. } => CommandName::Copy,
        Command::Move { .. } => CommandName::Move,
    }
}

/// A tagged command as read off the wire.
#[derive(Debug)]
pub struct TaggedCommand {
    pub tag: Tag,
    pub command: Command,
}

/// Why a line is not a tagged command: a reportable `BAD`, or bytes
/// that are not UTF-8 (which are skipped silently).
#[derive(Debug)]
pub enum Error {
    Bad(TaggedStatusResponse),
    InvalidUtf8,
}

/// Why a command body did not parse.
#[derive(Debug)]
pub enum ParseError {
    Syntax(&'static str),
    UnrecognizedCommand,
}

// --- the argument grammar, at the specification level ---

/// Skipping spaces and tabs from `pos` on.
pub open spec fn spaces_end(s: Seq<u8>, pos: int) -> int
    recommends
        0 <= pos <= s.len(),
    decreases s.len() - pos,
    when 0 <= pos <= s.len()
{
    if pos < s.len() && (s[pos] == 32 || s[pos] == 9) {
        spaces_end(s, pos + 1)
    } else {
        pos
    }
}

pub proof fn lemma_spaces_end_bounds(s: Seq<u8>, pos: int)
    requires
        0 <= pos <= s.len(),
    ensures
        pos <= spaces_end(s, pos) <= s.len(),
    decreases s.len() - pos,
{
    if pos < s.len() && (s[pos] == 32 || s[pos] == 9) {
        lemma_spaces_end_bounds(s, pos + 1);
    }
}

/// Where a bare word ends: at whitespace or the end.
pub open spec fn bare_end(s: Seq<u8>, pos: int) -> int
    recommends
        0 <= pos <= s.len(),
    decreases s.len() - pos,
    when 0 <= pos <= s.len()
{
    if pos < s.len() && s[pos] != 32 && s[pos] != 9 && s[pos] != 13 && s[pos] != 10 {
        bare_end(s, pos + 1)
    } else {
        pos
    }
}

pub proof fn lemma_bare_end_bounds(s: Seq<u8>, pos: int)
    requires
        0 <= pos <= s.len(),
    ensures
        pos <= bare_end(s, pos) <= s.len(),
    decreases s.len() - pos,
{
    if pos < s.len() && s[pos] != 32 && s[pos] != 9 && s[pos] != 13 && s[pos] != 10 {
        lemma_bare_end_bounds(s, pos + 1);
    }
}

/// A quoted string from just after its opening quote: the unescaped
/// bytes and the position after the closing quote. Backslash escapes a
/// backslash or a quote; anything else after a backslash is an error.
pub open spec fn quoted_at(s: Seq<u8>, pos: int) -> Option<(Seq<u8>, int)>
    recommends
        0 <= pos <= s.len(),
    decreases s.len() - pos,
    when 0 <= pos <= s.len()
{
    if pos >= s.len() {
        None
    } else if s[pos] == 34 {
        Some((Seq::<u8>::empty(), pos + 1))
    } else if s[pos] == 92 {
        if pos + 1 < s.len() && (s[pos + 1] == 92 || s[pos + 1] == 34) {
            match quoted_at(s, pos + 2) {
                Some((v, e)) => Some((seq![s[pos + 1]] + v, e)),
                None => None,
            }
        } else {
            None
        }
    } else {
        match quoted_at(s, pos + 1) {
            Some((v, e)) => Some((seq![s[pos]] + v, e)),
            None => None,
        }
    }
}

pub proof fn lemma_quoted_at_bounds(s: Seq<u8>, pos: int)
    requires
        0 <= pos <= s.len(),
    ensures
        quoted_at(s, pos) matches Some((v, e)) ==> pos < e <= s.len(),
    decreases s.len() - pos,
{
    if pos >= s.len() {
    } else if s[pos] == 34 {
    } else if s[pos] == 92 {
        if pos + 1 < s.len() && (s[pos + 1] == 92 || s[pos + 1] == 34) {
            lemma_quoted_at_bounds(s, pos + 2);
        }
    } else {
        lemma_quoted_at_bounds(s, pos + 1);
    }
}

/// A string argument: optional blanks, then a quoted string or a bare
/// word (falling back to the bare word when the quoted form is
/// broken). Yields the value bytes and the position after them.
pub open spec fn str_arg_at(s: Seq<u8>, pos: int) -> Option<(Seq<u8>, int)>
    recommends
        0 <= pos <= s.len(),
{
    let p = spaces_end(s, pos);
    let bare = if bare_end(s, p) > p {
        Some((s.subrange(p, bare_end(s, p)), bare_end(s, p)))
    } else {
        None
    };
    if p < s.len() && s[p] == 34 {
        match quoted_at(s, p + 1) {
            Some((v, e)) => Some((v, e)),
            None => bare,
        }
    } else {
        bare
    }
}

/// A usable string argument: present and decodable.
pub open spec fn str_arg_ok(s: Seq<u8>, pos: int) -> bool {
    str_arg_at(s, pos) matches Some((v, e)) && valid_utf8(v)
}

/// The value of a string argument, as text.
pub open spec fn str_arg_val(s: Seq<u8>, pos: int) -> Seq<char>
    recommends
        str_arg_ok(s, pos),
{
    decode_utf8(str_arg_at(s, pos).unwrap().0)
}

/// The position after a string argument.
pub open spec fn str_arg_end(s: Seq<u8>, pos: int) -> int
    recommends
        str_arg_at(s, pos) is Some,
{
    str_arg_at(s, pos).unwrap().1
}

// --- what a command line means ---

/// A command at the specification level.
pub enum SpecCmd {
    Capability,
    Noop,
    Logout,
    Starttls,
    Authenticate(Option<Seq<char>>),
    Login(Seq<char>, Seq<char>),
    Enable(Capabilities),
    Select(Seq<char>),
    Examine(Seq<char>),
    Create(Seq<char>),
    Delete(Seq<char>),
    Rename(Seq<char>, Seq<char>),
    Subscribe(Seq<char>),
    Unsubscribe(Seq<char>),
    List(Seq<char>, Seq<char>),
    Namespace,
    Status(Seq<char>, status::Items),
    Append,
    Idle,
    Close,
    Unselect,
    Expunge(bool),
    Search(bool),
    Fetch(bool, Seq<SequenceRange>, ItemsModel),
    Store(bool),
    Copy(bool),
    Move(bool),
}

/// What a command body (after the tag) means: a command, a syntax
/// error with its hint, or nothing recognizable.
pub enum CmdOutcome {
    Unknown,
    SyntaxErr(Seq<char>),
    Cmd(SpecCmd),
}

/// The verb equals `name` up to ASCII case.
pub open spec fn verb_is(v: Seq<u8>, name: &str) -> bool {
    upper_bytes(v) == upper_bytes(encode_utf8(name@))
}

/// Whether `s` begins with the `UID ` prefix, up to case.
pub open spec fn has_uid_prefix(s: Seq<u8>) -> bool {
    s.len() >= 4 && upper_bytes(s.subrange(0, 4)) == upper_bytes(encode_utf8("UID "@))
}

/// The meaning of a command body, split into verb and arguments.
pub open spec fn classify_verb(s: Seq<u8>, is_uid: bool) -> CmdOutcome {
    let sp = first_byte(s, 32, 0);
    let v = match sp {
        Some(i) => s.take(i),
        None => s,
    };
    let args = match sp {
        Some(i) => s.subrange(i + 1, s.len() as int),
        None => Seq::<u8>::empty(),
    };
    if verb_is(v, "EXPUNGE") {
        CmdOutcome::Cmd(SpecCmd::Expunge(is_uid))
    } else if verb_is(v, "SEARCH") {
        CmdOutcome::Cmd(SpecCmd::Search(is_uid))
    } else if verb_is(v, "STORE") {
        CmdOutcome::Cmd(SpecCmd::Store(is_uid))
    } else if verb_is(v, "COPY") {
        CmdOutcome::Cmd(SpecCmd::Copy(is_uid))
    } else if verb_is(v, "MOVE") {
        CmdOutcome::Cmd(SpecCmd::Move(is_uid))
    } else if verb_is(v, "FETCH") {
        classify_fetch(args, is_uid)
    } else if is_uid {
        CmdOutcome::Unknown
    } else if verb_is(v, "CAPABILITY") {
        CmdOutcome::Cmd(SpecCmd::Capability)
    } else if verb_is(v, "NOOP") {
        CmdOutcome::Cmd(SpecCmd::Noop)
    } else if verb_is(v, "LOGOUT") {
        CmdOutcome::Cmd(SpecCmd::Logout)
    } else if verb_is(v, "STARTTLS") {
        CmdOutcome::Cmd(SpecCmd::Starttls)
    } else if verb_is(v, "AUTHENTICATE") {
        classify_authenticate(args)
    } else if verb_is(v, "LOGIN") {
        classify_login(args)
    } else if verb_is(v, "ENABLE") {
        CmdOutcome::Cmd(SpecCmd::Enable(spec_caps(args)))
    } else if verb_is(v, "SELECT") {
        if str_arg_ok(args, 0) {
            CmdOutcome::Cmd(SpecCmd::Select(str_arg_val(args, 0)))
        } else {
            CmdOutcome::SyntaxErr("Syntax: SELECT <mailbox>"@)
        }
    } else if verb_is(v, "EXAMINE") {
        if str_arg_ok(args, 0) {
            CmdOutcome::Cmd(SpecCmd::Examine(str_arg_val(args, 0)))
        } else {
            CmdOutcome::SyntaxErr("Syntax: EXAMINE <mailbox>"@)
        }
    } else if verb_is(v, "CREATE") {
        if str_arg_ok(args, 0) {
            CmdOutcome::Cmd(SpecCmd::Create(str_arg_val(args, 0)))
        } else {
            CmdOutcome::SyntaxErr("Syntax: CREATE <mailbox>"@)
        }
    } else if verb_is(v, "DELETE") {
        if str_arg_ok(args, 0) {
            CmdOutcome::Cmd(SpecCmd::Delete(str_arg_val(args, 0)))
        } else {
            CmdOutcome::SyntaxErr("Syntax: DELETE <mailbox>"@)
        }
    } else if verb_is(v, "RENAME") {
        classify_two(args, "Syntax: RENAME <existing> <new>", true)
    } else if verb_is(v, "SUBSCRIBE") {
        if str_arg_ok(args, 0) {
            CmdOutcome::Cmd(SpecCmd::Subscribe(str_arg_val(args, 0)))
        } else {
            CmdOutcome::SyntaxErr("Syntax: SUBSCRIBE <mailbox>"@)
        }
    } else if verb_is(v, "UNSUBSCRIBE") {
        if str_arg_ok(args, 0) {
            CmdOutcome::Cmd(SpecCmd::Unsubscribe(str_arg_val(args, 0)))
        } else {
            CmdOutcome::SyntaxErr("Syntax: UNSUBSCRIBE <mailbox>"@)
        }
    } else if verb_is(v, "LIST") {
        classify_two(args, "Syntax: LIST <reference> <mailbox>", false)
    } else if verb_is(v, "NAMESPACE") {
        CmdOutcome::Cmd(SpecCmd::Namespace)
    } else if verb_is(v, "STATUS") {
        classify_status(args)
    } else if verb_is(v, "APPEND") {
        CmdOutcome::Cmd(SpecCmd::Append)
    } else if verb_is(v, "IDLE") {
        CmdOutcome::Cmd(SpecCmd::Idle)
    } else if verb_is(v, "CLOSE") {
        CmdOutcome::Cmd(SpecCmd::Close)
    } else if verb_is(v, "UNSELECT") {
        CmdOutcome::Cmd(SpecCmd::Unselect)
    } else {
        CmdOutcome::Unknown
    }
}

/// `AUTHENTICATE <mechanism> [<initial-response>]`.
pub open spec fn classify_authenticate(args: Seq<u8>) -> CmdOutcome {
    if str_arg_at(args, 0) matches Some((m, e)) && valid_utf8(m) && upper_bytes(m) == upper_bytes(
        encode_utf8("PLAIN"@),
    ) {
        let e = str_arg_end(args, 0);
        if str_arg_ok(args, e) {
            CmdOutcome::Cmd(SpecCmd::Authenticate(Some(str_arg_val(args, e))))
        } else {
            CmdOutcome::Cmd(SpecCmd::Authenticate(None))
        }
    } else {
        CmdOutcome::SyntaxErr("Syntax: AUTHENTICATE <mechanism> [<initial-response>]"@)
    }
}

/// `LOGIN <username> <password>`.
pub open spec fn classify_login(args: Seq<u8>) -> CmdOutcome {
    if str_arg_ok(args, 0) {
        let e = str_arg_end(args, 0);
        if str_arg_ok(args, e) {
            CmdOutcome::Cmd(SpecCmd::Login(str_arg_val(args, 0), str_arg_val(args, e)))
        } else {
            CmdOutcome::SyntaxErr("Syntax: LOGIN <username> <password>"@)
        }
    } else {
        CmdOutcome::SyntaxErr("Syntax: LOGIN <username> <password>"@)
    }
}

/// Two string arguments (RENAME and LIST).
pub open spec fn classify_two(args: Seq<u8>, hint: &str, rename: bool) -> CmdOutcome {
    if str_arg_ok(args, 0) {
        let e = str_arg_end(args, 0);
        if str_arg_ok(args, e) {
            if rename {
                CmdOutcome::Cmd(SpecCmd::Rename(str_arg_val(args, 0), str_arg_val(args, e)))
            } else {
                CmdOutcome::Cmd(SpecCmd::List(str_arg_val(args, 0), str_arg_val(args, e)))
            }
        } else {
            CmdOutcome::SyntaxErr(hint@)
        }
    } else {
        CmdOutcome::SyntaxErr(hint@)
    }
}

/// The capability names of an ENABLE: everything after the blanks,
/// split on spaces.
pub open spec fn spec_caps(args: Seq<u8>) -> Capabilities {
    let rest = args.subrange(spaces_end(args, 0), args.len() as int);
    Capabilities {
        imap4: has_token(rest, encode_utf8("IMAP4"@)),
        imap4rev1: has_token(rest, encode_utf8("IMAP4rev1"@)),
        imap4rev2: has_token(rest, encode_utf8("IMAP4rev2"@)),
        starttls: has_token(rest, encode_utf8("STARTTLS"@)),
        auth_plain: has_token(rest, encode_utf8("AUTH=PLAIN"@)),
        logindisabled: has_token(rest, encode_utf8("LOGINDISABLED"@)),
        sasl_ir: has_token(rest, encode_utf8("SASL-IR"@)),
    }
}

/// `STATUS <mailbox> (<item> ...)`.
pub open spec fn classify_status(args: Seq<u8>) -> CmdOutcome {
    if str_arg_ok(args, 0) {
        let e = str_arg_end(args, 0);
        let p = spaces_end(args, e);
        match first_byte(args, 41, p) {
            Some(close) => {
                if p < args.len() && args[p] == 40 {
                    let inner = args.subrange(p + 1, close);
                    CmdOutcome::Cmd(
                        SpecCmd::Status(
                            str_arg_val(args, 0),
                            status::Items {
                                messages: has_token(inner, encode_utf8("MESSAGES"@)),
                                uidnext: has_token(inner, encode_utf8("UIDNEXT"@)),
                                uidvalidity: has_token(inner, encode_utf8("UIDVALIDITY"@)),
                                unseen: has_token(inner, encode_utf8("UNSEEN"@)),
                                deleted: has_token(inner, encode_utf8("DELETED"@)),
                                size: has_token(inner, encode_utf8("SIZE"@)),
                            },
                        ),
                    )
                } else {
                    CmdOutcome::SyntaxErr(status_hint()@)
                }
            },
            None => CmdOutcome::SyntaxErr(status_hint()@),
        }
    } else {
        CmdOutcome::SyntaxErr(status_hint()@)
    }
}

pub open spec fn status_hint() -> &'static str {
    "Syntax: STATUS <mailbox> <status-data-item> [<status-data-item> ...]"
}

pub open spec fn fetch_hint() -> &'static str {
    "Syntax: FETCH <sequence set> <fetch attribute> [<fetch attribute> ...]"
}

/// `FETCH <sequence set> <fetch items>`: the set, at least one blank,
/// then the items.
pub open spec fn classify_fetch(args: Seq<u8>, is_uid: bool) -> CmdOutcome {
    let (ranges, p) = crate::imap::sequence::spec_parse(args);
    if p < args.len() && (args[p] == 32 || args[p] == 9) {
        let q = spaces_end(args, p);
        match items_at(args, q) {
            Some((m, e)) => CmdOutcome::Cmd(SpecCmd::Fetch(is_uid, ranges, m)),
            None => CmdOutcome::SyntaxErr(fetch_hint()@),
        }
    } else {
        CmdOutcome::SyntaxErr(fetch_hint()@)
    }
}

pub proof fn lemma_spec_parse_bounds(s: Seq<u8>)
    ensures
        0 <= crate::imap::sequence::spec_parse(s).1 <= s.len(),
{
    crate::imap::sequence::lemma_element_at_bounds(s, 0);
    match crate::imap::sequence::element_at(s, 0) {
        Some((r, p)) => {
            lemma_more_bounds(s, p);
        },
        None => {
        },
    }
}

proof fn lemma_more_bounds(s: Seq<u8>, pos: int)
    requires
        0 <= pos <= s.len(),
    ensures
        pos <= crate::imap::sequence::more_ranges(s, pos).1 <= s.len(),
    decreases s.len() - pos,
{
    if pos < s.len() && s[pos] == 44 {
        match crate::imap::sequence::element_at(s, pos + 1) {
            Some((r, p2)) => {
                crate::imap::sequence::lemma_element_at_bounds(s, pos + 1);
                lemma_more_bounds(s, p2);
            },
            None => {
            },
        }
    }
}

pub proof fn lemma_str_arg_bounds(s: Seq<u8>, pos: int)
    requires
        0 <= pos <= s.len(),
    ensures
        str_arg_at(s, pos) matches Some((v, e)) ==> pos <= e <= s.len(),
{
    lemma_spaces_end_bounds(s, pos);
    let p = spaces_end(s, pos);
    lemma_bare_end_bounds(s, p);
    if p < s.len() && s[p] == 34 {
        lemma_quoted_at_bounds(s, p + 1);
    }
}

/// The parsed command carries the values its line stands for.
pub open spec fn cmd_matches(c: &Command, m: SpecCmd) -> bool {
    match m {
        SpecCmd::Capability => c is Capability,
        SpecCmd::Noop => c is Noop,
        SpecCmd::Logout => c is Logout,
        SpecCmd::Starttls => c is Starttls,
        SpecCmd::Authenticate(ir) => (c matches Command::Authenticate {
            mechanism,
            initial_response,
        } && mechanism == WhichMechanism::Plain && (match ir {
            Some(x) => initial_response matches Some(s) && s@ == x,
            None => initial_response is None,
        })),
        SpecCmd::Login(u, pw) => (c matches Command::Login { username, password } && username@ == u
            && crate::auth::secret_chars(*password) == pw),
        SpecCmd::Enable(caps) => (c matches Command::Enable { capabilities } && capabilities
            == caps),
        SpecCmd::Select(m1) => (c matches Command::Select { mailbox } && mailbox@ == m1),
        SpecCmd::Examine(m1) => (c matches Command::Examine { mailbox } && mailbox@ == m1),
        SpecCmd::Create(m1) => (c matches Command::Create { mailbox } && mailbox@ == m1),
        SpecCmd::Delete(m1) => (c matches Command::Delete { mailbox } && mailbox@ == m1),
        SpecCmd::Rename(a, b) => (c matches Command::Rename { existing, new_name } && existing@
            == a && new_name@ == b),
        SpecCmd::Subscribe(m1) => (c matches Command::Subscribe { mailbox } && mailbox@ == m1),
        SpecCmd::Unsubscribe(m1) => (c matches Command::Unsubscribe { mailbox } && mailbox@ == m1),
        SpecCmd::List(a, b) => (c matches Command::List { reference, mailbox } && reference@ == a
            && mailbox@ == b),
        SpecCmd::Namespace => c is Namespace,
        SpecCmd::Status(m1, its) => (c matches Command::Status { mailbox, items } && mailbox@ == m1
            && items == its),
        SpecCmd::Append => c is Append,
        SpecCmd::Idle => c is Idle,
        SpecCmd::Close => c is Close,
        SpecCmd::Unselect => c is Unselect,
        SpecCmd::Expunge(u) => (c matches Command::Expunge(e) && e.is_uid == u),
        SpecCmd::Search(u) => (c matches Command::Search { is_uid } && is_uid == u),
        SpecCmd::Fetch(u, ranges, im) => (c matches Command::Fetch(f) && f.is_uid == u
            && f.sequence_set.ranges@ == ranges && items_match(&f.items, im)),
        SpecCmd::Store(u) => (c matches Command::Store { is_uid } && is_uid == u),
        SpecCmd::Copy(u) => (c matches Command::Copy { is_uid } && is_uid == u),
        SpecCmd::Move(u) => (c matches Command::Move { is_uid } && is_uid == u),
    }
}

/// The tag part of a line: everything before the first space.
pub open spec fn tag_bytes_of(line: Seq<u8>) -> Seq<u8> {
    match first_byte(line, 32, 0) {
        Some(i) => line.take(i),
        None => line,
    }
}

/// The command part of a line: everything after the first space.
pub open spec fn body_of(line: Seq<u8>) -> Seq<u8> {
    match first_byte(line, 32, 0) {
        Some(i) => line.subrange(i + 1, line.len() as int),
        None => Seq::<u8>::empty(),
    }
}

/// What a whole tagged line means, `UID ` prefix resolved.
#[verifier::opaque]
pub open spec fn classify_line(line: Seq<u8>) -> CmdOutcome {
    let rest = body_of(line);
    if has_uid_prefix(rest) {
        classify_verb(rest.subrange(4, rest.len() as int), true)
    } else {
        classify_verb(rest, false)
    }
}

/// Skips blanks, executable.
fn skip_spaces(input: &[u8], pos: usize) -> (r: usize)
    requires
        pos <= input@.len(),
    ensures
        r == spaces_end(input@, pos as int),
        spaces_end(input@, r as int) == r,
        pos <= r <= input@.len(),
{
    let n = input.len();
    let mut p = pos;
    while p < n && (input[p] == 32 || input[p] == 9)
        invariant
            pos <= p <= n,
            n == input@.len(),
            spaces_end(input@, pos as int) == spaces_end(input@, p as int),
        decreases n - p,
    {
        p += 1;
    }
    p
}

/// A quoted string starting at `pos`: the unescaped text and the
/// position after the closing quote.
pub fn parse_dquote_str(input: &[u8], pos: usize) -> (r: Option<(String, usize)>)
    requires
        pos <= input@.len(),
    ensures
        match r {
            Some((sv, se)) => pos < input@.len() && input@[pos as int] == 34 && (quoted_at(
                input@,
                pos as int + 1,
            ) matches Some((v, e)) && valid_utf8(v) && sv@ == decode_utf8(v) && se == e),
            None => !(pos < input@.len() && input@[pos as int] == 34 && (quoted_at(
                input@,
                pos as int + 1,
            ) matches Some((v, e)) && valid_utf8(v))),
        },
{
    let n = input.len();
    if !(pos < n && input[pos] == 34) {
        return None;
    }
    let q0 = pos + 1;
    let mut q = q0;
    let mut out: Vec<u8> = Vec::new();
    loop
        invariant
            pos < n,
            q0 == pos + 1,
            q0 <= q <= n,
            n == input@.len(),
            input@[pos as int] == 34,
            ({
                match quoted_at(input@, q as int) {
                    Some((v2, e2)) => quoted_at(input@, q0 as int) == Some((out@ + v2, e2)),
                    None => quoted_at(input@, q0 as int) is None,
                }
            }),
        decreases n - q,
    {
        if q >= n {
            proof {
                assert(quoted_at(input@, q as int) is None);
            }
            return None;
        }
        let b = input[q];
        if b == 34 {
            proof {
                assert(quoted_at(input@, q as int) == Some((Seq::<u8>::empty(), q as int + 1)));
                assert(out@ + Seq::<u8>::empty() =~= out@);
            }
            match crate::text::utf8_to_string(out.as_slice()) {
                Some(sv) => {
                    return Some((sv, q + 1));
                },
                None => {
                    return None;
                },
            }
        } else if b == 92 {
            if q + 1 < n && (input[q + 1] == 92 || input[q + 1] == 34) {
                let ghost o0 = out@;
                out.push(input[q + 1]);
                proof {
                    match quoted_at(input@, q as int + 2) {
                        Some((v3, e3)) => {
                            assert(o0 + (seq![input@[q as int + 1]] + v3) =~= out@ + v3);
                        },
                        None => {
                        },
                    }
                }
                q = q + 2;
            } else {
                proof {
                    assert(quoted_at(input@, q as int) is None);
                }
                return None;
            }
        } else {
            let ghost o0 = out@;
            out.push(b);
            proof {
                match quoted_at(input@, q as int + 1) {
                    Some((v3, e3)) => {
                        assert(o0 + (seq![input@[q as int]] + v3) =~= out@ + v3);
                    },
                    None => {
                    },
                }
            }
            q = q + 1;
        }
    }
}

/// One string argument read off the input: fails when no argument is
/// there or its bytes do not decode.
pub fn parse_str(input: &[u8], pos: usize) -> (r: Option<(String, usize)>)
    requires
        pos <= input@.len(),
    ensures
        match str_arg_at(input@, pos as int) {
            Some((v, e)) => if valid_utf8(v) {
                r matches Some((sv, se)) && sv@ == decode_utf8(v) && se == e
            } else {
                r is None
            },
            None => r is None,
        },
        r matches Some((sv, se)) ==> pos <= se <= input@.len(),
{
    let n = input.len();
    let p = skip_spaces(input, pos);
    if p < n && input[p] == 34 {
        let q0 = p + 1;
        let mut q = q0;
        let mut out: Vec<u8> = Vec::new();
        loop
            invariant
                pos <= p < n,
                q0 == p + 1,
                q0 <= q <= n,
                n == input@.len(),
                p == spaces_end(input@, pos as int),
                spaces_end(input@, p as int) == p,
                input@[p as int] == 34,
                ({
                    match quoted_at(input@, q as int) {
                        Some((v2, e2)) => quoted_at(input@, q0 as int) == Some((out@ + v2, e2)),
                        None => quoted_at(input@, q0 as int) is None,
                    }
                }),
            decreases n - q,
        {
            if q >= n {
                proof {
                    assert(quoted_at(input@, q as int) is None);
                }
                return bare_arg(input, p);
            }
            let b = input[q];
            if b == 34 {
                proof {
                    assert(quoted_at(input@, q as int) == Some(
                        (Seq::<u8>::empty(), q as int + 1),
                    ));
                    assert(out@ + Seq::<u8>::empty() =~= out@);
                }
                match crate::text::utf8_to_string(out.as_slice()) {
                    Some(sv) => {
                        return Some((sv, q + 1));
                    },
                    None => {
                        return None;
                    },
                }
            } else if b == 92 {
                if q + 1 < n && (input[q + 1] == 92 || input[q + 1] == 34) {
                    let ghost o0 = out@;
                    out.push(input[q + 1]);
                    proof {
                        match quoted_at(input@, q as int + 2) {
                            Some((v3, e3)) => {
                                assert(o0 + (seq![input@[q as int + 1]] + v3) =~= out@ + v3);
                            },
                            None => {
                            },
                        }
                    }
                    q = q + 2;
                } else {
                    proof {
                        assert(quoted_at(input@, q as int) is None);
                    }
                    return bare_arg(input, p);
                }
            } else {
                let ghost o0 = out@;
                out.push(b);
                proof {
                    match quoted_at(input@, q as int + 1) {
                        Some((v3, e3)) => {
                            assert(o0 + (seq![input@[q as int]] + v3) =~= out@ + v3);
                        },
                        None => {
                        },
                    }
                }
                q = q + 1;
            }
        }
    } else {
        bare_arg(input, p)
    }
}

/// A bare word at `p` (blanks already skipped).
fn bare_arg(input: &[u8], p: usize) -> (r: Option<(String, usize)>)
    requires
        p <= input@.len(),
        spaces_end(input@, p as int) == p,
    ensures
        ({
            let bare = if bare_end(input@, p as int) > p {
                Some(
                    (
                        input@.subrange(p as int, bare_end(input@, p as int)),
                        bare_end(input@, p as int),
                    ),
                )
            } else {
                Option::<(Seq<u8>, int)>::None
            };
            match bare {
                Some((v, e)) => if valid_utf8(v) {
                    r matches Some((sv, se)) && sv@ == decode_utf8(v) && se == e
                } else {
                    r is None
                },
                None => r is None,
            }
        }),
        r matches Some((sv, se)) ==> p <= se <= input@.len(),
{
    let n = input.len();
    let mut e = p;
    while e < n && input[e] != 32 && input[e] != 9 && input[e] != 13 && input[e] != 10
        invariant
            p <= e <= n,
            n == input@.len(),
            bare_end(input@, p as int) == bare_end(input@, e as int),
        decreases n - e,
    {
        e += 1;
    }
    proof {
        assert(bare_end(input@, e as int) == e);
    }
    if e == p {
        return None;
    }
    let run = vstd::slice::slice_subrange(input, p, e);
    match crate::text::utf8_to_string(run) {
        Some(sv) => Some((sv, e)),
        None => None,
    }
}

impl TaggedCommand {
    /// Parses one tagged line: the tag before the first space, then
    /// the command with its optional `UID ` prefix. An unparsable
    /// command is a reportable `BAD` carrying the client's tag; bytes
    /// that are not UTF-8 are not reportable at all.
    #[verifier::rlimit(100)]
    pub fn parse(line: &[u8]) -> (r: Result<TaggedCommand, Error>)
        ensures
            !valid_utf8(line@) <==> r is Err && r->Err_0 is InvalidUtf8,
            valid_utf8(line@) ==> ({
                let tagb = tag_bytes_of(line@);
                match classify_line(line@) {
                    CmdOutcome::Cmd(c) => r matches Ok(tc) && tc.tag.0@ == decode_utf8(tagb)
                        && cmd_matches(&tc.command, c),
                    CmdOutcome::SyntaxErr(h) => r matches Err(Error::Bad(resp)) && resp.tag.0@
                        == decode_utf8(tagb) && resp.status is Bad && resp.message@ == h,
                    CmdOutcome::Unknown => r matches Err(Error::Bad(resp)) && resp.tag.0@
                        == decode_utf8(tagb) && resp.status is Bad && resp.message@
                        == "Unrecognized command"@,
                }
            }),
    {
        proof {
            reveal(classify_line);
        }
        let llen = line.len();
        if crate::text::utf8_to_string(line).is_none() {
            return Err(Error::InvalidUtf8);
        }
        let sp = crate::text::find_byte(line, 32, 0);
        proof {
            crate::text::lemma_first_byte(line@, 32, 0, sp);
        }
        let (tag_slice, rest): (&[u8], &[u8]) = match sp {
            Some(i) => {
                proof {
                    crate::text::lemma_utf8_ascii_cut(line@, i as int);
                }
                (
                    vstd::slice::slice_subrange(line, 0, i),
                    vstd::slice::slice_subrange(line, i + 1, llen),
                )
            },
            None => {
                let empty_rest = vstd::slice::slice_subrange(line, llen, llen);
                proof {
                    assert(empty_rest@ =~= Seq::<u8>::empty());
                    assert(line@.take(line@.len() as int) =~= line@);
                }
                (line, empty_rest)
            },
        };
        proof {
            assert(tag_slice@ == tag_bytes_of(line@));
            assert(rest@ == body_of(line@));
            assert(valid_utf8(rest@));
        }
        let tag = Tag(crate::text::utf8_to_string(tag_slice).unwrap());
        let rlen = rest.len();
        let (body, is_uid): (&[u8], bool) = if rlen >= 4 && crate::text::bytes_ieq(
            vstd::slice::slice_subrange(rest, 0, 4),
            "UID ".as_bytes(),
        ) {
            proof {
                reveal_strlit("UID ");
                assert(vstd::utf8::is_ascii_chars("UID "@));
                vstd::utf8::is_ascii_chars_encode_utf8("UID "@);
                assert(encode_utf8("UID "@).len() == 4);
                assert(encode_utf8("UID "@)[3] == 32);
                let pre = rest@.subrange(0, 4);
                assert(upper_bytes(pre)[3] == upper_bytes(encode_utf8("UID "@))[3]);
                assert(crate::text::upper_byte(rest@[3]) == crate::text::upper_byte(32));
                assert(rest@[3] == 32);
                crate::text::lemma_utf8_ascii_cut(rest@, 3);
                assert(has_uid_prefix(rest@));
            }
            (vstd::slice::slice_subrange(rest, 4, rlen), true)
        } else {
            (rest, false)
        };
        match Self::parse_command(body, is_uid) {
            Ok(command) => Ok(TaggedCommand { tag, command }),
            Err(ParseError::Syntax(hint)) => {
                Err(Error::Bad(StatusResponse::bad(hint.to_owned()).with_tag(tag)))
            },
            Err(ParseError::UnrecognizedCommand) => {
                Err(
                    Error::Bad(
                        StatusResponse::bad("Unrecognized command".to_owned()).with_tag(tag),
                    ),
                )
            },
        }
    }

    /// Parses the command body, the `UID ` prefix already taken.
    #[verifier::rlimit(100)]
    pub fn parse_command(s: &[u8], is_uid: bool) -> (r: Result<Command, ParseError>)
        requires
            valid_utf8(s@),
        ensures
            match classify_verb(s@, is_uid) {
                CmdOutcome::Cmd(c) => r matches Ok(cmd) && cmd_matches(&cmd, c),
                CmdOutcome::SyntaxErr(h) => r matches Err(ParseError::Syntax(hint)) && hint@ == h,
                CmdOutcome::Unknown => r matches Err(ParseError::UnrecognizedCommand),
            },
    {
        let slen = s.len();
        let sp = crate::text::find_byte(s, 32, 0);
        proof {
            crate::text::lemma_first_byte(s@, 32, 0, sp);
        }
        let (verb, args): (&[u8], &[u8]) = match sp {
            Some(i) => {
                proof {
                    crate::text::lemma_utf8_ascii_cut(s@, i as int);
                }
                (
                    vstd::slice::slice_subrange(s, 0, i),
                    vstd::slice::slice_subrange(s, i + 1, slen),
                )
            },
            None => {
                let empty_args = vstd::slice::slice_subrange(s, slen, slen);
                proof {
                    assert(empty_args@ =~= Seq::<u8>::empty());
                    assert(s@.take(s@.len() as int) =~= s@);
                }
                (s, empty_args)
            },
        };
        proof {
            assert(valid_utf8(args@));
        }
        if crate::text::bytes_ieq(verb, "EXPUNGE".as_bytes()) {
            Ok(Command::Expunge(Expunge { is_uid }))
        } else if crate::text::bytes_ieq(verb, "SEARCH".as_bytes()) {
            Ok(Command::Search { is_uid })
        } else if crate::text::bytes_ieq(verb, "STORE".as_bytes()) {
            Ok(Command::Store { is_uid })
        } else if crate::text::bytes_ieq(verb, "COPY".as_bytes()) {
            Ok(Command::Copy { is_uid })
        } else if crate::text::bytes_ieq(verb, "MOVE".as_bytes()) {
            Ok(Command::Move { is_uid })
        } else if crate::text::bytes_ieq(verb, "FETCH".as_bytes()) {
            Self::parse_fetch(args, is_uid)
        } else if is_uid {
            Err(ParseError::UnrecognizedCommand)
        } else if crate::text::bytes_ieq(verb, "CAPABILITY".as_bytes()) {
            Ok(Command::Capability)
        } else if crate::text::bytes_ieq(verb, "NOOP".as_bytes()) {
            Ok(Command::Noop)
        } else if crate::text::bytes_ieq(verb, "LOGOUT".as_bytes()) {
            Ok(Command::Logout)
        } else if crate::text::bytes_ieq(verb, "STARTTLS".as_bytes()) {
            Ok(Command::Starttls)
        } else if crate::text::bytes_ieq(verb, "AUTHENTICATE".as_bytes()) {
            Self::parse_authenticate(args)
        } else if crate::text::bytes_ieq(verb, "LOGIN".as_bytes()) {
            match parse_str(args, 0) {
                Some((username, e)) => match parse_str(args, e) {
                    Some((password, _)) => Ok(
                        Command::Login { username, password: crate::auth::Password::new(password) },
                    ),
                    None => Err(ParseError::Syntax("Syntax: LOGIN <username> <password>")),
                },
                None => Err(ParseError::Syntax("Syntax: LOGIN <username> <password>")),
            }
        } else if crate::text::bytes_ieq(verb, "ENABLE".as_bytes()) {
            let p = skip_spaces(args, 0);
            let alen = args.len();
            let names = vstd::slice::slice_subrange(args, p, alen);
            Ok(Command::Enable { capabilities: Capabilities::from_names(names) })
        } else if crate::text::bytes_ieq(verb, "SELECT".as_bytes()) {
            match parse_str(args, 0) {
                Some((mailbox, _)) => Ok(Command::Select { mailbox }),
                None => Err(ParseError::Syntax("Syntax: SELECT <mailbox>")),
            }
        } else if crate::text::bytes_ieq(verb, "EXAMINE".as_bytes()) {
            match parse_str(args, 0) {
                Some((mailbox, _)) => Ok(Command::Examine { mailbox }),
                None => Err(ParseError::Syntax("Syntax: EXAMINE <mailbox>")),
            }
        } else if crate::text::bytes_ieq(verb, "CREATE".as_bytes()) {
            match parse_str(args, 0) {
                Some((mailbox, _)) => Ok(Command::Create { mailbox }),
                None => Err(ParseError::Syntax("Syntax: CREATE <mailbox>")),
            }
        } else if crate::text::bytes_ieq(verb, "DELETE".as_bytes()) {
            match parse_str(args, 0) {
                Some((mailbox, _)) => Ok(Command::Delete { mailbox }),
                None => Err(ParseError::Syntax("Syntax: DELETE <mailbox>")),
            }
        } else if crate::text::bytes_ieq(verb, "RENAME".as_bytes()) {
            match parse_str(args, 0) {
                Some((existing, e)) => match parse_str(args, e) {
                    Some((new_name, _)) => Ok(Command::Rename { existing, new_name }),
                    None => Err(ParseError::Syntax("Syntax: RENAME <existing> <new>")),
                },
                None => Err(ParseError::Syntax("Syntax: RENAME <existing> <new>")),
            }
        } else if crate::text::bytes_ieq(verb, "SUBSCRIBE".as_bytes()) {
            match parse_str(args, 0) {
                Some((mailbox, _)) => Ok(Command::Subscribe { mailbox }),
                None => Err(ParseError::Syntax("Syntax: SUBSCRIBE <mailbox>")),
            }
        } else if crate::text::bytes_ieq(verb, "UNSUBSCRIBE".as_bytes()) {
            match parse_str(args, 0) {
                Some((mailbox, _)) => Ok(Command::Unsubscribe { mailbox }),
                None => Err(ParseError::Syntax("Syntax: UNSUBSCRIBE <mailbox>")),
            }
        } else if crate::text::bytes_ieq(verb, "LIST".as_bytes()) {
            match parse_str(args, 0) {
                Some((reference, e)) => match parse_str(args, e) {
                    Some((mailbox, _)) => Ok(Command::List { reference, mailbox }),
                    None => Err(ParseError::Syntax("Syntax: LIST <reference> <mailbox>")),
                },
                None => Err(ParseError::Syntax("Syntax: LIST <reference> <mailbox>")),
            }
        } else if crate::text::bytes_ieq(verb, "NAMESPACE".as_bytes()) {
            Ok(Command::Namespace)
        } else if crate::text::bytes_ieq(verb, "STATUS".as_bytes()) {
            Self::parse_status(args)
        } else if crate::text::bytes_ieq(verb, "APPEND".as_bytes()) {
            Ok(Command::Append)
        } else if crate::text::bytes_ieq(verb, "IDLE".as_bytes()) {
            Ok(Command::Idle)
        } else if crate::text::bytes_ieq(verb, "CLOSE".as_bytes()) {
            Ok(Command::Close)
        } else if crate::text::bytes_ieq(verb, "UNSELECT".as_bytes()) {
            Ok(Command::Unselect)
        } else {
            Err(ParseError::UnrecognizedCommand)
        }
    }

    /// `AUTHENTICATE <mechanism> [<initial-response>]`.
    fn parse_authenticate(args: &[u8]) -> (r: Result<Command, ParseError>)
        requires
            valid_utf8(args@),
        ensures
            match classify_authenticate(args@) {
                CmdOutcome::Cmd(c) => r matches Ok(cmd) && cmd_matches(&cmd, c),
                CmdOutcome::SyntaxErr(h) => r matches Err(ParseError::Syntax(hint)) && hint@ == h,
                CmdOutcome::Unknown => r matches Err(ParseError::UnrecognizedCommand),
            },
    {
        match parse_str(args, 0) {
            Some((m, e)) => {
                if crate::text::bytes_ieq(m.as_str().as_bytes(), "PLAIN".as_bytes()) {
                    proof {
                        lemma_upper_encode_decode(str_arg_at(args@, 0).unwrap().0, m@);
                    }
                    let initial_response = match parse_str(args, e) {
                        Some((ir, _)) => Some(ir),
                        None => None,
                    };
                    Ok(
                        Command::Authenticate {
                            mechanism: WhichMechanism::Plain,
                            initial_response,
                        },
                    )
                } else {
                    proof {
                        lemma_upper_encode_decode(str_arg_at(args@, 0).unwrap().0, m@);
                    }
                    Err(
                        ParseError::Syntax(
                            "Syntax: AUTHENTICATE <mechanism> [<initial-response>]",
                        ),
                    )
                }
            },
            None => Err(
                ParseError::Syntax("Syntax: AUTHENTICATE <mechanism> [<initial-response>]"),
            ),
        }
    }

    /// `STATUS <mailbox> (<item> ...)`.
    fn parse_status(args: &[u8]) -> (r: Result<Command, ParseError>)
        requires
            valid_utf8(args@),
        ensures
            match classify_status(args@) {
                CmdOutcome::Cmd(c) => r matches Ok(cmd) && cmd_matches(&cmd, c),
                CmdOutcome::SyntaxErr(h) => r matches Err(ParseError::Syntax(hint)) && hint@ == h,
                CmdOutcome::Unknown => r matches Err(ParseError::UnrecognizedCommand),
            },
    {
        match parse_str(args, 0) {
            Some((mailbox, e)) => {
                let p = skip_spaces(args, e);
                let alen = args.len();
                match crate::text::find_byte(args, 41, p) {
                    Some(close) => {
                        proof {
                            crate::text::lemma_first_byte(args@, 41, p as int, Some(close));
                        }
                        if p < alen && args[p] == 40 {
                            let inner = vstd::slice::slice_subrange(args, p + 1, close);
                            let items = status::Items::from_names(inner);
                            Ok(Command::Status { mailbox, items })
                        } else {
                            Err(ParseError::Syntax(
                                "Syntax: STATUS <mailbox> <status-data-item> [<status-data-item> ...]",
                            ))
                        }
                    },
                    None => {
                        proof {
                            crate::text::lemma_first_byte(args@, 41, p as int, None);
                        }
                        Err(ParseError::Syntax(
                            "Syntax: STATUS <mailbox> <status-data-item> [<status-data-item> ...]",
                        ))
                    },
                }
            },
            None => Err(
                ParseError::Syntax(
                    "Syntax: STATUS <mailbox> <status-data-item> [<status-data-item> ...]",
                ),
            ),
        }
    }

    /// `FETCH <sequence set> <fetch items>`.
    fn parse_fetch(args: &[u8], is_uid: bool) -> (r: Result<Command, ParseError>)
        requires
            valid_utf8(args@),
        ensures
            match classify_fetch(args@, is_uid) {
                CmdOutcome::Cmd(c) => r matches Ok(cmd) && cmd_matches(&cmd, c),
                CmdOutcome::SyntaxErr(h) => r matches Err(ParseError::Syntax(hint)) && hint@ == h,
                CmdOutcome::Unknown => r matches Err(ParseError::UnrecognizedCommand),
            },
    {
        let (sequence_set, p) = SequenceSet::parse(args);
        let alen = args.len();
        proof {
            lemma_spec_parse_bounds(args@);
        }
        if p < alen && (args[p] == 32 || args[p] == 9) {
            let q = skip_spaces(args, p);
            match fetch::Items::parse(args, q) {
                Some((items, _)) => Ok(Command::Fetch(Fetch { is_uid, sequence_set, items })),
                None => Err(ParseError::Syntax(
                    "Syntax: FETCH <sequence set> <fetch attribute> [<fetch attribute> ...]",
                )),
            }
        } else {
            Err(ParseError::Syntax(
                "Syntax: FETCH <sequence set> <fetch attribute> [<fetch attribute> ...]",
            ))
        }
    }
}

/// An upper-case comparison carries over from value bytes to their
/// decoded text re-encoded: the bytes are the encoding.
proof fn lemma_upper_encode_decode(v: Seq<u8>, c: Seq<char>)
    requires
        valid_utf8(v),
        c == decode_utf8(v),
    ensures
        encode_utf8(c) == v,
{
    vstd::utf8::decode_utf8_encode_utf8(v);
}

} // verus!
