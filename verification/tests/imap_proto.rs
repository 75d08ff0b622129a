//! IMAP formatting and parsing against known wire text.

use brev::imap::capability::Capabilities;
use brev::imap::command::{Command, ParseError, TaggedCommand};
use brev::imap::fetch::Items;
use brev::imap::flags::{Flag, Response as FlagsResponse};
use brev::imap::list::{Attributes, ListItem};
use brev::imap::response::{ExistsResponse, Status, TaggedStatusResponse};
use brev::imap::select;
use brev::imap::sequence::SequenceSet;
use brev::imap::status;
use brev::imap::{Tag, Uid};

fn text(v: Vec<u8>) -> String {
    String::from_utf8(v).unwrap()
}

#[test]
fn capability_fmt() {
    assert_eq!(
        text(Capabilities::all().to_bytes()),
        "CAPABILITY IMAP4 IMAP4rev1 IMAP4rev2 STARTTLS AUTH=PLAIN LOGINDISABLED SASL-IR"
    );
}

#[test]
fn from_iter() {
    let listing = Capabilities::all().to_bytes();
    assert_eq!(Capabilities::from_names(&listing), Capabilities::all());
}

#[test]
fn select_fmt() {
    let response = select::Response {
        flags: FlagsResponse(vec![Flag::Seen, Flag::Answered, Flag::Flagged]),
        exists: ExistsResponse(37),
        uid_validity: 3857529045,
        next_uid: Uid(4392),
        mailbox: ListItem::new(String::from("Drafts"), Attributes {
            drafts: true,
            ..Attributes::empty()
        }),
        tag: Tag(String::from("A0016")),
        read_only: false,
    };
    let rendered = text(response.to_bytes());
    let lines: Vec<&str> = rendered.lines().collect();
    assert_eq!(
        lines,
        [
            "* FLAGS (\\Seen \\Answered \\Flagged)",
            "* 37 EXISTS",
            "* OK [UIDVALIDITY 3857529045] UIDs valid",
            "* OK [UIDNEXT 4392] Predicted next UID",
            "* LIST (\\Drafts) NIL \"Drafts\"",
            "A0016 OK [READ-WRITE] Done"
        ]
    );
}

#[test]
fn flags_fmt() {
    assert_eq!(
        text(
            FlagsResponse(vec![
                Flag::Seen,
                Flag::Answered,
                Flag::Flagged,
                Flag::Deleted,
                Flag::Draft,
                Flag::Recent,
                Flag::Forwarded,
            ])
            .to_bytes()
        ),
        "FLAGS (\\Seen \\Answered \\Flagged \\Deleted \\Draft \\Recent $Forwarded)"
    );
}

#[test]
fn response_fmt() {
    assert_eq!(
        text(
            TaggedStatusResponse {
                tag: Tag(String::from("A0001")),
                status: Status::Okay,
                message: String::from("Nice"),
            }
            .to_bytes()
        ),
        "A0001 OK Nice\r\n"
    );
}

#[test]
fn list_item_fmt() {
    assert_eq!(
        text(
            ListItem {
                attributes: Attributes { drafts: true, ..Attributes::empty() },
                name: String::from("Drafts"),
                hierarchy_delimiter: Some('/'),
            }
            .to_bytes()
        ),
        "* LIST (\\Drafts) \"/\" \"Drafts\"\r\n"
    );

    assert_eq!(
        text(
            ListItem {
                attributes: Attributes {
                    noselect: true,
                    noinferiors: true,
                    ..Attributes::empty()
                },
                name: String::from("INBOX"),
                hierarchy_delimiter: None,
            }
            .to_bytes()
        ),
        "* LIST (\\Noinferiors \\Noselect) NIL \"INBOX\"\r\n"
    );
}

#[test]
fn status_fmt() {
    let response = status::Response {
        mailbox: String::from("INBOX"),
        unseen: Some(3),
        deleted: Some(1),
        ..Default::default()
    };
    assert_eq!(text(response.to_bytes()), "STATUS INBOX (3 UNSEEN 1 DELETED)");
}

#[test]
fn dquote() {
    let cases: [(&[u8], &str, usize); 4] = [
        (b"\"Hello\"", "Hello", 7),
        (b"\"Hello World!\" rest", "Hello World!", 14),
        (b"\"dquote \\\"\"", "dquote \"", 11),
        (b"\"backslash \\\\\"", "backslash \\", 14),
    ];
    for (input, value, used) in cases {
        let (parsed, end) = brev::imap::command::parse_dquote_str(input, 0).unwrap();
        assert_eq!(parsed, value);
        assert_eq!(end, used);
    }
}

#[test]
fn str() {
    let (v, e) = brev::imap::command::parse_str(b"Hello World!", 0).unwrap();
    assert_eq!(v, "Hello");
    assert_eq!(e, 5);

    let (v, e) = brev::imap::command::parse_str(b"\"Hello World!\"", 0).unwrap();
    assert_eq!(v, "Hello World!");
    assert_eq!(e, 14);
}

#[test]
fn login() {
    match TaggedCommand::parse_command(b"login alice \"hunter 2\"", false) {
        Ok(Command::Login { username, password }) => {
            assert_eq!(username, "alice");
            assert_eq!(password.expose_secret(), "hunter 2");
        }
        other => panic!("{other:?}"),
    }
}

#[test]
fn impl_gen() {
    match TaggedCommand::parse_command(b"login bob", false) {
        Err(ParseError::Syntax(hint)) => {
            assert_eq!(hint, "Syntax: LOGIN <username> <password>");
        }
        other => panic!("{other:?}"),
    }
    assert!(matches!(
        TaggedCommand::parse_command(b"unrecognizedcommand", false),
        Err(ParseError::UnrecognizedCommand)
    ));
}

#[test]
fn status() {
    match TaggedCommand::parse_command(b"status \"INBOX\" (MESSAGES UNSEEN)", false) {
        Ok(Command::Status { mailbox, items }) => {
            assert_eq!(mailbox, "INBOX");
            assert!(items.messages && items.unseen);
            assert!(!items.uidnext && !items.uidvalidity && !items.deleted && !items.size);
        }
        other => panic!("{other:?}"),
    }
    assert!(matches!(
        TaggedCommand::parse_command(b"status INBOX ()", false),
        Ok(Command::Status { .. })
    ));
}

#[test]
fn parse_arg() {
    let (all, _) = Items::parse(b"ALL", 0).unwrap();
    let (explicit, _) = Items::parse(b"(FLAGS INTERNALDATE RFC822.SIZE ENVELOPE)", 0).unwrap();
    assert_eq!(all.attributes(), explicit.attributes());
}

#[test]
fn sequence_parse() {
    let (set, used) = SequenceSet::parse(b"1:3,5,6:*");
    assert_eq!(used, 9);
    assert_eq!(String::from_utf8(set.to_bytes()).unwrap(), "1:3,5,6:*");
}

#[test]
fn tagged_parse() {
    match TaggedCommand::parse(b"A001 LOGIN alice \"hunter 2\"") {
        Ok(tc) => {
            assert_eq!(tc.tag.0, "A001");
            assert!(matches!(tc.command, Command::Login { .. }));
        }
        other => panic!("{other:?}"),
    }
    match TaggedCommand::parse(b"A002 NONSENSE") {
        Err(brev::imap::command::Error::Bad(resp)) => {
            assert_eq!(resp.tag.0, "A002");
            assert_eq!(
                String::from_utf8(resp.to_bytes()).unwrap(),
                "A002 BAD Unrecognized command\r\n"
            );
        }
        other => panic!("{other:?}"),
    }
}

#[test]
fn uid_fetch_parse() {
    match TaggedCommand::parse(b"A003 UID FETCH 1:3 (FLAGS ENVELOPE)") {
        Ok(tc) => match tc.command {
            Command::Fetch(f) => {
                assert!(f.is_uid);
                assert_eq!(String::from_utf8(f.sequence_set.to_bytes()).unwrap(), "1:3");
                assert_eq!(f.items.attributes().len(), 2);
            }
            other => panic!("{other:?}"),
        },
        other => panic!("{other:?}"),
    }
}
