//! SMTP parsing, EHLO formatting and the two body decoders against
//! known wire text.

use brev::smtp::bdat;
use brev::smtp::bdat::{BdatLineAction, BdatReader};
use brev::smtp::command::{Command, Error};
use brev::smtp::data;
use brev::smtp::ehlo::{Auth, Extensions, Response};

fn text(v: Vec<u8>) -> String {
    String::from_utf8(v).unwrap()
}

#[test]
fn mailbox() {
    assert_eq!(
        Command::mailbox(b"TO:<alice@example.com>"),
        Some(String::from("alice@example.com"))
    );
    assert_eq!(
        Command::mailbox("FROM:<g\u{00fc}nter@bahn.de> SMTPUTF8 BODY=8BITMIME".as_bytes()),
        Some(String::from("g\u{00fc}nter@bahn.de"))
    );
}

#[test]
fn command_parse() {
    assert!(matches!(
        Command::parse(b"HELO world"),
        Ok(Command::Helo { domain }) if domain == "world"
    ));
    assert!(matches!(Command::parse(b"QUIT"), Ok(Command::Quit)));
    assert!(matches!(
        Command::parse(b"BDAT 42 LAST"),
        Ok(Command::Bdat { size: 42, last: true })
    ));
    assert!(matches!(
        Command::parse(b"bdat 7"),
        Ok(Command::Bdat { size: 7, last: false })
    ));
    assert!(matches!(Command::parse(b"BDAT x"), Err(Error::Syntax(_))));
    assert!(matches!(
        Command::parse(b"MAIL FROM:alice"),
        Err(Error::Syntax(_))
    ));
    assert!(matches!(
        Command::parse(b"MAIL FROM:<not an email>"),
        Err(Error::Syntax(_))
    ));
    assert!(matches!(
        Command::parse(b"RCPT TO:<carol@example.org>"),
        Ok(Command::Rcpt { to }) if to == "carol@example.org"
    ));
    assert!(matches!(
        Command::parse(b"WHATEVER"),
        Err(Error::UnrecognizedCommand)
    ));
    assert!(matches!(
        Command::parse(b"NOOP \xff"),
        Err(Error::InvalidUtf8)
    ));
    assert!(matches!(
        Command::parse(b"AUTH PLAIN AGJvYgBodW50ZXIy"),
        Ok(Command::Auth { initial_response: Some(_), .. })
    ));
}

#[test]
fn ehlo_fmt() {
    let ehlo = Response {
        domain: String::from("mail.example.com"),
        extensions: Extensions::all(),
        size: Some(1024),
        auth: Auth::all(),
    };
    let out = text(ehlo.to_bytes());
    let lines: Vec<&str> = out.split("\r\n").collect();
    assert_eq!(
        lines,
        [
            "250-mail.example.com",
            "250-8BITMIME",
            "250-SMTPUTF8",
            "250-CHUNKING",
            "250-STARTTLS",
            "250-ENHANCEDSTATUSCODES",
            "250-SIZE 1024",
            "250 AUTH LOGIN PLAIN",
            ""
        ]
    );
}

#[test]
fn ehlo_parse() {
    let ehlo = [
        "250-pio-pvt-msa3.bahnhof.se",
        "250-PIPELINING",
        "250-SIZE 52428800",
        "250-ETRN",
        "250-AUTH PLAIN LOGIN",
        "250-ENHANCEDSTATUSCODES",
        "250-8BITMIME",
        "250-DSN",
        "250-CHUNKING",
        "250 STARTTLS",
        "",
    ]
    .join("\r\n");

    let (parsed, _) = Response::read(ehlo.as_bytes()).unwrap();
    assert_eq!(
        parsed,
        Response {
            domain: String::from("pio-pvt-msa3.bahnhof.se"),
            extensions: Extensions {
                eightbitmime: true,
                smtputf8: false,
                chunking: true,
                starttls: true,
                enhancedstatuscodes: true,
            },
            size: Some(52428800),
            auth: Auth::all(),
        }
    );

    let ehlo = Response {
        domain: String::from("mail.example.com"),
        extensions: Extensions::all(),
        size: None,
        auth: Auth::all(),
    };
    let wire = ehlo.to_bytes();
    let (roundtrip, used) = Response::read(&wire).unwrap();
    assert_eq!(roundtrip, ehlo);
    assert_eq!(used, wire.len());
}

#[test]
fn data() {
    let mut wire: Vec<u8> = Vec::new();
    wire.extend_from_slice(b"We've been trying to reach you\r\n");
    wire.extend_from_slice(b"about your car's extended warranty.\r\n");
    wire.extend_from_slice(b"..\r\n");
    wire.extend_from_slice(b".\r\n");

    let (message, state, used) = data::decode_data(&wire);
    assert!(matches!(state, data::State::Eof));
    assert_eq!(used, wire.len());
    assert_eq!(
        text(message),
        "We've been trying to reach you\r\nabout your car's extended warranty.\r\n.\r\n"
    );
}

#[test]
fn bdat() {
    let mut wire: Vec<u8> = Vec::new();
    wire.extend_from_slice(b"Edel");
    wire.extend_from_slice(b"BDAT 2\r\n");
    wire.extend_from_slice(b"we");
    wire.extend_from_slice(b"BDAT 2 LAST\r\n");
    wire.extend_from_slice(b"i\xDF");

    let (message, replies, used, complete) = bdat::read_bdat(&wire, 4, false);
    assert!(complete);
    assert_eq!(used, wire.len());
    assert_eq!(message, b"Edelwei\xDF");
    assert_eq!(text(replies), "250 ok\r\n250 ok\r\n");
}

#[test]
fn bdat_aborts() {
    let mut wire: Vec<u8> = Vec::new();
    wire.extend_from_slice(b"hi");
    wire.extend_from_slice(b"NOOP\r\n");
    wire.extend_from_slice(b"QUIT\r\n");

    let (message, replies, _, complete) = bdat::read_bdat(&wire, 2, false);
    assert!(!complete);
    assert_eq!(message, b"hi");
    assert_eq!(text(replies), "250 ok\r\n250 ok\r\n221 Bye\r\n");
}

#[test]
fn line_framing() {
    let wire = b"EHLO there
NOOP
";
    let (line, next) = brev::line::take_line(wire, 0).unwrap();
    assert_eq!(line, b"EHLO there".to_vec());
    let (line2, next2) = brev::line::take_line(wire, next).unwrap();
    assert_eq!(line2, b"NOOP".to_vec());
    assert_eq!(next2, wire.len());
    assert!(brev::line::take_line(wire, next2).is_none());
}

#[test]
fn number_limits() {
    assert!(matches!(
        Command::parse(b"BDAT 18446744073709551615"),
        Ok(Command::Bdat { size: u64::MAX, last: false })
    ));
    assert!(matches!(
        Command::parse(b"BDAT 18446744073709551616"),
        Err(Error::Syntax(_))
    ));
}

#[test]
fn bdat_reader_steps() {
    let mut reader = BdatReader::new(4, false);
    let (reply, done) = reader.chunk_done();
    assert!(!done);
    assert_eq!(text(reply), "250 ok\r\n");

    let (reply, action) = reader.next_line(b"NOOP");
    assert_eq!(text(reply), "250 ok\r\n");
    assert!(matches!(action, BdatLineAction::KeepWaiting));

    let (reply, action) = reader.next_line(b"BDAT 2 LAST");
    assert!(reply.is_empty());
    assert!(matches!(action, BdatLineAction::NextChunk));
    assert_eq!(reader.remaining, 2);
    assert!(reader.last);
    let (reply, done) = reader.chunk_done();
    assert!(done);
    assert!(reply.is_empty());

    let mut reader = BdatReader::new(0, false);
    let (reply, action) = reader.next_line(b"QUIT");
    assert_eq!(text(reply), "221 Bye\r\n");
    assert!(matches!(action, BdatLineAction::AbortQuit));
    let (reply, action) = reader.next_line(b"HELO x");
    assert_eq!(text(reply), "503 expected BDAT\r\n");
    assert!(matches!(action, BdatLineAction::KeepWaiting));
    let (_, action) = reader.next_line(b"RSET");
    assert!(matches!(action, BdatLineAction::Abort));
}

#[test]
fn data_partial() {
    let (message, state, used) = data::decode_data(b"no terminator here");
    assert!(!matches!(state, data::State::Eof));
    assert_eq!(used, 18);
    assert_eq!(text(message), "no terminator here");
}
