//! The SMTP command grammar: one line, an ASCII-case-insensitive verb,
//! then verb-specific arguments.

use vstd::prelude::*;

verus! {

use vstd::utf8::decode_utf8;
use vstd::utf8::encode_utf8;
use vstd::utf8::valid_utf8;

use crate::sasl::WhichMechanism;
use crate::text::all_digits;
use crate::text::dec_val;
use crate::text::first_byte;
use crate::text::lemma_first_byte;
use crate::text::lemma_utf8_ascii_cut;
use crate::text::upper_bytes;
use crate::text::utf8_to_string;

/// A parsed SMTP command.
#[derive(Debug, PartialEq, Eq)]
pub enum Command {
    Helo { domain: String },
    Ehlo { domain: String },
    Mail { from: String },
    Rcpt { to: String },
    Rset,
    Data,
    Bdat { size: u64, last: bool },
    Noop,
    Quit,
    Starttls,
    Auth { mechanism: WhichMechanism, initial_response: Option<String> },
}

/// Why a line is not a command. `Syntax` carries the usage hint the
/// server sends back.
#[derive(Debug)]
pub enum Error {
    UnrecognizedCommand,
    Syntax(&'static str),
    InvalidUtf8,
}

/// The verb: everything before the first space, or the whole line.
pub open spec fn verb_of(line: Seq<u8>) -> Seq<u8> {
    match first_byte(line, 32, 0) {
        Some(i) => line.take(i),
        None => line,
    }
}

/// The arguments: everything after the first space, or nothing.
pub open spec fn args_of(line: Seq<u8>) -> Seq<u8> {
    match first_byte(line, 32, 0) {
        Some(i) => line.subrange(i + 1, line.len() as int),
        None => Seq::<u8>::empty(),
    }
}

/// The verb equals `name` up to ASCII case.
pub open spec fn is_verb(line: Seq<u8>, name: &str) -> bool {
    upper_bytes(verb_of(line)) == upper_bytes(encode_utf8(name@))
}

/// Where `<address>` sits in MAIL/RCPT arguments: the first `<`, then
/// the first `>` after it.
pub open spec fn addr_span(args: Seq<u8>) -> Option<(int, int)> {
    match first_byte(args, 60, 0) {
        Some(i) => match first_byte(args, 62, i + 1) {
            Some(j) => Some((i, j)),
            None => None,
        },
        None => None,
    }
}

/// The bytes between the angle brackets.
pub open spec fn addr_bytes(args: Seq<u8>) -> Seq<u8>
    recommends
        addr_span(args) is Some,
{
    let (i, j) = addr_span(args).unwrap();
    args.subrange(i + 1, j)
}

/// The first space-separated token of the arguments.
pub open spec fn token_of(args: Seq<u8>) -> Seq<u8> {
    match first_byte(args, 32, 0) {
        Some(i) => args.take(i),
        None => args,
    }
}

/// What follows the first space-separated token, if anything does.
pub open spec fn rest_of(args: Seq<u8>) -> Option<Seq<u8>> {
    match first_byte(args, 32, 0) {
        Some(i) => Some(args.subrange(i + 1, args.len() as int)),
        None => None,
    }
}

/// A BDAT size token: a decimal number that fits 64 bits.
pub open spec fn bdat_size_ok(t: Seq<u8>) -> bool {
    t.len() > 0 && all_digits(t) && dec_val(t) <= u64::MAX
}

/// The BDAT LAST marker, case-insensitive, as the entire rest.
pub open spec fn bdat_last(args: Seq<u8>) -> bool {
    match rest_of(args) {
        Some(r) => upper_bytes(r) == upper_bytes(encode_utf8("LAST"@)),
        None => false,
    }
}

/// The validity of a mail address, as the address grammar of the
/// `email_address` crate defines it.
pub uninterp spec fn is_email_address(s: Seq<char>) -> bool;

/// Relies on `email_address::EmailAddress::from_str`: it accepts exactly
/// the crate's address grammar and, having only validated, keeps the
/// input string unchanged on success.
#[verifier::external_body]
fn parse_email(s: &str) -> (r: Option<String>)
    ensures
        r is Some <==> is_email_address(s@),
        r is Some ==> r.unwrap()@ == s@,
{
    match <email_address::EmailAddress as core::str::FromStr>::from_str(s) {
        Ok(a) => Some(String::from(a)),
        Err(_) => None,
    }
}

/// A command at the specification level: the values a line stands for.
pub enum SpecCommand {
    Helo(Seq<char>),
    Ehlo(Seq<char>),
    Mail(Seq<char>),
    Rcpt(Seq<char>),
    Rset,
    Data,
    Bdat(nat, bool),
    Noop,
    Quit,
    Starttls,
    Auth(Option<Seq<char>>),
}

/// What one line means: not UTF-8, an unknown verb, a known verb with
/// broken arguments (with the usage hint), or a command.
pub enum LineOutcome {
    Invalid,
    Unknown,
    SyntaxErr(Seq<char>),
    Cmd(SpecCommand),
}

/// The meaning of one SMTP line, the reference for the parser and for
/// the session and body-reader models.
pub open spec fn classify(line: Seq<u8>) -> LineOutcome {
    if !valid_utf8(line) {
        LineOutcome::Invalid
    } else {
        let args = args_of(line);
        if is_verb(line, "HELO") {
            LineOutcome::Cmd(SpecCommand::Helo(decode_utf8(args)))
        } else if is_verb(line, "EHLO") {
            LineOutcome::Cmd(SpecCommand::Ehlo(decode_utf8(args)))
        } else if is_verb(line, "MAIL") {
            if addr_span(args) is Some && is_email_address(decode_utf8(addr_bytes(args))) {
                LineOutcome::Cmd(SpecCommand::Mail(decode_utf8(addr_bytes(args))))
            } else {
                LineOutcome::SyntaxErr("MAIL FROM:<address>"@)
            }
        } else if is_verb(line, "RCPT") {
            if addr_span(args) is Some && is_email_address(decode_utf8(addr_bytes(args))) {
                LineOutcome::Cmd(SpecCommand::Rcpt(decode_utf8(addr_bytes(args))))
            } else {
                LineOutcome::SyntaxErr("RCPT TO:<address>"@)
            }
        } else if is_verb(line, "DATA") {
            LineOutcome::Cmd(SpecCommand::Data)
        } else if is_verb(line, "RSET") {
            LineOutcome::Cmd(SpecCommand::Rset)
        } else if is_verb(line, "NOOP") {
            LineOutcome::Cmd(SpecCommand::Noop)
        } else if is_verb(line, "QUIT") {
            LineOutcome::Cmd(SpecCommand::Quit)
        } else if is_verb(line, "STARTTLS") {
            LineOutcome::Cmd(SpecCommand::Starttls)
        } else if is_verb(line, "BDAT") {
            if bdat_size_ok(token_of(args)) {
                LineOutcome::Cmd(SpecCommand::Bdat(dec_val(token_of(args)), bdat_last(args)))
            } else {
                LineOutcome::SyntaxErr("BDAT <size>"@)
            }
        } else if is_verb(line, "AUTH") {
            if upper_bytes(token_of(args)) == upper_bytes(encode_utf8("PLAIN"@)) {
                LineOutcome::Cmd(SpecCommand::Auth(match rest_of(args) {
                    Some(rest) => Some(decode_utf8(rest)),
                    None => None,
                }))
            } else {
                LineOutcome::SyntaxErr("AUTH <mechanism> [initial-response]"@)
            }
        } else {
            LineOutcome::Unknown
        }
    }
}

/// The parsed command carries the values its line stands for.
pub open spec fn cmd_matches(c: Command, m: SpecCommand) -> bool {
    match m {
        SpecCommand::Helo(d) => (c matches Command::Helo { domain } && domain@ == d),
        SpecCommand::Ehlo(d) => (c matches Command::Ehlo { domain } && domain@ == d),
        SpecCommand::Mail(a) => (c matches Command::Mail { from } && from@ == a),
        SpecCommand::Rcpt(a) => (c matches Command::Rcpt { to } && to@ == a),
        SpecCommand::Rset => c is Rset,
        SpecCommand::Data => c is Data,
        SpecCommand::Bdat(n, l) => (c matches Command::Bdat { size, last } && size == n && last
            == l),
        SpecCommand::Noop => c is Noop,
        SpecCommand::Quit => c is Quit,
        SpecCommand::Starttls => c is Starttls,
        SpecCommand::Auth(ir) => (c matches Command::Auth { mechanism, initial_response }
            && mechanism == WhichMechanism::Plain && (match ir {
            Some(x) => initial_response is Some && initial_response.unwrap()@ == x,
            None => initial_response is None,
        })),
    }
}

/// The parse result reports exactly what the line means.
pub open spec fn parse_matches(r: Result<Command, Error>, o: LineOutcome) -> bool {
    match o {
        LineOutcome::Invalid => r is Err && r->Err_0 is InvalidUtf8,
        LineOutcome::Unknown => r is Err && r->Err_0 is UnrecognizedCommand,
        LineOutcome::SyntaxErr(h) => r is Err && (r->Err_0 matches Error::Syntax(s) && s@ == h),
        LineOutcome::Cmd(c) => r is Ok && cmd_matches(r->Ok_0, c),
    }
}

impl Command {
    /// Parses one line. The whole line must be UTF-8; the verb decides
    /// the variant; MAIL and RCPT take the first `<...>` as the address
    /// and validate it; BDAT takes a decimal size and an optional LAST.
    pub fn parse(line: &[u8]) -> (r: Result<Command, Error>)
        ensures
            parse_matches(r, classify(line@)),
    {
        let llen = line.len();
        if utf8_to_string(line).is_none() {
            return Err(Error::InvalidUtf8);
        }
        let sp = crate::text::find_byte(line, 32, 0);
        proof {
            lemma_first_byte(line@, 32, 0, sp);
        }
        let (verb, args): (&[u8], &[u8]) = match sp {
            Some(i) => {
                proof {
                    lemma_utf8_ascii_cut(line@, i as int);
                }
                (
                    vstd::slice::slice_subrange(line, 0, i),
                    vstd::slice::slice_subrange(line, i + 1, llen),
                )
            },
            None => {
                let empty_args = vstd::slice::slice_subrange(line, llen, llen);
                proof {
                    assert(empty_args@ =~= Seq::<u8>::empty());
                    assert(line@.take(line@.len() as int) =~= line@);
                }
                (line, empty_args)
            },
        };
        proof {
            assert(verb@ == verb_of(line@));
            assert(args@ == args_of(line@));
            assert(valid_utf8(args@));
        }
        if crate::text::bytes_ieq(verb, "HELO".as_bytes()) {
            let domain = utf8_to_string(args).unwrap();
            Ok(Command::Helo { domain })
        } else if crate::text::bytes_ieq(verb, "EHLO".as_bytes()) {
            let domain = utf8_to_string(args).unwrap();
            Ok(Command::Ehlo { domain })
        } else if crate::text::bytes_ieq(verb, "MAIL".as_bytes()) {
            match Self::mailbox(args) {
                Some(from) => Ok(Command::Mail { from }),
                None => Err(Error::Syntax("MAIL FROM:<address>")),
            }
        } else if crate::text::bytes_ieq(verb, "RCPT".as_bytes()) {
            match Self::mailbox(args) {
                Some(to) => Ok(Command::Rcpt { to }),
                None => Err(Error::Syntax("RCPT TO:<address>")),
            }
        } else if crate::text::bytes_ieq(verb, "DATA".as_bytes()) {
            Ok(Command::Data)
        } else if crate::text::bytes_ieq(verb, "RSET".as_bytes()) {
            Ok(Command::Rset)
        } else if crate::text::bytes_ieq(verb, "NOOP".as_bytes()) {
            Ok(Command::Noop)
        } else if crate::text::bytes_ieq(verb, "QUIT".as_bytes()) {
            Ok(Command::Quit)
        } else if crate::text::bytes_ieq(verb, "STARTTLS".as_bytes()) {
            Ok(Command::Starttls)
        } else if crate::text::bytes_ieq(verb, "BDAT".as_bytes()) {
            let alen = args.len();
            let asp = crate::text::find_byte(args, 32, 0);
            proof {
                lemma_first_byte(args@, 32, 0, asp);
            }
            let (token, rest): (&[u8], Option<&[u8]>) = match asp {
                Some(i) => (
                    vstd::slice::slice_subrange(args, 0, i),
                    Some(vstd::slice::slice_subrange(args, i + 1, alen)),
                ),
                None => {
                    proof {
                        assert(args@.take(args@.len() as int) =~= args@);
                    }
                    (args, None)
                },
            };
            match crate::text::parse_u64(token) {
                Some(size) => {
                    let last = match rest {
                        Some(r) => crate::text::bytes_ieq(r, "LAST".as_bytes()),
                        None => false,
                    };
                    Ok(Command::Bdat { size, last })
                },
                None => Err(Error::Syntax("BDAT <size>")),
            }
        } else if crate::text::bytes_ieq(verb, "AUTH".as_bytes()) {
            let alen = args.len();
            let asp = crate::text::find_byte(args, 32, 0);
            proof {
                lemma_first_byte(args@, 32, 0, asp);
            }
            let (token, rest): (&[u8], Option<&[u8]>) = match asp {
                Some(i) => {
                    proof {
                        lemma_utf8_ascii_cut(args@, i as int);
                    }
                    (
                        vstd::slice::slice_subrange(args, 0, i),
                        Some(vstd::slice::slice_subrange(args, i + 1, alen)),
                    )
                },
                None => {
                    proof {
                        assert(args@.take(args@.len() as int) =~= args@);
                    }
                    (args, None)
                },
            };
            match WhichMechanism::parse_name(token) {
                Some(mechanism) => {
                    let initial_response = match rest {
                        Some(r) => Some(utf8_to_string(r).unwrap()),
                        None => None,
                    };
                    Ok(Command::Auth { mechanism, initial_response })
                },
                None => Err(Error::Syntax("AUTH <mechanism> [initial-response]")),
            }
        } else {
            Err(Error::UnrecognizedCommand)
        }
    }

    /// The first `<...>` of the arguments, validated as an address.
    pub fn mailbox(args: &[u8]) -> (r: Option<String>)
        requires
            valid_utf8(args@),
        ensures
            r is Some <==> addr_span(args@) is Some && is_email_address(
                decode_utf8(addr_bytes(args@)),
            ),
            r is Some ==> r.unwrap()@ == decode_utf8(addr_bytes(args@)),
    {
        let alen = args.len();
        let open = match crate::text::find_byte(args, 60, 0) {
            Some(i) => i,
            None => {
                proof {
                    lemma_first_byte(args@, 60, 0, None);
                }
                return None;
            },
        };
        proof {
            lemma_first_byte(args@, 60, 0, Some(open));
        }
        let close = match crate::text::find_byte(args, 62, open + 1) {
            Some(j) => j,
            None => {
                proof {
                    lemma_first_byte(args@, 62, open as int + 1, None);
                }
                return None;
            },
        };
        proof {
            lemma_first_byte(args@, 62, open as int + 1, Some(close));
            lemma_utf8_ascii_cut(args@, close as int);
            let head = args@.subrange(0, close as int);
            lemma_utf8_ascii_cut(head, open as int);
            assert(head.subrange(open as int + 1, head.len() as int) =~= addr_bytes(args@));
        }
        let inner = vstd::slice::slice_subrange(args, open + 1, close);
        let inner_str = utf8_to_string(inner).unwrap();
        parse_email(inner_str.as_str())
    }
}

} // verus!
