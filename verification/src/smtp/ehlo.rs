//! The SMTP EHLO response: the multi-line `250` reply advertising the
//! server's domain, its extensions, an optional size limit and its AUTH
//! mechanisms; formatted for the server side and parsed for the client
//! side.

use vstd::prelude::*;

verus! {

use vstd::utf8::decode_utf8;
use vstd::utf8::encode_utf8;
use vstd::utf8::valid_utf8;

use crate::line::crlf;
use crate::line::line_end;
use crate::text::all_digits;
use crate::text::dec_digits;
use crate::text::dec_val;
use crate::text::first_byte;
use crate::text::has_token;
use crate::text::trim_ws;

/// The SMTP extensions this server knows.
#[derive(Debug, Clone, Copy, PartialEq, Eq, Structural)]
pub struct Extensions {
    pub eightbitmime: bool,
    pub smtputf8: bool,
    pub chunking: bool,
    pub starttls: bool,
    pub enhancedstatuscodes: bool,
}

impl Extensions {
    pub fn empty() -> (r: Self)
        ensures
            r == (Extensions {
                eightbitmime: false,
                smtputf8: false,
                chunking: false,
                starttls: false,
                enhancedstatuscodes: false,
            }),
    {
        Extensions {
            eightbitmime: false,
            smtputf8: false,
            chunking: false,
            starttls: false,
            enhancedstatuscodes: false,
        }
    }

    pub fn all() -> (r: Self)
        ensures
            r == (Extensions {
                eightbitmime: true,
                smtputf8: true,
                chunking: true,
                starttls: true,
                enhancedstatuscodes: true,
            }),
    {
        Extensions {
            eightbitmime: true,
            smtputf8: true,
            chunking: true,
            starttls: true,
            enhancedstatuscodes: true,
        }
    }
}

/// The AUTH mechanisms advertised.
#[derive(Debug, Clone, Copy, PartialEq, Eq, Structural)]
pub struct Auth {
    pub login: bool,
    pub plain: bool,
}

impl Auth {
    pub fn empty() -> (r: Self)
        ensures
            r == (Auth { login: false, plain: false }),
    {
        Auth { login: false, plain: false }
    }

    pub fn all() -> (r: Self)
        ensures
            r == (Auth { login: true, plain: true }),
    {
        Auth { login: true, plain: true }
    }
}

/// An EHLO response.
#[derive(Debug, PartialEq, Eq)]
pub struct Response {
    /// Domain name of the server.
    pub domain: String,
    /// SMTP extensions advertised.
    pub extensions: Extensions,
    /// Maximum message size in bytes, when a limit is advertised.
    pub size: Option<u64>,
    /// AUTH mechanisms supported.
    pub auth: Auth,
}

/// The body of the AUTH line: `AUTH`, then one name per mechanism.
pub open spec fn auth_line(auth: Auth) -> Seq<u8> {
    encode_utf8("AUTH"@) + (if auth.login {
        encode_utf8(" LOGIN"@)
    } else {
        Seq::<u8>::empty()
    }) + (if auth.plain {
        encode_utf8(" PLAIN"@)
    } else {
        Seq::<u8>::empty()
    })
}

/// The bodies of the reply lines after the domain line, in order:
/// the extensions present, the size limit if any, then the AUTH line.
pub open spec fn ehlo_lines(r: &Response) -> Seq<Seq<u8>> {
    (if r.extensions.eightbitmime {
        seq![encode_utf8("8BITMIME"@)]
    } else {
        Seq::<Seq<u8>>::empty()
    }) + (if r.extensions.smtputf8 {
        seq![encode_utf8("SMTPUTF8"@)]
    } else {
        Seq::<Seq<u8>>::empty()
    }) + (if r.extensions.chunking {
        seq![encode_utf8("CHUNKING"@)]
    } else {
        Seq::<Seq<u8>>::empty()
    }) + (if r.extensions.starttls {
        seq![encode_utf8("STARTTLS"@)]
    } else {
        Seq::<Seq<u8>>::empty()
    }) + (if r.extensions.enhancedstatuscodes {
        seq![encode_utf8("ENHANCEDSTATUSCODES"@)]
    } else {
        Seq::<Seq<u8>>::empty()
    }) + (match r.size {
        Some(n) => seq![encode_utf8("SIZE "@) + dec_digits(n as nat)],
        None => Seq::<Seq<u8>>::empty(),
    }) + seq![auth_line(r.auth)]
}

/// The wire form of a list of line bodies: every line but the last is
/// `250-`, the last is `250 `.
pub open spec fn fmt_lines(lines: Seq<Seq<u8>>) -> Seq<u8>
    decreases lines.len(),
{
    if lines.len() == 0 {
        Seq::<u8>::empty()
    } else if lines.len() == 1 {
        encode_utf8("250 "@) + lines[0] + crlf()
    } else {
        encode_utf8("250-"@) + lines[0] + crlf() + fmt_lines(lines.drop_first())
    }
}

/// The whole response on the wire: the domain line, then the rest.
pub open spec fn spec_fmt(r: &Response) -> Seq<u8> {
    encode_utf8("250-"@) + encode_utf8(r.domain@) + crlf() + fmt_lines(ehlo_lines(r))
}

impl Response {
    /// The reply line bodies after the domain line, as bytes.
    #[verifier::rlimit(60)]
    fn line_bodies(&self) -> (r: Vec<Vec<u8>>)
        ensures
            r@.map_values(|l: Vec<u8>| l@) == ehlo_lines(self),
    {
        let ghost e1 = if self.extensions.eightbitmime {
            seq![encode_utf8("8BITMIME"@)]
        } else {
            Seq::<Seq<u8>>::empty()
        };
        let ghost e2 = e1 + if self.extensions.smtputf8 {
            seq![encode_utf8("SMTPUTF8"@)]
        } else {
            Seq::<Seq<u8>>::empty()
        };
        let ghost e3 = e2 + if self.extensions.chunking {
            seq![encode_utf8("CHUNKING"@)]
        } else {
            Seq::<Seq<u8>>::empty()
        };
        let ghost e4 = e3 + if self.extensions.starttls {
            seq![encode_utf8("STARTTLS"@)]
        } else {
            Seq::<Seq<u8>>::empty()
        };
        let ghost e5 = e4 + if self.extensions.enhancedstatuscodes {
            seq![encode_utf8("ENHANCEDSTATUSCODES"@)]
        } else {
            Seq::<Seq<u8>>::empty()
        };
        let ghost e6 = e5 + match self.size {
            Some(n) => seq![encode_utf8("SIZE "@) + dec_digits(n as nat)],
            None => Seq::<Seq<u8>>::empty(),
        };
        let mut lines: Vec<Vec<u8>> = Vec::new();
        if self.extensions.eightbitmime {
            let mut l: Vec<u8> = Vec::new();
            crate::text::push_str_bytes(&mut l, "8BITMIME");
            lines.push(l);
        }
        proof {
            assert(lines@.map_values(|l: Vec<u8>| l@) =~= e1);
        }
        if self.extensions.smtputf8 {
            let mut l: Vec<u8> = Vec::new();
            crate::text::push_str_bytes(&mut l, "SMTPUTF8");
            lines.push(l);
        }
        proof {
            assert(lines@.map_values(|l: Vec<u8>| l@) =~= e2);
        }
        if self.extensions.chunking {
            let mut l: Vec<u8> = Vec::new();
            crate::text::push_str_bytes(&mut l, "CHUNKING");
            lines.push(l);
        }
        proof {
            assert(lines@.map_values(|l: Vec<u8>| l@) =~= e3);
        }
        if self.extensions.starttls {
            let mut l: Vec<u8> = Vec::new();
            crate::text::push_str_bytes(&mut l, "STARTTLS");
            lines.push(l);
        }
        proof {
            assert(lines@.map_values(|l: Vec<u8>| l@) =~= e4);
        }
        if self.extensions.enhancedstatuscodes {
            let mut l: Vec<u8> = Vec::new();
            crate::text::push_str_bytes(&mut l, "ENHANCEDSTATUSCODES");
            lines.push(l);
        }
        proof {
            assert(lines@.map_values(|l: Vec<u8>| l@) =~= e5);
        }
        match self.size {
            Some(n) => {
                let mut l: Vec<u8> = Vec::new();
                crate::text::push_str_bytes(&mut l, "SIZE ");
                crate::text::push_dec_u64(&mut l, n);
                lines.push(l);
            },
            None => {
            },
        }
        proof {
            assert(lines@.map_values(|l: Vec<u8>| l@) =~= e6);
        }
        let mut al: Vec<u8> = Vec::new();
        crate::text::push_str_bytes(&mut al, "AUTH");
        if self.auth.login {
            crate::text::push_str_bytes(&mut al, " LOGIN");
        }
        proof {
            assert(al@ =~= encode_utf8("AUTH"@) + (if self.auth.login {
                encode_utf8(" LOGIN"@)
            } else {
                Seq::<u8>::empty()
            }));
        }
        if self.auth.plain {
            crate::text::push_str_bytes(&mut al, " PLAIN");
        }
        proof {
            assert(al@ =~= auth_line(self.auth));
        }
        lines.push(al);
        proof {
            assert(lines@.map_values(|l: Vec<u8>| l@) =~= ehlo_lines(self));
        }
        lines
    }

    /// Formats the response for the wire.
    #[verifier::rlimit(60)]
    pub fn to_bytes(&self) -> (out: Vec<u8>)
        ensures
            out@ == spec_fmt(self),
    {
        let lines = self.line_bodies();
        let mut out: Vec<u8> = Vec::new();
        crate::text::push_str_bytes(&mut out, "250-");
        crate::text::push_str_bytes(&mut out, self.domain.as_str());
        out.push(13);
        out.push(10);
        proof {
            assert(out@ =~= encode_utf8("250-"@) + encode_utf8(self.domain@) + crlf());
        }
        let ghost head = out@;
        let n = lines.len();
        let mut i: usize = 0;
        while i < n
            invariant
                0 <= i <= n,
                n == lines@.len(),
                lines@.map_values(|l: Vec<u8>| l@) =~= ehlo_lines(self),
                out@ == head + fmt_lines_upto(ehlo_lines(self), i as int),
            decreases n - i,
        {
            if i + 1 < n {
                crate::text::push_str_bytes(&mut out, "250-");
            } else {
                crate::text::push_str_bytes(&mut out, "250 ");
            }
            let line = &lines[i];
            out.extend_from_slice(line.as_slice());
            out.push(13);
            out.push(10);
            proof {
                lemma_fmt_lines_upto(ehlo_lines(self), i as int);
                assert(ehlo_lines(self)[i as int] == lines@.map_values(|l: Vec<u8>| l@)[i as int]);
                assert(out@ =~= head + fmt_lines_upto(ehlo_lines(self), i + 1));
            }
            i += 1;
        }
        proof {
            lemma_fmt_lines_upto_all(ehlo_lines(self));
        }
        out
    }
}

/// What formatting the first `i` of the lines produces.
pub open spec fn fmt_lines_upto(lines: Seq<Seq<u8>>, i: int) -> Seq<u8>
    recommends
        0 <= i <= lines.len(),
    decreases i,
{
    if i <= 0 {
        Seq::<u8>::empty()
    } else {
        fmt_lines_upto(lines, i - 1) + (if i == lines.len() {
            encode_utf8("250 "@)
        } else {
            encode_utf8("250-"@)
        }) + lines[i - 1] + crlf()
    }
}

proof fn lemma_fmt_lines_upto(lines: Seq<Seq<u8>>, i: int)
    requires
        0 <= i < lines.len(),
    ensures
        fmt_lines_upto(lines, i + 1) == fmt_lines_upto(lines, i) + (if i + 1 == lines.len() {
            encode_utf8("250 "@)
        } else {
            encode_utf8("250-"@)
        }) + lines[i] + crlf(),
{
}

/// Formatting all lines one at a time equals the recursive wire form.
proof fn lemma_fmt_lines_upto_all(lines: Seq<Seq<u8>>)
    ensures
        fmt_lines_upto(lines, lines.len() as int) == fmt_lines(lines),
    decreases lines.len(),
{
    if lines.len() == 0 {
    } else {
        lemma_fmt_lines_upto_all(lines.drop_first());
        lemma_fmt_lines_shift(lines, lines.len() as int);
    }
}

/// The iterative and recursive formulations line up at every prefix.
proof fn lemma_fmt_lines_shift(lines: Seq<Seq<u8>>, i: int)
    requires
        lines.len() > 0,
        1 <= i <= lines.len(),
    ensures
        fmt_lines_upto(lines, i) == (if lines.len() == 1 {
            encode_utf8("250 "@)
        } else {
            encode_utf8("250-"@)
        }) + lines[0] + crlf() + fmt_lines_upto(lines.drop_first(), i - 1),
    decreases i,
{
    let d = lines.drop_first();
    if i == 1 {
        assert(fmt_lines_upto(d, 0) == Seq::<u8>::empty());
        assert(fmt_lines_upto(lines, 1) == fmt_lines_upto(lines, 0) + (if 1 == lines.len() {
            encode_utf8("250 "@)
        } else {
            encode_utf8("250-"@)
        }) + lines[0] + crlf());
        assert(fmt_lines_upto(lines, 1) =~= (if lines.len() == 1 {
            encode_utf8("250 "@)
        } else {
            encode_utf8("250-"@)
        }) + lines[0] + crlf() + fmt_lines_upto(d, 0));
    } else {
        lemma_fmt_lines_shift(lines, i - 1);
        assert(d[i - 2] == lines[i - 1]);
        assert(d.len() == lines.len() - 1);
        let head = (if lines.len() == 1 {
            encode_utf8("250 "@)
        } else {
            encode_utf8("250-"@)
        }) + lines[0] + crlf();
        let mid = (if i == lines.len() {
            encode_utf8("250 "@)
        } else {
            encode_utf8("250-"@)
        });
        assert(fmt_lines_upto(lines, i) == fmt_lines_upto(lines, i - 1) + mid + lines[i - 1]
            + crlf());
        assert(fmt_lines_upto(d, i - 1) == fmt_lines_upto(d, i - 2) + mid + d[i - 2] + crlf());
        assert((head + fmt_lines_upto(d, i - 2)) + mid + lines[i - 1] + crlf() =~= head
            + (fmt_lines_upto(d, i - 2) + mid + d[i - 2] + crlf()));
    }
}

/// Why an EHLO response did not parse.
#[derive(Debug, Clone, Copy, PartialEq, Eq, Structural)]
pub enum ParseError {
    Syntax,
}

/// A parsed response at the specification level.
pub struct EhloModel {
    pub domain: Seq<char>,
    pub extensions: Extensions,
    pub size: Option<u64>,
    pub auth: Auth,
}

/// Applying one continuation-line body to the model: known extension
/// keywords set their bit, `SIZE` must carry a number, `AUTH` collects
/// mechanism names, anything else is ignored.
pub open spec fn apply_keyword(ext: Extensions, size: Option<u64>, auth: Auth, content: Seq<u8>) -> Option<(Extensions, Option<u64>, Auth)> {
    let kw = match first_byte(content, 32, 0) {
        Some(i) => content.take(i),
        None => content,
    };
    let args = match first_byte(content, 32, 0) {
        Some(i) => content.subrange(i + 1, content.len() as int),
        None => Seq::<u8>::empty(),
    };
    if kw == encode_utf8("8BITMIME"@) {
        Some((Extensions { eightbitmime: true, ..ext }, size, auth))
    } else if kw == encode_utf8("SMTPUTF8"@) {
        Some((Extensions { smtputf8: true, ..ext }, size, auth))
    } else if kw == encode_utf8("CHUNKING"@) {
        Some((Extensions { chunking: true, ..ext }, size, auth))
    } else if kw == encode_utf8("STARTTLS"@) {
        Some((Extensions { starttls: true, ..ext }, size, auth))
    } else if kw == encode_utf8("ENHANCEDSTATUSCODES"@) {
        Some((Extensions { enhancedstatuscodes: true, ..ext }, size, auth))
    } else if kw == encode_utf8("SIZE"@) {
        if args.len() > 0 && all_digits(args) && dec_val(args) <= u64::MAX {
            Some((ext, Some(dec_val(args) as u64), auth))
        } else {
            None
        }
    } else if kw == encode_utf8("AUTH"@) {
        Some(
            (
                ext,
                size,
                Auth {
                    login: has_token(args, encode_utf8("LOGIN"@)),
                    plain: has_token(args, encode_utf8("PLAIN"@)),
                },
            ),
        )
    } else {
        Some((ext, size, auth))
    }
}

/// Keyword handling, executable; `false` reports a syntax error.
#[verifier::rlimit(100)]
fn apply_keyword_line(
    extensions: &mut Extensions,
    size: &mut Option<u64>,
    auth: &mut Auth,
    content: &[u8],
) -> (ok: bool)
    ensures
        match apply_keyword(*old(extensions), *old(size), *old(auth), content@) {
            Some((e2, s2, a2)) => ok && *final(extensions) == e2 && *final(size) == s2
                && *final(auth) == a2,
            None => !ok,
        },
{
    let clen = content.len();
    let csp = crate::text::find_byte(content, 32, 0);
    proof {
        crate::text::lemma_first_byte(content@, 32, 0, csp);
    }
    let (kw, kargs): (&[u8], &[u8]) = match csp {
        Some(i) => {
            proof {
                assert(content@.subrange(0, i as int) =~= content@.take(i as int));
            }
            (
                vstd::slice::slice_subrange(content, 0, i),
                vstd::slice::slice_subrange(content, i + 1, clen),
            )
        },
        None => {
            let e = vstd::slice::slice_subrange(content, clen, clen);
            proof {
                assert(e@ =~= Seq::<u8>::empty());
                assert(content@.take(content@.len() as int) =~= content@);
            }
            (content, e)
        },
    };
    if crate::text::bytes_eq(kw, "8BITMIME".as_bytes()) {
        extensions.eightbitmime = true;
    } else if crate::text::bytes_eq(kw, "SMTPUTF8".as_bytes()) {
        extensions.smtputf8 = true;
    } else if crate::text::bytes_eq(kw, "CHUNKING".as_bytes()) {
        extensions.chunking = true;
    } else if crate::text::bytes_eq(kw, "STARTTLS".as_bytes()) {
        extensions.starttls = true;
    } else if crate::text::bytes_eq(kw, "ENHANCEDSTATUSCODES".as_bytes()) {
        extensions.enhancedstatuscodes = true;
    } else if crate::text::bytes_eq(kw, "SIZE".as_bytes()) {
        match crate::text::parse_u64(kargs) {
            Some(v) => {
                *size = Some(v);
            },
            None => {
                return false;
            },
        }
    } else if crate::text::bytes_eq(kw, "AUTH".as_bytes()) {
        *auth = Auth {
            login: crate::text::has_token_bytes(kargs, "LOGIN".as_bytes()),
            plain: crate::text::has_token_bytes(kargs, "PLAIN".as_bytes()),
        };
    }
    true
}

/// Parsing a response from `pos` on: each raw line must have at least
/// five bytes; its fourth byte is `-` for a continuation line or a
/// space for the final line; the rest, trimmed of trailing whitespace,
/// is the domain on the first line and a keyword line after that.
pub open spec fn parse_model(input: Seq<u8>, pos: int, first: bool, m: EhloModel) -> Option<
    (EhloModel, int),
>
    recommends
        0 <= pos <= input.len(),
    decreases input.len() - pos,
    when 0 <= pos <= input.len()
{
    if pos >= input.len() {
        None
    } else {
        let end = line_end(input, pos);
        proof {
            crate::line::lemma_line_end_bounds(input, pos);
        }
        let raw = input.subrange(pos, end);
        if raw.len() < 5 {
            None
        } else if raw[3] != 45 && raw[3] != 32 {
            None
        } else {
            let content = trim_ws(raw.subrange(4, raw.len() as int));
            if !valid_utf8(content) {
                None
            } else {
                let m2 = if first {
                    Some(EhloModel { domain: decode_utf8(content), ..m })
                } else {
                    match apply_keyword(m.extensions, m.size, m.auth, content) {
                        Some((e2, s2, a2)) => Some(
                            EhloModel { domain: m.domain, extensions: e2, size: s2, auth: a2 },
                        ),
                        None => None,
                    }
                };
                match m2 {
                    None => None,
                    Some(m2) => if raw[3] == 45 {
                        parse_model(input, end, false, m2)
                    } else {
                        Some((m2, end))
                    },
                }
            }
        }
    }
}

/// The model a parse starts from.
pub open spec fn init_model() -> EhloModel {
    EhloModel {
        domain: Seq::<char>::empty(),
        extensions: Extensions {
            eightbitmime: false,
            smtputf8: false,
            chunking: false,
            starttls: false,
            enhancedstatuscodes: false,
        },
        size: None,
        auth: Auth { login: false, plain: false },
    }
}

/// The parsed response carries the model's values.
pub open spec fn response_matches(r: &Response, m: EhloModel) -> bool {
    &&& r.domain@ == m.domain
    &&& r.extensions == m.extensions
    &&& r.size == m.size
    &&& r.auth == m.auth
}

impl Response {
    /// Parses an EHLO response from a buffer: the response and how many
    /// bytes of the buffer it covered, or a syntax error.
    pub fn read(input: &[u8]) -> (r: Result<(Response, usize), ParseError>)
        ensures
            match parse_model(input@, 0, true, init_model()) {
                Some((m, used)) => r is Ok && response_matches(&r.unwrap().0, m)
                    && r.unwrap().1 == used,
                None => r is Err,
            },
    {
        let n = input.len();
        let mut pos: usize = 0;
        let mut domain: Option<String> = None;
        let mut extensions = Extensions::empty();
        let mut size: Option<u64> = None;
        let mut auth = Auth::empty();
        loop
            invariant
                0 <= pos <= n,
                n == input@.len(),
                ({
                    let m = EhloModel {
                        domain: match &domain {
                            Some(d) => d@,
                            None => Seq::<char>::empty(),
                        },
                        extensions: extensions,
                        size: size,
                        auth: auth,
                    };
                    parse_model(input@, 0, true, init_model()) == parse_model(
                        input@,
                        pos as int,
                        domain is None,
                        m,
                    )
                }),
            decreases n - pos,
        {
            match read_one_line(input, pos, &mut domain, &mut extensions, &mut size, &mut auth) {
                Err(e) => {
                    return Err(e);
                },
                Ok((next, true)) => {
                    pos = next;
                },
                Ok((next, false)) => {
                    let out = Response {
                        domain: match domain {
                            Some(d) => d,
                            None => {
                                return Err(ParseError::Syntax);
                            },
                        },
                        extensions,
                        size,
                        auth,
                    };
                    return Ok((out, next));
                },
            }
        }
    }
}

/// Handles one reply line: advances the accumulated response and says
/// whether a continuation line follows.
#[verifier::rlimit(100)]
fn read_one_line(
    input: &[u8],
    pos: usize,
    domain: &mut Option<String>,
    extensions: &mut Extensions,
    size: &mut Option<u64>,
    auth: &mut Auth,
) -> (r: Result<(usize, bool), ParseError>)
    requires
        pos <= input@.len(),
    ensures
        ({
            let m0 = EhloModel {
                domain: match *old(domain) {
                    Some(d) => d@,
                    None => Seq::<char>::empty(),
                },
                extensions: *old(extensions),
                size: *old(size),
                auth: *old(auth),
            };
            let m1 = EhloModel {
                domain: match *final(domain) {
                    Some(d) => d@,
                    None => Seq::<char>::empty(),
                },
                extensions: *final(extensions),
                size: *final(size),
                auth: *final(auth),
            };
            match r {
                Err(_) => parse_model(input@, pos as int, (*old(domain)) is None, m0) is None,
                Ok((next, cont)) => {
                    &&& pos < next <= input@.len()
                    &&& (*final(domain)) is Some
                    &&& (cont ==> parse_model(input@, pos as int, (*old(domain)) is None, m0)
                        == parse_model(input@, next as int, (*final(domain)) is None, m1))
                    &&& (!cont ==> parse_model(input@, pos as int, (*old(domain)) is None, m0)
                        == Some((m1, next as int)))
                    &&& ((*final(domain)) is None ==> (*old(domain)) is None)
                },
            }
        }),
{
    let n = input.len();
    if pos >= n {
        return Err(ParseError::Syntax);
    }
    let fb = crate::text::find_byte(input, 10, pos);
    let end = match fb {
        Some(i) => i + 1,
        None => n,
    };
    proof {
        assert(end == line_end(input@, pos as int)) by {
            if exists|i: int| pos <= i < input@.len() && input@[i] == 10 {
                let w = choose|i: int|
                    pos <= i < input@.len() && input@[i] == 10 && forall|j: int|
                        pos <= j < i ==> input@[j] != 10;
                assert(input@[w] == 10);
            }
        }
    }
    let ghost raw = input@.subrange(pos as int, end as int);
    if end - pos < 5 {
        return Err(ParseError::Syntax);
    }
    let b3 = input[pos + 3];
    proof {
        assert(raw[3] == b3);
    }
    if b3 != 45 && b3 != 32 {
        return Err(ParseError::Syntax);
    }
    let mut content: Vec<u8> = Vec::new();
    let mut i: usize = pos + 4;
    while i < end
        invariant
            pos + 4 <= i <= end <= n,
            n == input@.len(),
            content@ =~= input@.subrange(pos + 4, i as int),
        decreases end - i,
    {
        content.push(input[i]);
        proof {
            assert(content@ =~= input@.subrange(pos + 4, i + 1));
        }
        i += 1;
    }
    proof {
        assert(raw.subrange(4, raw.len() as int) =~= content@);
    }
    crate::text::trim_ws_ending(&mut content);
    let content_str = match crate::text::utf8_to_string(content.as_slice()) {
        Some(cs) => cs,
        None => {
            return Err(ParseError::Syntax);
        },
    };
    if domain.is_none() {
        *domain = Some(content_str);
    } else {
        let ok = apply_keyword_line(extensions, size, auth, content.as_slice());
        if !ok {
            return Err(ParseError::Syntax);
        }
    }
    Ok((end, b3 == 45))
}

/// After revealing a literal, its encoding is its characters, byte for
/// byte.
proof fn ascii_bytes(c: Seq<char>)
    requires
        vstd::utf8::is_ascii_chars(c),
    ensures
        encode_utf8(c).len() == c.len(),
        forall|i: int|
            #![trigger encode_utf8(c)[i]]
            0 <= i < c.len() ==> encode_utf8(c)[i] == c[i] as u8,
{
    vstd::utf8::is_ascii_chars_encode_utf8(c);
}

/// The formatter's extension keywords mean exactly their extension to
/// the parser: each keyword line sets its own bit and nothing else.
pub proof fn lemma_ehlo_keyword_extensions(ext: Extensions, size: Option<u64>, auth: Auth)
    ensures
        apply_keyword(ext, size, auth, encode_utf8("8BITMIME"@)) == Some(
            ((Extensions { eightbitmime: true, ..ext }), size, auth),
        ),
        apply_keyword(ext, size, auth, encode_utf8("SMTPUTF8"@)) == Some(
            ((Extensions { smtputf8: true, ..ext }), size, auth),
        ),
        apply_keyword(ext, size, auth, encode_utf8("CHUNKING"@)) == Some(
            ((Extensions { chunking: true, ..ext }), size, auth),
        ),
        apply_keyword(ext, size, auth, encode_utf8("STARTTLS"@)) == Some(
            ((Extensions { starttls: true, ..ext }), size, auth),
        ),
        apply_keyword(ext, size, auth, encode_utf8("ENHANCEDSTATUSCODES"@)) == Some(
            ((Extensions { enhancedstatuscodes: true, ..ext }), size, auth),
        ),
{
    reveal_strlit("8BITMIME");
    reveal_strlit("SMTPUTF8");
    reveal_strlit("CHUNKING");
    reveal_strlit("STARTTLS");
    reveal_strlit("ENHANCEDSTATUSCODES");
    assert(vstd::utf8::is_ascii_chars("8BITMIME"@));
    assert(vstd::utf8::is_ascii_chars("SMTPUTF8"@));
    assert(vstd::utf8::is_ascii_chars("CHUNKING"@));
    assert(vstd::utf8::is_ascii_chars("STARTTLS"@));
    assert(vstd::utf8::is_ascii_chars("ENHANCEDSTATUSCODES"@));
    ascii_bytes("8BITMIME"@);
    ascii_bytes("SMTPUTF8"@);
    ascii_bytes("CHUNKING"@);
    ascii_bytes("STARTTLS"@);
    ascii_bytes("ENHANCEDSTATUSCODES"@);
    assert(encode_utf8("SMTPUTF8"@)[0] != encode_utf8("8BITMIME"@)[0]);
    assert(encode_utf8("CHUNKING"@)[0] != encode_utf8("8BITMIME"@)[0]);
    assert(encode_utf8("CHUNKING"@)[0] != encode_utf8("SMTPUTF8"@)[0]);
    assert(encode_utf8("STARTTLS"@)[0] != encode_utf8("8BITMIME"@)[0]);
    assert(encode_utf8("STARTTLS"@)[1] != encode_utf8("SMTPUTF8"@)[1]);
    assert(encode_utf8("STARTTLS"@)[0] != encode_utf8("CHUNKING"@)[0]);
    lemma_keyword_plain(ext, size, auth, encode_utf8("8BITMIME"@));
    lemma_keyword_plain(ext, size, auth, encode_utf8("SMTPUTF8"@));
    lemma_keyword_plain(ext, size, auth, encode_utf8("CHUNKING"@));
    lemma_keyword_plain(ext, size, auth, encode_utf8("STARTTLS"@));
    lemma_keyword_plain(ext, size, auth, encode_utf8("ENHANCEDSTATUSCODES"@));
}

/// For a keyword body without spaces, the parser's keyword is the whole
/// body and its arguments are empty.
proof fn lemma_keyword_plain(ext: Extensions, size: Option<u64>, auth: Auth, body: Seq<u8>)
    requires
        forall|i: int| 0 <= i < body.len() ==> body[i] != 32,
    ensures
        ({
            let kw = match first_byte(body, 32, 0) {
                Some(i) => body.take(i),
                None => body,
            };
            kw == body
        }),
        first_byte(body, 32, 0) is None,
{
    crate::text::lemma_first_byte(body, 32, 0, None);
}

/// The formatter's SIZE line means exactly its limit to the parser.
pub proof fn lemma_ehlo_keyword_size(ext: Extensions, size: Option<u64>, auth: Auth, n: u64)
    ensures
        apply_keyword(ext, size, auth, encode_utf8("SIZE "@) + dec_digits(n as nat)) == Some(
            (ext, Some(n), auth),
        ),
{
    reveal_strlit("SIZE ");
    reveal_strlit("SIZE");
    assert(vstd::utf8::is_ascii_chars("SIZE "@));
    assert(vstd::utf8::is_ascii_chars("SIZE"@));
    ascii_bytes("SIZE "@);
    ascii_bytes("SIZE"@);
    crate::text::lemma_dec_digits_canonical(n as nat);
    let digits = dec_digits(n as nat);
    let body = encode_utf8("SIZE "@) + digits;
    assert(body[4] == 32);
    assert(forall|j: int| 0 <= j < 4 ==> #[trigger] body[j] != 32);
    assert(forall|j: int| 4 < j < body.len() ==> #[trigger] body[j] != 32) by {
        assert(forall|j: int|
            4 < j < body.len() ==> 48 <= #[trigger] body[j] <= 57 && body[j] == digits[j - 5]);
    }
    crate::text::lemma_first_byte(body, 32, 0, Some(4));
    assert(body.take(4) =~= encode_utf8("SIZE"@));
    assert(body.subrange(5, body.len() as int) =~= digits);
    lemma_ext_keywords_differ(encode_utf8("SIZE"@));
}

/// The formatter's AUTH line means exactly its mechanism set to the
/// parser, for every combination of mechanisms.
pub proof fn lemma_ehlo_keyword_auth(ext: Extensions, size: Option<u64>, a0: Auth, a: Auth)
    ensures
        apply_keyword(ext, size, a0, auth_line(a)) == Some((ext, size, a)),
{
    reveal_strlit("AUTH");
    reveal_strlit(" LOGIN");
    reveal_strlit(" PLAIN");
    reveal_strlit("LOGIN");
    reveal_strlit("PLAIN");
    assert(vstd::utf8::is_ascii_chars("AUTH"@));
    assert(vstd::utf8::is_ascii_chars(" LOGIN"@));
    assert(vstd::utf8::is_ascii_chars(" PLAIN"@));
    assert(vstd::utf8::is_ascii_chars("LOGIN"@));
    assert(vstd::utf8::is_ascii_chars("PLAIN"@));
    ascii_bytes("AUTH"@);
    ascii_bytes(" LOGIN"@);
    ascii_bytes(" PLAIN"@);
    ascii_bytes("LOGIN"@);
    ascii_bytes("PLAIN"@);
    reveal_strlit("SIZE");
    assert(vstd::utf8::is_ascii_chars("SIZE"@));
    ascii_bytes("SIZE"@);
    assert(encode_utf8("AUTH"@)[0] != encode_utf8("SIZE"@)[0]);
    assert(encode_utf8("LOGIN"@)[0] != encode_utf8("PLAIN"@)[0]);
    let body = auth_line(a);
    let login = encode_utf8("LOGIN"@);
    let plain = encode_utf8("PLAIN"@);
    if !a.login && !a.plain {
        assert(body =~= encode_utf8("AUTH"@));
        crate::text::lemma_first_byte(body, 32, 0, None);
        assert(!has_token(Seq::<u8>::empty(), login));
        assert(!has_token(Seq::<u8>::empty(), plain));
        lemma_ext_keywords_differ(encode_utf8("AUTH"@));
    } else {
        assert(body[4] == 32);
        assert(forall|j: int| 0 <= j < 4 ==> #[trigger] body[j] != 32);
        crate::text::lemma_first_byte(body, 32, 0, Some(4));
        assert(body.take(4) =~= encode_utf8("AUTH"@));
        let args = body.subrange(5, body.len() as int);
        if a.login && !a.plain {
            assert(args =~= login);
            crate::text::lemma_first_byte(args, 32, 0, None);
            assert(has_token(args, login));
            assert(!has_token(args, plain));
        } else if !a.login && a.plain {
            assert(args =~= plain);
            crate::text::lemma_first_byte(args, 32, 0, None);
            assert(!has_token(args, login));
            assert(has_token(args, plain));
        } else {
            assert(args =~= login + seq![32u8] + plain);
            assert(args[5] == 32);
            assert(forall|j: int| 0 <= j < 5 ==> #[trigger] args[j] != 32);
            crate::text::lemma_first_byte(args, 32, 0, Some(5));
            assert(args.take(5) =~= login);
            let rest = args.subrange(6, args.len() as int);
            assert(rest =~= plain);
            crate::text::lemma_first_byte(rest, 32, 0, None);
            assert(has_token(args, login));
            assert(has_token(rest, plain));
            assert(has_token(args, plain));
            assert(!has_token(rest, login));
        }
        lemma_ext_keywords_differ(encode_utf8("AUTH"@));
    }
}

/// `SIZE` and `AUTH` are none of the extension keywords, so the
/// parser's earlier checks pass them by.
proof fn lemma_ext_keywords_differ(kw: Seq<u8>)
    requires
        kw.len() <= 4,
    ensures
        kw != encode_utf8("8BITMIME"@),
        kw != encode_utf8("SMTPUTF8"@),
        kw != encode_utf8("CHUNKING"@),
        kw != encode_utf8("STARTTLS"@),
        kw != encode_utf8("ENHANCEDSTATUSCODES"@),
{
    lemma_keyword_lens();
}

/// The extension keywords are all longer than four bytes.
proof fn lemma_keyword_lens()
    ensures
        encode_utf8("8BITMIME"@).len() == 8,
        encode_utf8("SMTPUTF8"@).len() == 8,
        encode_utf8("CHUNKING"@).len() == 8,
        encode_utf8("STARTTLS"@).len() == 8,
        encode_utf8("ENHANCEDSTATUSCODES"@).len() == 19,
{
    reveal_strlit("8BITMIME");
    reveal_strlit("SMTPUTF8");
    reveal_strlit("CHUNKING");
    reveal_strlit("STARTTLS");
    reveal_strlit("ENHANCEDSTATUSCODES");
    assert(vstd::utf8::is_ascii_chars("8BITMIME"@));
    assert(vstd::utf8::is_ascii_chars("SMTPUTF8"@));
    assert(vstd::utf8::is_ascii_chars("CHUNKING"@));
    assert(vstd::utf8::is_ascii_chars("STARTTLS"@));
    assert(vstd::utf8::is_ascii_chars("ENHANCEDSTATUSCODES"@));
    ascii_bytes("8BITMIME"@);
    ascii_bytes("SMTPUTF8"@);
    ascii_bytes("CHUNKING"@);
    ascii_bytes("STARTTLS"@);
    ascii_bytes("ENHANCEDSTATUSCODES"@);
}

} // verus!