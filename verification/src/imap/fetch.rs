//! FETCH data items: the attribute names and the `ALL`/`FAST`/`FULL`
//! macros of RFC 9051.

use vstd::prelude::*;

verus! {

use vstd::utf8::encode_utf8;

/// One fetchable attribute.
#[derive(Debug, Clone, Copy, PartialEq, Eq, Structural)]
pub enum Attribute {
    Flags,
    Internaldate,
    Rfc822Size,
    Envelope,
    Body,
}

/// What a FETCH asks for: one of the macros, or an explicit list.
#[derive(Debug, Clone, PartialEq, Eq)]
pub enum Items {
    All,
    Fast,
    Full,
    Attributes(Vec<Attribute>),
}

/// The macros stand for fixed attribute lists (RFC 9051, section
/// 6.4.5).
pub open spec fn spec_attributes(m: &Items) -> Seq<Attribute> {
    match m {
        Items::All => seq![
            Attribute::Flags,
            Attribute::Internaldate,
            Attribute::Rfc822Size,
            Attribute::Envelope,
        ],
        Items::Fast => seq![Attribute::Flags, Attribute::Internaldate, Attribute::Rfc822Size],
        Items::Full => seq![
            Attribute::Flags,
            Attribute::Internaldate,
            Attribute::Rfc822Size,
            Attribute::Envelope,
            Attribute::Body,
        ],
        Items::Attributes(attributes) => attributes@,
    }
}

impl Items {
    /// The attributes asked for, macros expanded.
    pub fn attributes(&self) -> (r: Vec<Attribute>)
        ensures
            r@ == spec_attributes(self),
    {
        let mut out: Vec<Attribute> = Vec::new();
        match self {
            Items::All => {
                out.push(Attribute::Flags);
                out.push(Attribute::Internaldate);
                out.push(Attribute::Rfc822Size);
                out.push(Attribute::Envelope);
            },
            Items::Fast => {
                out.push(Attribute::Flags);
                out.push(Attribute::Internaldate);
                out.push(Attribute::Rfc822Size);
            },
            Items::Full => {
                out.push(Attribute::Flags);
                out.push(Attribute::Internaldate);
                out.push(Attribute::Rfc822Size);
                out.push(Attribute::Envelope);
                out.push(Attribute::Body);
            },
            Items::Attributes(attributes) => {
                let n = attributes.len();
                let mut i: usize = 0;
                while i < n
                    invariant
                        0 <= i <= n,
                        n == attributes@.len(),
                        out@ =~= attributes@.take(i as int),
                    decreases n - i,
                {
                    out.push(attributes[i]);
                    proof {
                        assert(out@ =~= attributes@.take(i + 1));
                    }
                    i += 1;
                }
                proof {
                    assert(attributes@.take(n as int) =~= attributes@);
                }
            },
        }
        proof {
            assert(out@ =~= spec_attributes(self));
        }
        out
    }
}

/// Where the attribute token starting at `pos` ends: at a space, a
/// closing parenthesis, or the end.
pub open spec fn attr_end(s: Seq<u8>, pos: int) -> int
    recommends
        0 <= pos <= s.len(),
    decreases s.len() - pos,
    when 0 <= pos <= s.len()
{
    if pos < s.len() && s[pos] != 32 && s[pos] != 41 {
        attr_end(s, pos + 1)
    } else {
        pos
    }
}

pub proof fn lemma_attr_end_bounds(s: Seq<u8>, pos: int)
    requires
        0 <= pos <= s.len(),
    ensures
        pos <= attr_end(s, pos) <= s.len(),
    decreases s.len() - pos,
{
    if pos < s.len() && s[pos] != 32 && s[pos] != 41 {
        lemma_attr_end_bounds(s, pos + 1);
    }
}

/// The attribute named by a token, if any: the exact RFC names.
pub open spec fn attr_of(t: Seq<u8>) -> Option<Attribute> {
    if t == encode_utf8("FLAGS"@) {
        Some(Attribute::Flags)
    } else if t == encode_utf8("INTERNALDATE"@) {
        Some(Attribute::Internaldate)
    } else if t == encode_utf8("RFC822.SIZE"@) {
        Some(Attribute::Rfc822Size)
    } else if t == encode_utf8("ENVELOPE"@) {
        Some(Attribute::Envelope)
    } else if t == encode_utf8("BODY"@) {
        Some(Attribute::Body)
    } else {
        None
    }
}

/// One attribute token at `pos`: non-empty and a known name.
pub open spec fn attr_at(s: Seq<u8>, pos: int) -> Option<(Attribute, int)>
    recommends
        0 <= pos <= s.len(),
{
    let e = attr_end(s, pos);
    if e > pos {
        match attr_of(s.subrange(pos, e)) {
            Some(a) => Some((a, e)),
            None => None,
        }
    } else {
        None
    }
}

/// The attributes after the first one inside a parenthesized list:
/// single spaces between them.
pub open spec fn more_attrs(s: Seq<u8>, pos: int) -> (Seq<Attribute>, int)
    recommends
        0 <= pos <= s.len(),
    decreases s.len() - pos,
    when 0 <= pos <= s.len()
{
    if pos < s.len() && s[pos] == 32 {
        match attr_at(s, pos + 1) {
            Some((a, p2)) => {
                proof {
                    lemma_attr_end_bounds(s, pos + 1);
                }
                let (rest, e) = more_attrs(s, p2);
                (seq![a] + rest, e)
            },
            None => (Seq::<Attribute>::empty(), pos),
        }
    } else {
        (Seq::<Attribute>::empty(), pos)
    }
}

/// What a FETCH items argument means, at the specification level.
pub enum ItemsModel {
    All,
    Fast,
    Full,
    List(Seq<Attribute>),
}

/// `s` starts with `t` at `pos`.
pub open spec fn lit_at(s: Seq<u8>, pos: int, t: Seq<u8>) -> bool {
    pos + t.len() <= s.len() && s.subrange(pos, pos + t.len()) == t
}

/// The items grammar at `pos`: a macro name, a parenthesized list, or
/// one attribute, tried in that order.
pub open spec fn items_at(s: Seq<u8>, pos: int) -> Option<(ItemsModel, int)>
    recommends
        0 <= pos <= s.len(),
{
    if lit_at(s, pos, encode_utf8("ALL"@)) {
        Some((ItemsModel::All, pos + 3))
    } else if lit_at(s, pos, encode_utf8("FAST"@)) {
        Some((ItemsModel::Fast, pos + 4))
    } else if lit_at(s, pos, encode_utf8("FULL"@)) {
        Some((ItemsModel::Full, pos + 4))
    } else if pos < s.len() && s[pos] == 40 {
        match attr_at(s, pos + 1) {
            Some((a, p2)) => {
                let (rest, e) = more_attrs(s, p2);
                if e < s.len() && s[e] == 41 {
                    Some((ItemsModel::List(seq![a] + rest), e + 1))
                } else {
                    match attr_at(s, pos) {
                        Some((a2, e2)) => Some((ItemsModel::List(seq![a2]), e2)),
                        None => None,
                    }
                }
            },
            None => match attr_at(s, pos) {
                Some((a2, e2)) => Some((ItemsModel::List(seq![a2]), e2)),
                None => None,
            },
        }
    } else {
        match attr_at(s, pos) {
            Some((a, e)) => Some((ItemsModel::List(seq![a]), e)),
            None => None,
        }
    }
}

/// The parsed items carry the model's attributes.
pub open spec fn items_match(items: &Items, m: ItemsModel) -> bool {
    match m {
        ItemsModel::All => items is All,
        ItemsModel::Fast => items is Fast,
        ItemsModel::Full => items is Full,
        ItemsModel::List(attrs) => items matches Items::Attributes(v) && v@ == attrs,
    }
}

impl Items {
    /// Parses a FETCH items argument at `pos`.
    pub fn parse(input: &[u8], pos: usize) -> (r: Option<(Items, usize)>)
        requires
            pos <= input@.len(),
        ensures
            match r {
                Some((items, e)) => items_at(input@, pos as int) matches Some((m, me)) && me == e
                    && items_match(&items, m),
                None => items_at(input@, pos as int) is None,
            },
    {
        let n = input.len();
        proof {
            reveal_strlit("ALL");
            reveal_strlit("FAST");
            reveal_strlit("FULL");
            assert(vstd::utf8::is_ascii_chars("ALL"@));
            assert(vstd::utf8::is_ascii_chars("FAST"@));
            assert(vstd::utf8::is_ascii_chars("FULL"@));
            vstd::utf8::is_ascii_chars_encode_utf8("ALL"@);
            vstd::utf8::is_ascii_chars_encode_utf8("FAST"@);
            vstd::utf8::is_ascii_chars_encode_utf8("FULL"@);
            assert(encode_utf8("ALL"@).len() == 3);
            assert(encode_utf8("FAST"@).len() == 4);
            assert(encode_utf8("FULL"@).len() == 4);
        }
        if n - pos >= 3 && crate::text::bytes_eq(
            vstd::slice::slice_subrange(input, pos, pos + 3),
            "ALL".as_bytes(),
        ) {
            return Some((Items::All, pos + 3));
        }
        proof {
            assert(!lit_at(input@, pos as int, encode_utf8("ALL"@)));
        }
        if n - pos >= 4 && crate::text::bytes_eq(
            vstd::slice::slice_subrange(input, pos, pos + 4),
            "FAST".as_bytes(),
        ) {
            return Some((Items::Fast, pos + 4));
        }
        proof {
            assert(!lit_at(input@, pos as int, encode_utf8("FAST"@)));
        }
        if n - pos >= 4 && crate::text::bytes_eq(
            vstd::slice::slice_subrange(input, pos, pos + 4),
            "FULL".as_bytes(),
        ) {
            return Some((Items::Full, pos + 4));
        }
        proof {
            assert(!lit_at(input@, pos as int, encode_utf8("FULL"@)));
        }
        if pos < n && input[pos] == 40 {
            match attr_exec(input, pos + 1) {
                Some((a, p2)) => {
                    proof {
                        lemma_attr_end_bounds(input@, pos as int + 1);
                    }
                    let mut attrs: Vec<Attribute> = Vec::new();
                    attrs.push(a);
                    let mut p = p2;
                    loop
                        invariant
                            0 < p <= n,
                            n == input@.len(),
                            pos < n && input@[pos as int] == 40,
                            attrs@.len() >= 1,
                            attrs@[0] == a,
                            attr_at(input@, pos as int + 1) == Some((a, p2 as int)),
                            !lit_at(input@, pos as int, encode_utf8("ALL"@)),
                            !lit_at(input@, pos as int, encode_utf8("FAST"@)),
                            !lit_at(input@, pos as int, encode_utf8("FULL"@)),
                            ({
                                let (rest, e) = more_attrs(input@, p as int);
                                &&& seq![a] + more_attrs(input@, p2 as int).0 == attrs@ + rest
                                &&& more_attrs(input@, p2 as int).1 == e
                            }),
                        decreases n - p,
                    {
                        let ghost (rest0, e0) = more_attrs(input@, p as int);
                        let advance: Option<(Attribute, usize)> = if p < n && input[p] == 32 {
                            attr_exec(input, p + 1)
                        } else {
                            None
                        };
                        match advance {
                            Some((a2, pnext)) => {
                                proof {
                                    lemma_attr_end_bounds(input@, p as int + 1);
                                    let (rest1, e1) = more_attrs(input@, pnext as int);
                                    assert(rest0 =~= seq![a2] + rest1);
                                    assert(attrs@ + rest0 =~= attrs@.push(a2) + rest1);
                                }
                                attrs.push(a2);
                                p = pnext;
                            },
                            None => {
                                proof {
                                    assert(more_attrs(input@, p as int).0
                                        =~= Seq::<Attribute>::empty());
                                    assert(attrs@ + more_attrs(input@, p as int).0 =~= attrs@);
                                    assert(seq![a] + more_attrs(input@, p2 as int).0 =~= attrs@);
                                    assert(more_attrs(input@, p2 as int).1 == p);
                                }
                                if p < n && input[p] == 41 {
                                    return Some((Items::Attributes(attrs), p + 1));
                                }
                                match attr_exec(input, pos) {
                                    Some((a2, e2)) => {
                                        let mut single: Vec<Attribute> = Vec::new();
                                        single.push(a2);
                                        proof {
                                            assert(single@ =~= seq![a2]);
                                        }
                                        return Some((Items::Attributes(single), e2));
                                    },
                                    None => {
                                        return None;
                                    },
                                }
                            },
                        }
                    }
                },
                None => {
                    match attr_exec(input, pos) {
                        Some((a2, e2)) => {
                            let mut single: Vec<Attribute> = Vec::new();
                            single.push(a2);
                            proof {
                                assert(single@ =~= seq![a2]);
                            }
                            Some((Items::Attributes(single), e2))
                        },
                        None => None,
                    }
                },
            }
        } else {
            match attr_exec(input, pos) {
                Some((a, e)) => {
                    let mut single: Vec<Attribute> = Vec::new();
                    single.push(a);
                    proof {
                        assert(single@ =~= seq![a]);
                    }
                    Some((Items::Attributes(single), e))
                },
                None => None,
            }
        }
    }
}

/// One attribute token read off the input.
fn attr_exec(input: &[u8], pos: usize) -> (r: Option<(Attribute, usize)>)
    requires
        pos <= input@.len(),
    ensures
        match r {
            Some((a, e)) => attr_at(input@, pos as int) == Some((a, e as int)),
            None => attr_at(input@, pos as int) is None,
        },
{
    let n = input.len();
    let mut e: usize = pos;
    while e < n && input[e] != 32 && input[e] != 41
        invariant
            pos <= e <= n,
            n == input@.len(),
            attr_end(input@, pos as int) == attr_end(input@, e as int),
        decreases n - e,
    {
        e += 1;
    }
    proof {
        assert(attr_end(input@, e as int) == e);
    }
    if e == pos {
        return None;
    }
    let t = vstd::slice::slice_subrange(input, pos, e);
    if crate::text::bytes_eq(t, "FLAGS".as_bytes()) {
        Some((Attribute::Flags, e))
    } else if crate::text::bytes_eq(t, "INTERNALDATE".as_bytes()) {
        Some((Attribute::Internaldate, e))
    } else if crate::text::bytes_eq(t, "RFC822.SIZE".as_bytes()) {
        Some((Attribute::Rfc822Size, e))
    } else if crate::text::bytes_eq(t, "ENVELOPE".as_bytes()) {
        Some((Attribute::Envelope, e))
    } else if crate::text::bytes_eq(t, "BODY".as_bytes()) {
        Some((Attribute::Body, e))
    } else {
        None
    }
}

} // verus!
