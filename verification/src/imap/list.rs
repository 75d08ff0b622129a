//! Mailbox list items: name attributes and the untagged LIST line.

use vstd::prelude::*;

verus! {

use vstd::utf8::encode_utf8;

use crate::imap::paren_list;
use crate::line::crlf;

/// Mailbox name attributes (RFC 9051, section 7.3.1), including the
/// special-use set.
#[derive(Debug, Clone, Copy, PartialEq, Eq, Structural)]
pub struct Attributes {
    pub non_existent: bool,
    pub noinferiors: bool,
    pub noselect: bool,
    pub has_children: bool,
    pub has_no_children: bool,
    pub marked: bool,
    pub unmarked: bool,
    pub subscribed: bool,
    pub remote: bool,
    pub all: bool,
    pub archive: bool,
    pub drafts: bool,
    pub flagged: bool,
    pub junk: bool,
    pub sent: bool,
    pub trash: bool,
}

impl Attributes {
    pub open spec fn spec_empty() -> Self {
        Attributes {
            non_existent: false,
            noinferiors: false,
            noselect: false,
            has_children: false,
            has_no_children: false,
            marked: false,
            unmarked: false,
            subscribed: false,
            remote: false,
            all: false,
            archive: false,
            drafts: false,
            flagged: false,
            junk: false,
            sent: false,
            trash: false,
        }
    }

    pub fn empty() -> (r: Self)
        ensures
            r == Attributes::spec_empty(),
    {
        Attributes {
            non_existent: false,
            noinferiors: false,
            noselect: false,
            has_children: false,
            has_no_children: false,
            marked: false,
            unmarked: false,
            subscribed: false,
            remote: false,
            all: false,
            archive: false,
            drafts: false,
            flagged: false,
            junk: false,
            sent: false,
            trash: false,
        }
    }

    /// The present attributes' names, in declaration order.
    pub open spec fn spec_names(&self) -> Seq<Seq<u8>> {
        self.names_a() + self.names_b() + self.names_c() + self.names_d()
    }

    pub open spec fn names_a(&self) -> Seq<Seq<u8>> {
        one_name(self.non_existent, "\\NonExistent") + one_name(self.noinferiors, "\\Noinferiors")
            + one_name(self.noselect, "\\Noselect") + one_name(self.has_children, "\\HasChildren")
    }

    pub open spec fn names_b(&self) -> Seq<Seq<u8>> {
        one_name(self.has_no_children, "\\HasNoChildren") + one_name(self.marked, "\\Marked")
            + one_name(self.unmarked, "\\Unmarked") + one_name(self.subscribed, "\\Subscribed")
    }

    pub open spec fn names_c(&self) -> Seq<Seq<u8>> {
        one_name(self.remote, "\\Remote") + one_name(self.all, "\\All") + one_name(
            self.archive,
            "\\Archive",
        ) + one_name(self.drafts, "\\Drafts")
    }

    pub open spec fn names_d(&self) -> Seq<Seq<u8>> {
        one_name(self.flagged, "\\Flagged") + one_name(self.junk, "\\Junk") + one_name(
            self.sent,
            "\\Sent",
        ) + one_name(self.trash, "\\Trash")
    }

    fn push_names_a(&self, names: &mut Vec<Vec<u8>>)
        ensures
            final(names)@.map_values(|v: Vec<u8>| v@) == old(names)@.map_values(|v: Vec<u8>| v@)
                + self.names_a(),
    {
        let ghost base = names@.map_values(|v: Vec<u8>| v@);
        if self.non_existent {
            names.push(str_vec("\\NonExistent"));
        }
        if self.noinferiors {
            names.push(str_vec("\\Noinferiors"));
        }
        if self.noselect {
            names.push(str_vec("\\Noselect"));
        }
        if self.has_children {
            names.push(str_vec("\\HasChildren"));
        }
        proof {
            assert(names@.map_values(|v: Vec<u8>| v@) =~= base + self.names_a());
        }
    }

    fn push_names_b(&self, names: &mut Vec<Vec<u8>>)
        ensures
            final(names)@.map_values(|v: Vec<u8>| v@) == old(names)@.map_values(|v: Vec<u8>| v@)
                + self.names_b(),
    {
        let ghost base = names@.map_values(|v: Vec<u8>| v@);
        if self.has_no_children {
            names.push(str_vec("\\HasNoChildren"));
        }
        if self.marked {
            names.push(str_vec("\\Marked"));
        }
        if self.unmarked {
            names.push(str_vec("\\Unmarked"));
        }
        if self.subscribed {
            names.push(str_vec("\\Subscribed"));
        }
        proof {
            assert(names@.map_values(|v: Vec<u8>| v@) =~= base + self.names_b());
        }
    }

    fn push_names_c(&self, names: &mut Vec<Vec<u8>>)
        ensures
            final(names)@.map_values(|v: Vec<u8>| v@) == old(names)@.map_values(|v: Vec<u8>| v@)
                + self.names_c(),
    {
        let ghost base = names@.map_values(|v: Vec<u8>| v@);
        if self.remote {
            names.push(str_vec("\\Remote"));
        }
        if self.all {
            names.push(str_vec("\\All"));
        }
        if self.archive {
            names.push(str_vec("\\Archive"));
        }
        if self.drafts {
            names.push(str_vec("\\Drafts"));
        }
        proof {
            assert(names@.map_values(|v: Vec<u8>| v@) =~= base + self.names_c());
        }
    }

    fn push_names_d(&self, names: &mut Vec<Vec<u8>>)
        ensures
            final(names)@.map_values(|v: Vec<u8>| v@) == old(names)@.map_values(|v: Vec<u8>| v@)
                + self.names_d(),
    {
        let ghost base = names@.map_values(|v: Vec<u8>| v@);
        if self.flagged {
            names.push(str_vec("\\Flagged"));
        }
        if self.junk {
            names.push(str_vec("\\Junk"));
        }
        if self.sent {
            names.push(str_vec("\\Sent"));
        }
        if self.trash {
            names.push(str_vec("\\Trash"));
        }
        proof {
            assert(names@.map_values(|v: Vec<u8>| v@) =~= base + self.names_d());
        }
    }

    /// The parenthesized attribute list.
    pub fn to_bytes(&self) -> (out: Vec<u8>)
        ensures
            out@ == paren_list(self.spec_names()),
    {
        let mut names: Vec<Vec<u8>> = Vec::new();
        self.push_names_a(&mut names);
        self.push_names_b(&mut names);
        self.push_names_c(&mut names);
        self.push_names_d(&mut names);
        proof {
            assert(names@.map_values(|v: Vec<u8>| v@) =~= self.spec_names());
        }
        let mut out: Vec<u8> = Vec::new();
        crate::imap::fmt_paren_list(&mut out, &names);
        proof {
            assert(out@ =~= paren_list(self.spec_names()));
        }
        out
    }
}

/// An attribute's contribution to the list: its own name when present.
pub open spec fn one_name(present: bool, name: &str) -> Seq<Seq<u8>> {
    if present {
        seq![encode_utf8(name@)]
    } else {
        Seq::<Seq<u8>>::empty()
    }
}

/// A byte vector holding one literal.
fn str_vec(s: &str) -> (r: Vec<u8>)
    ensures
        r@ == encode_utf8(s@),
{
    let mut v: Vec<u8> = Vec::new();
    crate::text::push_str_bytes(&mut v, s);
    proof {
        assert(v@ =~= encode_utf8(s@));
    }
    v
}

/// One entry of a LIST response.
pub struct ListItem {
    pub name: String,
    pub attributes: Attributes,
    pub hierarchy_delimiter: Option<char>,
}

/// The delimiter part: the quoted character, or NIL.
pub open spec fn delimiter_bytes(d: Option<char>) -> Seq<u8> {
    match d {
        Some(c) => seq![34u8] + encode_utf8(seq![c]) + seq![34u8],
        None => encode_utf8("NIL"@),
    }
}

/// The wire form of a list item:
/// `* LIST (<attributes>) <delimiter> "<name>"` and the line ending.
pub open spec fn spec_list_item(item: &ListItem) -> Seq<u8> {
    encode_utf8("* LIST "@) + paren_list(item.attributes.spec_names()) + seq![32u8]
        + delimiter_bytes(item.hierarchy_delimiter) + seq![32u8, 34u8] + encode_utf8(item.name@)
        + seq![34u8] + crlf()
}

impl ListItem {
    /// A named item with attributes and no hierarchy delimiter.
    pub fn new(name: String, attributes: Attributes) -> (r: Self)
        ensures
            r.name == name,
            r.attributes == attributes,
            r.hierarchy_delimiter is None,
    {
        ListItem { name, attributes, hierarchy_delimiter: None }
    }

    pub fn to_bytes(&self) -> (out: Vec<u8>)
        ensures
            out@ == spec_list_item(self),
    {
        let mut out: Vec<u8> = Vec::new();
        crate::text::push_str_bytes(&mut out, "* LIST ");
        let mut attrs = self.attributes.to_bytes();
        out.append(&mut attrs);
        out.push(32);
        match self.hierarchy_delimiter {
            Some(c) => {
                out.push(34);
                crate::text::push_char(&mut out, c);
                out.push(34);
            },
            None => {
                crate::text::push_str_bytes(&mut out, "NIL");
            },
        }
        out.push(32);
        out.push(34);
        crate::text::push_str_bytes(&mut out, self.name.as_str());
        out.push(34);
        out.push(13);
        out.push(10);
        proof {
            assert(out@ =~= spec_list_item(self));
        }
        out
    }
}

/// A whole LIST response: its items, one line each.
pub struct Response {
    pub list_items: Vec<ListItem>,
}

/// Its wire form: the item lines in order.
pub open spec fn spec_list(items: Seq<ListItem>) -> Seq<u8>
    decreases items.len(),
{
    if items.len() == 0 {
        Seq::<u8>::empty()
    } else {
        spec_list_item(&items[0]) + spec_list(items.drop_first())
    }
}

impl Response {
    pub fn to_bytes(&self) -> (out: Vec<u8>)
        ensures
            out@ == spec_list(self.list_items@),
    {
        let mut out: Vec<u8> = Vec::new();
        let n = self.list_items.len();
        let mut i: usize = 0;
        proof {
            assert(self.list_items@.subrange(0, n as int) =~= self.list_items@);
        }
        while i < n
            invariant
                0 <= i <= n,
                n == self.list_items@.len(),
                out@ + spec_list(self.list_items@.subrange(i as int, n as int)) == spec_list(
                    self.list_items@,
                ),
            decreases n - i,
        {
            let mut item = self.list_items[i].to_bytes();
            out.append(&mut item);
            proof {
                let rest = self.list_items@.subrange(i as int, n as int);
                assert(rest[0] == self.list_items@[i as int]);
                assert(rest.drop_first() =~= self.list_items@.subrange(i + 1, n as int));
                assert(out@ + spec_list(self.list_items@.subrange(i + 1, n as int)) =~= spec_list(
                    self.list_items@,
                ));
            }
            i += 1;
        }
        proof {
            assert(self.list_items@.subrange(n as int, n as int) =~= Seq::<ListItem>::empty());
            assert(out@ =~= spec_list(self.list_items@));
        }
        out
    }
}

} // verus!
