//! The table of in-flight asynchronous operations: which tags are
//! outstanding and what verb each one runs. The completion channel that
//! carries results back lives outside the crate; this table is what
//! decides waiting and what checks results off.

use vstd::prelude::*;

verus! {

use crate::imap::Tag;
use crate::imap::command::CommandName;

/// A result could not be delivered: its receiver is gone.
#[derive(Debug)]
pub struct SendError<T>(pub T);

/// The in-flight operations, each tag at most once.
pub struct Queue {
    commands: Vec<(Tag, CommandName)>,
}

impl Queue {
    /// The table, for contracts.
    pub closed spec fn spec_commands(&self) -> Seq<(Tag, CommandName)> {
        self.commands@
    }

    /// Some in-flight operation carries this tag.
    pub open spec fn has_tag(&self, t: Seq<char>) -> bool {
        exists|i: int|
            0 <= i < self.spec_commands().len() && #[trigger] self.spec_commands()[i].0.0@ == t
    }

    /// No tag occurs twice: every enqueued tag is checked off exactly
    /// once, so a result always finds its one operation.
    pub open spec fn wf(&self) -> bool {
        forall|i: int, j: int|
            0 <= i < j < self.spec_commands().len() ==> #[trigger] self.spec_commands()[i].0.0@
                != #[trigger] self.spec_commands()[j].0.0@
    }

    pub fn new() -> (r: Queue)
        ensures
            r.spec_commands().len() == 0,
            r.wf(),
    {
        Queue { commands: Vec::new() }
    }

    /// Whether a newly read command must wait for in-flight work before
    /// it is handled: the current policy serializes all concurrent
    /// commands, whatever the verb.
    pub fn must_wait_before(&self, _command: &CommandName) -> (r: bool)
        ensures
            r == (self.spec_commands().len() != 0),
    {
        self.commands.len() != 0
    }

    /// The index of the operation carrying this tag, if any.
    fn find_tag(&self, tag: &Tag) -> (r: Option<usize>)
        ensures
            match r {
                Some(i) => i < self.spec_commands().len() && self.spec_commands()[i as int].0.0@
                    == tag.0@,
                None => !self.has_tag(tag.0@),
            },
    {
        let n = self.commands.len();
        let mut i: usize = 0;
        while i < n
            invariant
                0 <= i <= n,
                n == self.spec_commands().len(),
                forall|j: int| 0 <= j < i ==> #[trigger] self.spec_commands()[j].0.0@ != tag.0@,
            decreases n - i,
        {
            let entry = &self.commands[i];
            if crate::text::bytes_eq(entry.0.0.as_str().as_bytes(), tag.0.as_str().as_bytes()) {
                proof {
                    vstd::utf8::encode_utf8_decode_utf8(entry.0.0@);
                    vstd::utf8::encode_utf8_decode_utf8(tag.0@);
                }
                return Some(i);
            }
            proof {
                if self.spec_commands()[i as int].0.0@ == tag.0@ {
                    assert(vstd::utf8::encode_utf8(entry.0.0@) == vstd::utf8::encode_utf8(
                        tag.0@,
                    ));
                }
            }
            i += 1;
        }
        None
    }

    /// Registers a tag for an operation; a live tag is overwritten, and
    /// the overwrite is reported so the caller can log the reuse.
    pub fn insert(&mut self, tag: Tag, command: CommandName) -> (overwrote: bool)
        requires
            old(self).wf(),
        ensures
            final(self).wf(),
            overwrote == old(self).has_tag(tag.0@),
            final(self).has_tag(tag.0@),
            final(self).spec_commands().len() >= 1,
    {
        let overwrote = match self.find_tag(&tag) {
            Some(i) => {
                proof {
                    assert(old(self).has_tag(tag.0@));
                }
                self.remove_keeps_wf(i, &tag);
                true
            },
            None => false,
        };
        self.push_fresh(tag, command);
        overwrote
    }

    /// Adds an operation whose tag is not in the table.
    fn push_fresh(&mut self, tag: Tag, command: CommandName)
        requires
            old(self).wf(),
            !old(self).has_tag(tag.0@),
        ensures
            final(self).wf(),
            final(self).has_tag(tag.0@),
            final(self).spec_commands().len() == old(self).spec_commands().len() + 1,
    {
        self.commands.push((tag, command));
        proof {
            let before = old(self).spec_commands();
            let n = before.len() as int;
            assert(self.spec_commands()[n].0.0@ == tag.0@);
            assert forall|i: int, j: int|
                0 <= i < j < self.spec_commands().len() implies #[trigger] self.spec_commands()[i].0.0@
                != #[trigger] self.spec_commands()[j].0.0@ by {
                if j < n {
                    assert(self.spec_commands()[i] == before[i]);
                    assert(self.spec_commands()[j] == before[j]);
                    assert(before[i].0.0@ != before[j].0.0@);
                } else {
                    assert(self.spec_commands()[i] == before[i]);
                    if before[i].0.0@ == tag.0@ {
                        assert(old(self).has_tag(tag.0@));
                    }
                }
            }
        }
    }

    /// Removes the entry at `i`, which carries the tag; afterwards no
    /// entry does.
    fn remove_keeps_wf(&mut self, i: usize, tag: &Tag)
        requires
            old(self).wf(),
            i < old(self).spec_commands().len(),
            old(self).spec_commands()[i as int].0.0@ == tag.0@,
        ensures
            final(self).wf(),
            !final(self).has_tag(tag.0@),
            final(self).spec_commands().len() == old(self).spec_commands().len() - 1,
    {
        let ghost before = self.spec_commands();
        self.commands.remove(i);
        proof {
            assert forall|a: int, b: int|
                0 <= a < b < self.spec_commands().len() implies #[trigger] self.spec_commands()[a].0.0@
                != #[trigger] self.spec_commands()[b].0.0@ by {
                let a0 = if a < i { a } else { a + 1 };
                let b0 = if b < i { b } else { b + 1 };
                assert(self.spec_commands()[a] == before[a0]);
                assert(self.spec_commands()[b] == before[b0]);
            }
            assert forall|a: int|
                0 <= a < self.spec_commands().len() implies #[trigger] self.spec_commands()[a].0.0@
                != tag.0@ by {
                let a0 = if a < i { a } else { a + 1 };
                assert(self.spec_commands()[a] == before[a0]);
                if a0 != i {
                    assert(before[a0].0.0@ != before[i as int].0.0@);
                }
            }
        }
    }

    /// Checks an operation off when its result arrives: the verb it
    /// ran, or nothing when the tag is unknown.
    pub fn complete(&mut self, tag: &Tag) -> (r: Option<CommandName>)
        requires
            old(self).wf(),
        ensures
            final(self).wf(),
            r is Some <==> old(self).has_tag(tag.0@),
            !final(self).has_tag(tag.0@),
            old(self).has_tag(tag.0@) ==> final(self).spec_commands().len() == old(
                self,
            ).spec_commands().len() - 1,
            !old(self).has_tag(tag.0@) ==> final(self).spec_commands() == old(
                self,
            ).spec_commands(),
    {
        match self.find_tag(tag) {
            Some(i) => {
                let name = self.commands[i].1;
                proof {
                    assert(old(self).has_tag(tag.0@));
                }
                self.remove_keeps_wf(i, tag);
                Some(name)
            },
            None => None,
        }
    }
}

} // verus!
