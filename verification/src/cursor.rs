//! The position inside one line.

use vstd::prelude::*;
use crate::classes::{find_run_end, run_end, CharClass};
use crate::text::push_range;

verus! {

/// A position in the characters of one line. The cursor is the only owner
/// of the position: whoever scans reads the line through it.
pub struct Cursor<'a> {
    chars: &'a [char],
    pos: usize,
}

impl<'a> Cursor<'a> {
    #[verifier::type_invariant]
    spec fn in_bounds(self) -> bool {
        self.pos <= self.chars@.len()
    }

    /// The characters of the line.
    pub closed spec fn text(&self) -> Seq<char> {
        self.chars@
    }

    /// How many characters were consumed.
    pub closed spec fn position(&self) -> int {
        if self.pos <= self.chars@.len() {
            self.pos as int
        } else {
            self.chars@.len() as int
        }
    }

    /// The position never leaves the line, and a line is no longer than
    /// memory allows.
    pub proof fn lemma_position_in_line(&self)
        ensures
            0 <= self.position() <= self.text().len() <= usize::MAX,
    {
        vstd::slice::axiom_spec_len(self.chars);
    }

    /// A cursor at the start of `chars`.
    pub fn new(chars: &'a [char]) -> (cursor: Cursor<'a>)
        ensures
            cursor.text() == chars@,
            cursor.position() == 0,
    {
        Cursor { chars, pos: 0 }
    }

    /// Consumes the next character and returns it; at the end of the line
    /// returns `None` and stays.
    pub fn advance(&mut self) -> (next: Option<char>)
        ensures
            final(self).text() == old(self).text(),
            old(self).position() < old(self).text().len() ==> next == Some(
                old(self).text()[old(self).position()],
            ) && final(self).position() == old(self).position() + 1,
            old(self).position() >= old(self).text().len() ==> next.is_none()
                && final(self).position() == old(self).position(),
    {
        proof {
            use_type_invariant(&*self);
        }
        if self.pos < self.chars.len() {
            let c = self.chars[self.pos];
            self.pos = self.pos + 1;
            Some(c)
        } else {
            None
        }
    }

    /// The next character, left in place; `None` at the end of the line.
    pub fn peek(&self) -> (next: Option<char>)
        ensures
            next == self.peek_at(0),
    {
        self.peek_ahead(0)
    }

    /// The character `n` places after the position, if the line has one.
    pub open spec fn peek_at(&self, n: int) -> Option<char> {
        if 0 <= self.position() + n < self.text().len() {
            Some(self.text()[self.position() + n])
        } else {
            None
        }
    }

    /// The character `n` places after the next one, left in place; `None`
    /// where the line ends before it.
    pub fn peek_ahead(&self, n: usize) -> (found: Option<char>)
        ensures
            found == self.peek_at(n as int),
    {
        proof {
            use_type_invariant(self);
        }
        if n < self.chars.len() - self.pos {
            Some(self.chars[self.pos + n])
        } else {
            None
        }
    }

    /// Looks ahead for the extent of a run: how many places after the
    /// position the run of `class` ends that starts `from` places after it.
    /// Nothing is consumed.
    pub fn extent(&self, from: usize, class: CharClass) -> (n: usize)
        ensures
            self.position() + n == run_end(self.text(), self.position() + from, class),
            from <= n,
            self.position() + from <= self.text().len() ==> self.position() + n
                <= self.text().len(),
    {
        proof {
            use_type_invariant(self);
        }
        if from <= self.chars.len() - self.pos {
            find_run_end(self.chars, self.pos + from, class) - self.pos
        } else {
            from
        }
    }

    /// Consumes `n` characters in one step and appends them to `out`; where
    /// less than `n` are left, those.
    pub fn take_into(&mut self, n: usize, out: &mut String)
        ensures
            final(self).text() == old(self).text(),
            final(self).position() == if old(self).position() + n <= old(self).text().len() {
                old(self).position() + n
            } else {
                old(self).text().len() as int
            },
            final(out)@ == old(out)@ + old(self).text().subrange(
                old(self).position(),
                final(self).position(),
            ),
    {
        proof {
            use_type_invariant(&*self);
        }
        let end: usize = if n < self.chars.len() - self.pos {
            self.pos + n
        } else {
            self.chars.len()
        };
        push_range(out, self.chars, self.pos, end);
        self.pos = end;
    }
}

} // verus!
