use vstd::prelude::*;

use crate::line_ending::{begins_with_escape, consumed_len, line_ending_at, LineEnding};
use crate::text::chars_of;

verus! {

/// Reading a line ending off the front of a stream of characters.
pub trait PeekableLineEndingExt: Sized {
    /// The characters that have not been consumed yet, in order.
    spec fn upcoming(&self) -> Seq<char>;

    /// Consumes the line ending at the front of the stream, if there is one,
    /// and returns its kind. A backslash followed by `r` or `n` is text: nothing
    /// is consumed then, and the caller reads those characters as content.
    fn consume_line_ending(&mut self) -> (r: Option<LineEnding>)
        ensures
            r == line_ending_at(old(self).upcoming()),
            final(self).upcoming() == old(self).upcoming().skip(consumed_len(r) as int),
            r is None ==> *final(self) == *old(self),
            begins_with_escape(old(self).upcoming()) ==> r is None && *final(self) == *old(self),
    ;
}

/// A position in a sequence of characters, which can look ahead without
/// consuming and advance one character at a time.
pub struct CharCursor {
    chars: Vec<char>,
    pos: usize,
}

impl CharCursor {
    #[verifier::type_invariant]
    spec fn position_in_bounds(self) -> bool {
        self.pos <= self.chars.len()
    }

    /// A cursor at the first character of `s`.
    pub fn new(s: &str) -> (r: CharCursor)
        ensures
            r.upcoming() == s@,
    {
        let r = CharCursor { chars: chars_of(s), pos: 0 };
        assert(r.chars@.skip(0) =~= s@);
        r
    }

    /// The character `n` places ahead, without consuming anything.
    pub fn peek_nth(&self, n: usize) -> (r: Option<char>)
        ensures
            r == (if n < self.upcoming().len() {
                Some(self.upcoming()[n as int])
            } else {
                None
            }),
    {
        proof {
            use_type_invariant(self);
        }
        if n < self.chars.len() - self.pos {
            Some(self.chars[self.pos + n])
        } else {
            None
        }
    }

    /// The next character, without consuming it.
    pub fn peek(&self) -> (r: Option<char>)
        ensures
            r == (if self.upcoming().len() > 0 {
                Some(self.upcoming()[0])
            } else {
                None
            }),
    {
        self.peek_nth(0)
    }

    /// Consumes and returns the next character; at the end nothing changes.
    pub fn next(&mut self) -> (r: Option<char>)
        ensures
            old(self).upcoming().len() > 0 ==> r == Some(old(self).upcoming()[0])
                && final(self).upcoming() == old(self).upcoming().drop_first(),
            old(self).upcoming().len() == 0 ==> r is None && *final(self) == *old(self),
    {
        proof {
            use_type_invariant(&*self);
        }
        if self.pos < self.chars.len() {
            let c = self.chars[self.pos];
            let ghost before = self.upcoming();
            self.pos = self.pos + 1;
            assert(self.upcoming() =~= before.drop_first());
            Some(c)
        } else {
            None
        }
    }
}

impl PeekableLineEndingExt for CharCursor {
    closed spec fn upcoming(&self) -> Seq<char> {
        self.chars@.skip(self.pos as int)
    }

    fn consume_line_ending(&mut self) -> (r: Option<LineEnding>) {
        let ghost start = self.upcoming();
        if let Some(first) = self.peek() {
            if first == '\\' {
                if let Some(second) = self.peek_nth(1) {
                    if second == 'r' || second == 'n' {
                        return None;
                    }
                }
            } else if first == '\r' {
                if let Some(second) = self.peek_nth(1) {
                    if second == '\n' {
                        self.next();
                        self.next();
                        assert(self.upcoming() =~= start.skip(2));
                        return Some(LineEnding::CRLF);
                    }
                }
                self.next();
                assert(self.upcoming() =~= start.skip(1));
                return Some(LineEnding::CR);
            } else if first == '\n' {
                self.next();
                assert(self.upcoming() =~= start.skip(1));
                return Some(LineEnding::LF);
            }
        }
        assert(start.skip(0) =~= start);
        None
    }
}

} // verus!
