//! A cursor over borrowed text, with lookahead.

use vstd::prelude::*;
use vstd::string::is_ascii;

verus! {

/// A position in a borrowed text. The text is never copied: the source keeps
/// the reference, the number of characters, and the offset of the next one.
///
/// Reading a character takes constant time in a text that is all ASCII; in
/// any other text it takes time linear in the character's offset, since the
/// characters before it have to be decoded.
pub struct CharSource<'a> {
    text: &'a str,
    len: usize,
    pos: usize,
    ascii: bool,
}

impl<'a> CharSource<'a> {
    /// The whole text, consumed part included.
    pub closed spec fn text(&self) -> Seq<char> {
        self.text@
    }

    /// The number of characters consumed so far.
    pub closed spec fn pos(&self) -> int {
        self.pos as int
    }

    /// What the cached fields must say of the text.
    pub closed spec fn cache_ok(&self) -> bool {
        &&& self.len == self.text@.len()
        &&& self.ascii ==> is_ascii(self.text)
    }

    /// The cursor lies within the text.
    pub open spec fn wf(&self) -> bool {
        &&& self.cache_ok()
        &&& 0 <= self.pos() <= self.text().len()
    }

    /// A source at the start of `text`.
    pub fn new(text: &'a str) -> (source: Self)
        ensures
            source.wf(),
            source.text() == text@,
            source.pos() == 0,
    {
        CharSource { text, len: text.unicode_len(), pos: 0, ascii: text.is_ascii() }
    }

    /// The offset, in characters, of the next character.
    pub fn position(&self) -> (p: usize)
        requires
            self.wf(),
        ensures
            p == self.pos(),
    {
        self.pos
    }

    /// The character `ahead` places after the cursor, if the text reaches
    /// that far. Nothing is consumed.
    pub fn peek_at(&self, ahead: usize) -> (c: Option<char>)
        requires
            self.wf(),
        ensures
            c == (if self.pos() + ahead < self.text().len() {
                Some(self.text()[self.pos() + ahead])
            } else {
                None
            }),
    {
        if ahead >= self.len - self.pos {
            return None;
        }
        let i: usize = self.pos + ahead;
        if self.ascii {
            let b: u8 = self.text.get_ascii(i);
            assert('\0' <= self.text@[i as int] <= '\u{7f}');
            Some(b as char)
        } else {
            Some(self.text.get_char(i))
        }
    }

    /// The next character, which stays in place; `None` at the end.
    pub fn peek(&self) -> (c: Option<char>)
        requires
            self.wf(),
        ensures
            c == (if self.pos() < self.text().len() {
                Some(self.text()[self.pos()])
            } else {
                None
            }),
    {
        self.peek_at(0)
    }

    /// Consumes the next character and returns it; `None` at the end, where
    /// nothing changes.
    pub fn advance(&mut self) -> (c: Option<char>)
        requires
            old(self).wf(),
        ensures
            final(self).wf(),
            final(self).text() == old(self).text(),
            c == (if old(self).pos() < old(self).text().len() {
                Some(old(self).text()[old(self).pos()])
            } else {
                None
            }),
            final(self).pos() == (if c is Some {
                old(self).pos() + 1
            } else {
                old(self).pos()
            }),
    {
        let c = self.peek();
        if c.is_some() {
            self.pos = self.pos + 1;
        }
        c
    }
}

} // verus!
