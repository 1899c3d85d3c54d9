//! The scanner: one token per call, read from a `CharSource`.

use vstd::prelude::*;
use crate::chars::{digit, is_digit, is_word_start, space, word_part, word_start};
use crate::grammar::{
    blanks, digits, is_run, lemma_run_end, number_at, pair_symbol, scan_at, single_symbol,
    string_at, string_from, symbol_at, token_start, word_at, word_parts,
};
use crate::source::CharSource;
use crate::token::{Keyword, LexError, Symbol, Token, TokenView};

verus! {

/// What a scan returned, with the token taken by its view.
pub open spec fn outcome_view(r: Result<Option<Token>, LexError>) -> Result<
    Option<TokenView>,
    LexError,
> {
    match r {
        Ok(Some(token)) => Ok(Some(token@)),
        Ok(None) => Ok(None),
        Err(e) => Err(e),
    }
}

/// The operator written with the two characters `a` and `b`, if there is one.
pub fn pair(a: char, b: char) -> (sym: Option<Symbol>)
    ensures
        sym == pair_symbol(a, b),
{
    if a == '<' && b == '=' {
        Some(Symbol::LessEqual)
    } else if a == '<' && b == '>' {
        Some(Symbol::NotEqual)
    } else if a == '>' && b == '=' {
        Some(Symbol::GreaterEqual)
    } else if a == '!' && b == '=' {
        Some(Symbol::NotEqual)
    } else {
        None
    }
}

/// The symbol written with the one character `c`, if there is one.
pub fn single(c: char) -> (sym: Option<Symbol>)
    ensures
        sym == single_symbol(c),
{
    match c {
        '(' => Some(Symbol::OpenParen),
        ')' => Some(Symbol::CloseParen),
        ',' => Some(Symbol::Comma),
        ';' => Some(Symbol::Semicolon),
        '.' => Some(Symbol::Dot),
        '+' => Some(Symbol::Plus),
        '-' => Some(Symbol::Minus),
        '*' => Some(Symbol::Asterisk),
        '/' => Some(Symbol::Slash),
        '=' => Some(Symbol::Equal),
        '<' => Some(Symbol::Less),
        '>' => Some(Symbol::Greater),
        _ => None,
    }
}

/// Whether `c` is the quote that delimits a literal.
pub fn quote(c: char) -> (b: bool)
    ensures
        b == (c == '\''),
{
    c == '\''
}

/// A scanner over one borrowed text.
pub struct Lexer<'a> {
    source: CharSource<'a>,
}

impl<'a> Lexer<'a> {
    /// The whole text being scanned.
    pub closed spec fn text(&self) -> Seq<char> {
        self.source.text()
    }

    /// The number of characters consumed so far.
    pub closed spec fn pos(&self) -> int {
        self.source.pos()
    }

    /// The source is sound.
    pub closed spec fn source_ok(&self) -> bool {
        self.source.wf()
    }

    /// The cursor lies within the text.
    pub open spec fn wf(&self) -> bool {
        &&& self.source_ok()
        &&& 0 <= self.pos() <= self.text().len()
    }

    /// The character under the cursor, if any.
    pub open spec fn head(&self) -> Option<char> {
        if self.pos() < self.text().len() {
            Some(self.text()[self.pos()])
        } else {
            None
        }
    }

    /// A scanner at the start of `sql_text`.
    pub fn new(sql_text: &'a str) -> (lexer: Self)
        ensures
            lexer.wf(),
            lexer.text() == sql_text@,
            lexer.pos() == 0,
    {
        Lexer { source: CharSource::new(sql_text) }
    }

    /// The offset, in characters, of the next character to be read.
    pub fn position(&self) -> (p: usize)
        requires
            self.wf(),
        ensures
            p == self.pos(),
    {
        self.source.position()
    }

    /// Consumes the next character if `predicate` accepts it, and returns it.
    pub fn next_if<F: Fn(char) -> bool>(&mut self, predicate: F) -> (taken: Option<char>)
        requires
            old(self).wf(),
            forall|c: char| predicate.requires((c,)),
        ensures
            final(self).wf(),
            final(self).text() == old(self).text(),
            match taken {
                Some(c) => {
                    &&& old(self).head() == Some(c)
                    &&& predicate.ensures((c,), true)
                    &&& final(self).pos() == old(self).pos() + 1
                },
                None => {
                    &&& final(self).pos() == old(self).pos()
                    &&& old(self).head() is Some ==> predicate.ensures(
                        (old(self).head()->Some_0,),
                        false,
                    )
                },
            },
    {
        match self.source.peek() {
            Some(c) => {
                if predicate(c) {
                    self.source.advance()
                } else {
                    None
                }
            },
            None => None,
        }
    }

    /// Consumes the longest run of characters that `predicate` accepts and
    /// returns it; `None` where the run is empty.
    pub fn next_while<F: Fn(char) -> bool>(&mut self, predicate: F) -> (run: Option<String>)
        requires
            old(self).wf(),
            forall|c: char| predicate.requires((c,)),
        ensures
            final(self).wf(),
            final(self).text() == old(self).text(),
            old(self).pos() <= final(self).pos(),
            forall|i: int|
                old(self).pos() <= i < final(self).pos() ==> predicate.ensures(
                    (#[trigger] final(self).text()[i],),
                    true,
                ),
            final(self).head() is Some ==> predicate.ensures((final(self).head()->Some_0,), false),
            match run {
                Some(t) => {
                    &&& old(self).pos() < final(self).pos()
                    &&& t@ == old(self).text().subrange(old(self).pos(), final(self).pos())
                },
                None => final(self).pos() == old(self).pos(),
            },
    {
        let mut value: String = String::new();
        let ghost start = self.pos();
        loop
            invariant
                self.wf(),
                self.text() == old(self).text(),
                start == old(self).pos(),
                0 <= start <= self.pos(),
                forall|c: char| predicate.requires((c,)),
                forall|i: int|
                    start <= i < self.pos() ==> predicate.ensures((#[trigger] self.text()[i],), true),
                value@ == self.text().subrange(start, self.pos()),
            ensures
                self.head() is Some ==> predicate.ensures((self.head()->Some_0,), false),
            decreases self.text().len() - self.pos(),
        {
            match self.next_if(&predicate) {
                Some(c) => {
                    value.push(c);
                    assert(value@ =~= self.text().subrange(start, self.pos()));
                },
                None => {
                    break ;
                },
            }
        }
        if value.as_str().is_empty() {
            None
        } else {
            Some(value)
        }
    }

    /// Skips the blanks before the next token.
    pub fn erase_whitespace(&mut self)
        requires
            old(self).wf(),
        ensures
            final(self).wf(),
            final(self).text() == old(self).text(),
            final(self).pos() == token_start(old(self).text(), old(self).pos()),
    {
        self.next_while(space);
        proof {
            lemma_run_end(self.text(), old(self).pos(), blanks());
            assert(is_run(self.text(), old(self).pos(), self.pos(), blanks()));
        }
    }

    /// Reads a quoted literal, from its opening quote to its closing one.
    /// Where the cursor is not on a quote, nothing is read.
    pub fn scan_string(&mut self) -> (r: Result<Option<Token>, LexError>)
        requires
            old(self).wf(),
        ensures
            final(self).wf(),
            final(self).text() == old(self).text(),
            old(self).head() == Some('\'') ==> {
                &&& outcome_view(r) == string_at(old(self).text(), old(self).pos()).outcome
                &&& final(self).pos() == string_at(old(self).text(), old(self).pos()).next
            },
            old(self).head() != Some('\'') ==> r == Ok::<Option<Token>, LexError>(None)
                && final(self).pos() == old(self).pos(),
    {
        if self.next_if(quote).is_none() {
            return Ok(None);
        }
        let ghost whole = string_at(self.text(), old(self).pos());
        let mut value: String = String::new();
        loop
            invariant
                self.wf(),
                self.text() == old(self).text(),
                old(self).head() == Some('\''),
                whole == string_at(old(self).text(), old(self).pos()),
                string_from(self.text(), self.pos(), value@) == whole,
            decreases self.text().len() - self.pos(),
        {
            match self.source.advance() {
                None => {
                    return Err(LexError::UnterminatedString);
                },
                Some(c) => {
                    if c != '\'' {
                        value.push(c);
                    } else {
                        match self.source.peek() {
                            Some('\'') => {
                                self.source.advance();
                                value.push('\'');
                            },
                            _ => {
                                return Ok(Some(Token::String(value)));
                            },
                        }
                    }
                },
            }
        }
    }

    /// Reads a numeric literal: digits, then a point and digits where a
    /// digit follows the point. Where the cursor is not on a digit, nothing
    /// is read.
    pub fn scan_number(&mut self) -> (token: Option<Token>)
        requires
            old(self).wf(),
        ensures
            final(self).wf(),
            final(self).text() == old(self).text(),
            old(self).head() is Some && is_digit(old(self).head()->Some_0) ==> {
                &&& outcome_view(Ok(token)) == number_at(old(self).text(), old(self).pos()).outcome
                &&& final(self).pos() == number_at(old(self).text(), old(self).pos()).next
            },
            !(old(self).head() is Some && is_digit(old(self).head()->Some_0)) ==> token is None
                && final(self).pos() == old(self).pos(),
    {
        let ghost start = self.pos();
        let ghost s = self.text();
        let mut literal: String = match self.next_while(digit) {
            Some(t) => t,
            None => {
                return None;
            },
        };
        let ghost whole = self.pos();
        proof {
            lemma_run_end(s, start, digits());
            assert(is_run(s, start, whole, digits()));
        }
        let point: bool = match self.source.peek() {
            Some(c) => c == '.',
            None => false,
        };
        let fraction: bool = match self.source.peek_at(1) {
            Some(c) => digit(c),
            None => false,
        };
        if point && fraction {
            self.source.advance();
            literal.push('.');
            match self.next_while(digit) {
                Some(t) => {
                    literal.append(t.as_str());
                },
                None => {},
            }
            proof {
                lemma_run_end(s, whole + 1, digits());
                assert(is_run(s, whole + 1, self.pos(), digits()));
                assert(literal@ =~= s.subrange(start, self.pos()));
            }
        }
        Some(Token::Number(literal))
    }

    /// Reads an identifier or a keyword. Where the cursor is not on a
    /// character that may begin one, nothing is read.
    pub fn scan_ident_or_keyword(&mut self) -> (token: Option<Token>)
        requires
            old(self).wf(),
        ensures
            final(self).wf(),
            final(self).text() == old(self).text(),
            old(self).head() is Some && is_word_start(old(self).head()->Some_0) ==> {
                &&& outcome_view(Ok(token)) == word_at(old(self).text(), old(self).pos()).outcome
                &&& final(self).pos() == word_at(old(self).text(), old(self).pos()).next
            },
            !(old(self).head() is Some && is_word_start(old(self).head()->Some_0)) ==> token is None
                && final(self).pos() == old(self).pos(),
    {
        let ghost start = self.pos();
        let ghost s = self.text();
        let first: char = match self.next_if(word_start) {
            Some(c) => c,
            None => {
                return None;
            },
        };
        let mut word: String = String::new();
        word.push(first);
        match self.next_while(word_part) {
            Some(t) => {
                word.append(t.as_str());
            },
            None => {},
        }
        proof {
            lemma_run_end(s, start + 1, word_parts());
            assert(is_run(s, start + 1, self.pos(), word_parts()));
            assert(word@ =~= s.subrange(start, self.pos()));
        }
        match Keyword::lookup(word.as_str()) {
            Some(k) => Some(Token::Keyword(k)),
            None => Some(Token::Ident(word)),
        }
    }

    /// Reads a symbol, the longer one where two fit. At the end of the
    /// input nothing is read; a character that begins no symbol is an error.
    pub fn scan_symbol(&mut self) -> (r: Result<Option<Token>, LexError>)
        requires
            old(self).wf(),
        ensures
            final(self).wf(),
            final(self).text() == old(self).text(),
            old(self).head() is Some ==> {
                &&& outcome_view(r) == symbol_at(old(self).text(), old(self).pos()).outcome
                &&& final(self).pos() == symbol_at(old(self).text(), old(self).pos()).next
            },
            old(self).head() is None ==> r == Ok::<Option<Token>, LexError>(None)
                && final(self).pos() == old(self).pos(),
    {
        let first: char = match self.source.peek() {
            Some(c) => c,
            None => {
                return Ok(None);
            },
        };
        let two: Option<Symbol> = match self.source.peek_at(1) {
            Some(second) => pair(first, second),
            None => None,
        };
        match two {
            Some(sym) => {
                self.source.advance();
                self.source.advance();
                Ok(Some(Token::Symbol(sym)))
            },
            None => match single(first) {
                Some(sym) => {
                    self.source.advance();
                    Ok(Some(Token::Symbol(sym)))
                },
                None => Err(LexError::UnexpectedCharacter(first, self.source.position())),
            },
        }
    }

    /// Reads the next token: `Ok(None)` where only blanks remain, an error
    /// where the text holds no token at the cursor.
    pub fn scan(&mut self) -> (r: Result<Option<Token>, LexError>)
        requires
            old(self).wf(),
        ensures
            final(self).wf(),
            final(self).text() == old(self).text(),
            outcome_view(r) == scan_at(old(self).text(), old(self).pos()).outcome,
            final(self).pos() == scan_at(old(self).text(), old(self).pos()).next,
    {
        self.erase_whitespace();
        match self.source.peek() {
            None => Ok(None),
            Some(c) => {
                if c == '\'' {
                    self.scan_string()
                } else if digit(c) {
                    Ok(self.scan_number())
                } else if word_start(c) {
                    Ok(self.scan_ident_or_keyword())
                } else {
                    self.scan_symbol()
                }
            },
        }
    }
}

} // verus!
