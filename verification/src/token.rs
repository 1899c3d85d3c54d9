//! The tokens of the dialect, and the table of reserved words.

use vstd::prelude::*;
use crate::chars::{lower, to_lower};

verus! {

/// A reserved word.
#[derive(Clone, Copy, Debug, PartialEq, Eq, Structural)]
pub enum Keyword {
    Create,
    Table,
    Insert,
    Into,
    Values,
    Select,
    From,
    Where,
    And,
    Or,
    Not,
    Null,
}

/// A punctuation mark or an operator.
#[derive(Clone, Copy, Debug, PartialEq, Eq, Structural)]
pub enum Symbol {
    OpenParen,
    CloseParen,
    Comma,
    Semicolon,
    Dot,
    Plus,
    Minus,
    Asterisk,
    Slash,
    Equal,
    NotEqual,
    Less,
    LessEqual,
    Greater,
    GreaterEqual,
}

/// One lexical unit.
#[derive(Clone, Debug, PartialEq, Eq)]
pub enum Token {
    /// A reserved word, whatever its casing in the source.
    Keyword(Keyword),
    /// An identifier, spelled as in the source.
    Ident(String),
    /// The content of a quoted literal: delimiters removed, each doubled
    /// quote resolved to one.
    String(String),
    /// The digits of a numeric literal, with at most one decimal point.
    Number(String),
    /// A punctuation mark or an operator.
    Symbol(Symbol),
}

/// What a `Token` stands for in contracts.
pub ghost enum TokenView {
    Keyword(Keyword),
    Ident(Seq<char>),
    String(Seq<char>),
    Number(Seq<char>),
    Symbol(Symbol),
}

impl View for Token {
    type V = TokenView;

    open spec fn view(&self) -> TokenView {
        match self {
            Token::Keyword(k) => TokenView::Keyword(*k),
            Token::Ident(t) => TokenView::Ident(t@),
            Token::String(t) => TokenView::String(t@),
            Token::Number(t) => TokenView::Number(t@),
            Token::Symbol(s) => TokenView::Symbol(*s),
        }
    }
}

/// Why scanning stopped short of a token.
#[derive(Clone, Copy, Debug, PartialEq, Eq, Structural)]
pub enum LexError {
    /// The input ended inside a quoted literal.
    UnterminatedString,
    /// A character that begins no token, with its offset in characters.
    UnexpectedCharacter(char, usize),
}

/// `text` with every ASCII capital replaced by its small letter.
pub open spec fn fold_case(text: Seq<char>) -> Seq<char> {
    text.map_values(|c: char| lower(c))
}

impl Keyword {
    /// The word in small letters.
    pub open spec fn spelling(self) -> Seq<char> {
        match self {
            Keyword::Create => "create"@,
            Keyword::Table => "table"@,
            Keyword::Insert => "insert"@,
            Keyword::Into => "into"@,
            Keyword::Values => "values"@,
            Keyword::Select => "select"@,
            Keyword::From => "from"@,
            Keyword::Where => "where"@,
            Keyword::And => "and"@,
            Keyword::Or => "or"@,
            Keyword::Not => "not"@,
            Keyword::Null => "null"@,
        }
    }

    /// The word in small letters.
    pub fn name(self) -> (s: &'static str)
        ensures
            s@ == self.spelling(),
    {
        match self {
            Keyword::Create => "create",
            Keyword::Table => "table",
            Keyword::Insert => "insert",
            Keyword::Into => "into",
            Keyword::Values => "values",
            Keyword::Select => "select",
            Keyword::From => "from",
            Keyword::Where => "where",
            Keyword::And => "and",
            Keyword::Or => "or",
            Keyword::Not => "not",
            Keyword::Null => "null",
        }
    }

    /// The reserved word that `text` spells when casing is ignored, if any.
    pub open spec fn of(text: Seq<char>) -> Option<Keyword> {
        let word = fold_case(text);
        if word == Keyword::Create.spelling() {
            Some(Keyword::Create)
        } else if word == Keyword::Table.spelling() {
            Some(Keyword::Table)
        } else if word == Keyword::Insert.spelling() {
            Some(Keyword::Insert)
        } else if word == Keyword::Into.spelling() {
            Some(Keyword::Into)
        } else if word == Keyword::Values.spelling() {
            Some(Keyword::Values)
        } else if word == Keyword::Select.spelling() {
            Some(Keyword::Select)
        } else if word == Keyword::From.spelling() {
            Some(Keyword::From)
        } else if word == Keyword::Where.spelling() {
            Some(Keyword::Where)
        } else if word == Keyword::And.spelling() {
            Some(Keyword::And)
        } else if word == Keyword::Or.spelling() {
            Some(Keyword::Or)
        } else if word == Keyword::Not.spelling() {
            Some(Keyword::Not)
        } else if word == Keyword::Null.spelling() {
            Some(Keyword::Null)
        } else {
            None
        }
    }

    /// Looks `text` up in the table of reserved words, ignoring ASCII case.
    pub fn lookup(text: &str) -> (found: Option<Keyword>)
        ensures
            found == Keyword::of(text@),
    {
        if spells(text, Keyword::Create.name()) {
            Some(Keyword::Create)
        } else if spells(text, Keyword::Table.name()) {
            Some(Keyword::Table)
        } else if spells(text, Keyword::Insert.name()) {
            Some(Keyword::Insert)
        } else if spells(text, Keyword::Into.name()) {
            Some(Keyword::Into)
        } else if spells(text, Keyword::Values.name()) {
            Some(Keyword::Values)
        } else if spells(text, Keyword::Select.name()) {
            Some(Keyword::Select)
        } else if spells(text, Keyword::From.name()) {
            Some(Keyword::From)
        } else if spells(text, Keyword::Where.name()) {
            Some(Keyword::Where)
        } else if spells(text, Keyword::And.name()) {
            Some(Keyword::And)
        } else if spells(text, Keyword::Or.name()) {
            Some(Keyword::Or)
        } else if spells(text, Keyword::Not.name()) {
            Some(Keyword::Not)
        } else if spells(text, Keyword::Null.name()) {
            Some(Keyword::Null)
        } else {
            None
        }
    }
}

/// Whether `text`, with its ASCII capitals made small, is `word`.
pub fn spells(text: &str, word: &str) -> (same: bool)
    ensures
        same == (fold_case(text@) == word@),
{
    let n: usize = text.unicode_len();
    if n != word.unicode_len() {
        return false;
    }
    let mut i: usize = 0;
    while i < n
        invariant
            n == text@.len(),
            n == word@.len(),
            i <= n,
            forall|j: int| 0 <= j < i ==> lower(text@[j]) == word@[j],
        decreases n - i,
    {
        if to_lower(text.get_char(i)) != word.get_char(i) {
            assert(fold_case(text@)[i as int] != word@[i as int]);
            return false;
        }
        i += 1;
    }
    assert(fold_case(text@) =~= word@);
    true
}

} // verus!
