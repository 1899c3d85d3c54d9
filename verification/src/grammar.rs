//! The lexical grammar as mathematics: where each token of a text ends and
//! what it is.

use vstd::prelude::*;
use crate::chars::{is_digit, is_space, is_word_part, is_word_start};
use crate::token::{Keyword, LexError, Symbol, TokenView};

verus! {

/// The result of one scan from a position: a token, the end of the input
/// (`Ok(None)`) or an error, and the position of the cursor afterwards.
pub ghost struct Step {
    pub outcome: Result<Option<TokenView>, LexError>,
    pub next: int,
}

/// The class of blanks, as a predicate.
pub open spec fn blanks() -> spec_fn(char) -> bool {
    |c: char| is_space(c)
}

/// The class of digits, as a predicate.
pub open spec fn digits() -> spec_fn(char) -> bool {
    |c: char| is_digit(c)
}

/// The class of characters that continue a word, as a predicate.
pub open spec fn word_parts() -> spec_fn(char) -> bool {
    |c: char| is_word_part(c)
}

/// The end of the longest run of characters that satisfy `class`, from `from`.
pub open spec fn run_end(s: Seq<char>, from: int, class: spec_fn(char) -> bool) -> int
    decreases s.len() - from,
{
    if 0 <= from < s.len() && class(s[from]) {
        run_end(s, from + 1, class)
    } else {
        from
    }
}

/// `end` closes the longest run of `class` characters from `from`: all of
/// `from..end` are in the class, and the character at `end`, if any, is not.
pub open spec fn is_run(s: Seq<char>, from: int, end: int, class: spec_fn(char) -> bool) -> bool {
    &&& from <= end <= s.len()
    &&& forall|i: int| from <= i < end ==> class(#[trigger] s[i])
    &&& end < s.len() ==> !class(s[end])
}

/// `run_end` is the one position that closes the longest run.
pub proof fn lemma_run_end(s: Seq<char>, from: int, class: spec_fn(char) -> bool)
    requires
        0 <= from <= s.len(),
    ensures
        is_run(s, from, run_end(s, from, class), class),
        forall|end: int| is_run(s, from, end, class) ==> end == run_end(s, from, class),
    decreases s.len() - from,
{
    if from < s.len() && class(s[from]) {
        lemma_run_end(s, from + 1, class);
        let e = run_end(s, from, class);
        assert forall|end: int| is_run(s, from, end, class) implies end == e by {
            if end == from {
                assert(!class(s[end]));
            } else {
                assert(is_run(s, from + 1, end, class));
            }
        }
    } else {
        assert forall|end: int| is_run(s, from, end, class) implies end == from by {
            if end > from {
                assert(class(s[from]));
            }
        }
    }
}

/// The quoted literal whose content starts at `i`, the characters resolved
/// so far being `text`. A doubled quote stands for one quote; a single one
/// ends the literal; the end of the input before that is an error.
pub open spec fn string_from(s: Seq<char>, i: int, text: Seq<char>) -> Step
    decreases s.len() - i,
{
    if i < 0 || i >= s.len() {
        Step { outcome: Err(LexError::UnterminatedString), next: s.len() as int }
    } else if s[i] != '\'' {
        string_from(s, i + 1, text.push(s[i]))
    } else if i + 1 < s.len() && s[i + 1] == '\'' {
        string_from(s, i + 2, text.push('\''))
    } else {
        Step { outcome: Ok(Some(TokenView::String(text))), next: i + 1 }
    }
}

/// The quoted literal that opens at `start`.
pub open spec fn string_at(s: Seq<char>, start: int) -> Step {
    string_from(s, start + 1, Seq::empty())
}

/// Where the numeric literal that starts at `start` ends: after the digits,
/// and after a point and further digits where a digit follows the point.
pub open spec fn number_end(s: Seq<char>, start: int) -> int {
    let whole = run_end(s, start, digits());
    if whole + 1 < s.len() && s[whole] == '.' && is_digit(s[whole + 1]) {
        run_end(s, whole + 1, digits())
    } else {
        whole
    }
}

/// The numeric literal that starts at `start`, spelled as in the text. A
/// second point is never part of it: `1.2.3` is `1.2`, a point and `3`.
pub open spec fn number_at(s: Seq<char>, start: int) -> Step {
    let end = number_end(s, start);
    Step { outcome: Ok(Some(TokenView::Number(s.subrange(start, end)))), next: end }
}

/// The identifier or keyword that starts at `start`.
pub open spec fn word_at(s: Seq<char>, start: int) -> Step {
    let end = run_end(s, start + 1, word_parts());
    let text = s.subrange(start, end);
    let token = match Keyword::of(text) {
        Some(k) => TokenView::Keyword(k),
        None => TokenView::Ident(text),
    };
    Step { outcome: Ok(Some(token)), next: end }
}

/// The operator written with the two characters `a` and `b`, if there is one.
pub open spec fn pair_symbol(a: char, b: char) -> Option<Symbol> {
    if a == '<' && b == '=' {
        Some(Symbol::LessEqual)
    } else if a == '<' && b == '>' {
        Some(Symbol::NotEqual)
    } else if a == '>' && b == '=' {
        Some(Symbol::GreaterEqual)
    } else if a == '!' && b == '=' {
        Some(Symbol::NotEqual)
    } else {
        None
    }
}

/// The symbol written with the one character `c`, if there is one.
pub open spec fn single_symbol(c: char) -> Option<Symbol> {
    if c == '(' {
        Some(Symbol::OpenParen)
    } else if c == ')' {
        Some(Symbol::CloseParen)
    } else if c == ',' {
        Some(Symbol::Comma)
    } else if c == ';' {
        Some(Symbol::Semicolon)
    } else if c == '.' {
        Some(Symbol::Dot)
    } else if c == '+' {
        Some(Symbol::Plus)
    } else if c == '-' {
        Some(Symbol::Minus)
    } else if c == '*' {
        Some(Symbol::Asterisk)
    } else if c == '/' {
        Some(Symbol::Slash)
    } else if c == '=' {
        Some(Symbol::Equal)
    } else if c == '<' {
        Some(Symbol::Less)
    } else if c == '>' {
        Some(Symbol::Greater)
    } else {
        None
    }
}

/// The symbol at `start`, the longer one where two fit. A character that
/// begins none is an error, and the cursor stays on it.
pub open spec fn symbol_at(s: Seq<char>, start: int) -> Step {
    let two = if start + 1 < s.len() {
        pair_symbol(s[start], s[start + 1])
    } else {
        None
    };
    match two {
        Some(sym) => Step { outcome: Ok(Some(TokenView::Symbol(sym))), next: start + 2 },
        None => match single_symbol(s[start]) {
            Some(sym) => Step { outcome: Ok(Some(TokenView::Symbol(sym))), next: start + 1 },
            None => Step {
                outcome: Err(LexError::UnexpectedCharacter(s[start], start as usize)),
                next: start,
            },
        },
    }
}

/// Where the token after `pos` begins: past the blanks.
pub open spec fn token_start(s: Seq<char>, pos: int) -> int {
    run_end(s, pos, blanks())
}

/// One scan from `pos`: blanks are skipped, and the first character after
/// them decides which kind of token is read.
pub open spec fn scan_at(s: Seq<char>, pos: int) -> Step {
    let start = token_start(s, pos);
    if start >= s.len() {
        Step { outcome: Ok(None), next: start }
    } else if s[start] == '\'' {
        string_at(s, start)
    } else if is_digit(s[start]) {
        number_at(s, start)
    } else if is_word_start(s[start]) {
        word_at(s, start)
    } else {
        symbol_at(s, start)
    }
}

/// A literal never ends before its content starts, nor past the text.
pub proof fn lemma_string_from_bounds(s: Seq<char>, i: int, text: Seq<char>)
    requires
        0 <= i <= s.len(),
    ensures
        i <= string_from(s, i, text).next <= s.len(),
        string_from(s, i, text).outcome is Err ==> string_from(s, i, text).outcome == Err::<
            Option<TokenView>,
            LexError,
        >(LexError::UnterminatedString),
        string_from(s, i, text).outcome is Ok ==> string_from(s, i, text).outcome->Ok_0 is Some,
    decreases s.len() - i,
{
    if i >= s.len() {
    } else if s[i] != '\'' {
        lemma_string_from_bounds(s, i + 1, text.push(s[i]));
    } else if i + 1 < s.len() && s[i + 1] == '\'' {
        lemma_string_from_bounds(s, i + 2, text.push('\''));
    }
}

/// A scan from inside the text moves the cursor forward within the text,
/// and past at least one character where it yields a token.
pub proof fn lemma_scan_progress(s: Seq<char>, pos: int)
    requires
        0 <= pos <= s.len(),
    ensures
        pos <= scan_at(s, pos).next <= s.len(),
        scan_at(s, pos).outcome is Ok && scan_at(s, pos).outcome->Ok_0 is Some ==> pos < scan_at(
            s,
            pos,
        ).next,
{
    let start = token_start(s, pos);
    lemma_run_end(s, pos, blanks());
    if start < s.len() {
        if s[start] == '\'' {
            lemma_string_from_bounds(s, start + 1, Seq::empty());
        } else if is_digit(s[start]) {
                        lemma_run_end(s, start, digits());
            let whole = run_end(s, start, digits());
            assert(whole > start) by {
                if whole == start {
                    assert(!is_digit(s[whole]));
                }
            }
            if whole + 1 < s.len() {
                lemma_run_end(s, whole + 1, digits());
            }
        } else if is_word_start(s[start]) {
            lemma_run_end(s, start + 1, word_parts());
        }
    }
}

/// Every token of the text from `pos` on, in order, or the first error.
pub open spec fn scan_all(s: Seq<char>, pos: int) -> Result<Seq<TokenView>, LexError>
    decreases s.len() - pos,
    when 0 <= pos <= s.len()
    via scan_all_terminates
{
    let step = scan_at(s, pos);
    match step.outcome {
        Err(e) => Err(e),
        Ok(None) => Ok(Seq::empty()),
        Ok(Some(token)) => match scan_all(s, step.next) {
            Ok(rest) => Ok(seq![token] + rest),
            Err(e) => Err(e),
        },
    }
}

#[via_fn]
proof fn scan_all_terminates(s: Seq<char>, pos: int) {
    lemma_scan_progress(s, pos);
}

} // verus!
