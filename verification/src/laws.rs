//! What holds of every text: laws of the grammar, proved once.

use vstd::prelude::*;
use crate::chars::{is_digit, is_space, is_word_part, is_word_start};
use crate::grammar::{
    blanks, digits, is_run, lemma_run_end, lemma_scan_progress, lemma_string_from_bounds,
    number_at, number_end, pair_symbol, run_end, scan_all, scan_at, single_symbol, string_at,
    string_from, token_start, word_parts, Step,
};
use crate::token::{fold_case, Keyword, LexError, TokenView};

verus! {

/// No two reserved words are spelled alike.
pub proof fn law_spellings_differ(a: Keyword, b: Keyword)
    requires
        a != b,
    ensures
        a.spelling() != b.spelling(),
{
    reveal_strlit("create");
    reveal_strlit("table");
    reveal_strlit("insert");
    reveal_strlit("into");
    reveal_strlit("values");
    reveal_strlit("select");
    reveal_strlit("from");
    reveal_strlit("where");
    reveal_strlit("and");
    reveal_strlit("or");
    reveal_strlit("not");
    reveal_strlit("null");
    if a.spelling().len() == b.spelling().len() {
        assert(a.spelling()[0] != b.spelling()[0] || a.spelling()[1] != b.spelling()[1]);
    }
}

/// A text is a reserved word exactly when, with its ASCII capitals made
/// small, it is that word's spelling.
pub proof fn law_keyword_ignores_case(text: Seq<char>, k: Keyword)
    ensures
        Keyword::of(text) == Some(k) <==> fold_case(text) == k.spelling(),
{
    if fold_case(text) == k.spelling() {
        match Keyword::of(text) {
            Some(other) => {
                if other != k {
                    law_spellings_differ(other, k);
                }
            },
            None => {},
        }
    }
}

/// Two texts that differ in ASCII case only are the same reserved word, or
/// both none.
pub proof fn law_keyword_same_in_any_case(a: Seq<char>, b: Seq<char>)
    requires
        fold_case(a) == fold_case(b),
    ensures
        Keyword::of(a) == Keyword::of(b),
{
}

/// The scan from `pos` finds a word: past the blanks stands a character
/// that may begin one and begins neither a literal nor a number.
pub open spec fn reads_word(s: Seq<char>, pos: int) -> bool {
    let start = token_start(s, pos);
    &&& 0 <= pos <= start < s.len()
    &&& s[start] != '\''
    &&& !is_digit(s[start])
    &&& is_word_start(s[start])
}

/// The word that the scan from `pos` reads, as the text spells it.
pub open spec fn word_text(s: Seq<char>, pos: int) -> Seq<char> {
    let start = token_start(s, pos);
    s.subrange(start, run_end(s, start + 1, word_parts()))
}

/// A word that spells a reserved word, in whatever casing, is scanned as
/// that keyword and not as an identifier.
pub proof fn law_reserved_word_is_keyword(s: Seq<char>, pos: int, k: Keyword)
    requires
        reads_word(s, pos),
        fold_case(word_text(s, pos)) == k.spelling(),
    ensures
        scan_at(s, pos).outcome == Ok::<Option<TokenView>, LexError>(Some(TokenView::Keyword(k))),
{
    law_keyword_ignores_case(word_text(s, pos), k);
}

/// A word that spells no reserved word is scanned as an identifier with
/// the very characters of the text, casing included.
pub proof fn law_identifier_keeps_text(s: Seq<char>, pos: int)
    requires
        reads_word(s, pos),
        forall|k: Keyword| fold_case(word_text(s, pos)) != k.spelling(),
    ensures
        scan_at(s, pos).outcome == Ok::<Option<TokenView>, LexError>(
            Some(TokenView::Ident(word_text(s, pos))),
        ),
{
    match Keyword::of(word_text(s, pos)) {
        Some(k) => {
            law_keyword_ignores_case(word_text(s, pos), k);
        },
        None => {},
    }
}

/// A word starts with a character that may begin one, continues with
/// characters that may continue one, and ends where the next character
/// may not.
pub proof fn law_word_shape(s: Seq<char>, pos: int)
    requires
        reads_word(s, pos),
    ensures
        word_text(s, pos).len() >= 1,
        is_word_start(word_text(s, pos)[0]),
        forall|i: int| 1 <= i < word_text(s, pos).len() ==> is_word_part(word_text(s, pos)[i]),
        scan_at(s, pos).next == token_start(s, pos) + word_text(s, pos).len(),
        scan_at(s, pos).next < s.len() ==> !is_word_part(s[scan_at(s, pos).next]),
{
    let start = token_start(s, pos);
    lemma_run_end(s, start + 1, word_parts());
    let end = run_end(s, start + 1, word_parts());
    assert(is_run(s, start + 1, end, word_parts()));
    assert forall|i: int| 1 <= i < word_text(s, pos).len() implies is_word_part(
        word_text(s, pos)[i],
    ) by {
        assert(word_parts()(s[start + i]));
    }
}

/// A text of blanks alone holds no token: the first scan reports the end
/// of the input, at the end of the text, and the token sequence is empty.
pub proof fn law_blank_text_has_no_tokens(s: Seq<char>)
    requires
        forall|i: int| 0 <= i < s.len() ==> is_space(s[i]),
    ensures
        scan_at(s, 0).outcome == Ok::<Option<TokenView>, LexError>(None),
        scan_at(s, 0).next == s.len(),
        scan_all(s, 0) == Ok::<Seq<TokenView>, LexError>(Seq::empty()),
{
    lemma_run_end(s, 0, blanks());
    assert(is_run(s, 0, s.len() as int, blanks()));
}

/// A scan reports the end of the input exactly when only blanks remain,
/// and then the cursor stands at the end of the text.
pub proof fn law_end_only_after_blanks(s: Seq<char>, pos: int)
    requires
        0 <= pos <= s.len(),
    ensures
        scan_at(s, pos).outcome == Ok::<Option<TokenView>, LexError>(None) <==> (forall|i: int|
            pos <= i < s.len() ==> is_space(s[i])),
        scan_at(s, pos).outcome == Ok::<Option<TokenView>, LexError>(None) ==> scan_at(s, pos).next
            == s.len(),
{
    lemma_run_end(s, pos, blanks());
    let start = token_start(s, pos);
    assert(is_run(s, pos, start, blanks()));
    if start < s.len() {
        assert(!is_space(s[start]));
        if s[start] == '\'' {
            lemma_string_from_bounds(s, start + 1, Seq::empty());
        }
    } else {
        assert forall|i: int| pos <= i < s.len() implies is_space(s[i]) by {
            assert(blanks()(s[i]));
        }
    }
}

/// Every scan moves the cursor forward within the text; one that yields a
/// token consumes at least one character.
pub proof fn law_scan_makes_progress(s: Seq<char>, pos: int)
    requires
        0 <= pos <= s.len(),
    ensures
        pos <= scan_at(s, pos).next <= s.len(),
        scan_at(s, pos).outcome is Ok && scan_at(s, pos).outcome->Ok_0 is Some ==> pos < scan_at(
            s,
            pos,
        ).next,
{
    lemma_scan_progress(s, pos);
}

/// An unexpected character is reported with its own offset: it is the
/// first character past the blanks, it begins no token, and the cursor
/// stays on it.
pub proof fn law_fault_names_its_character(s: Seq<char>, pos: int, c: char, at: usize)
    requires
        0 <= pos <= s.len() <= usize::MAX,
        scan_at(s, pos).outcome == Err::<Option<TokenView>, LexError>(
            LexError::UnexpectedCharacter(c, at),
        ),
    ensures
        at == token_start(s, pos),
        at < s.len(),
        s[at as int] == c,
        scan_at(s, pos).next == at,
        !is_space(c) && c != '\'' && !is_digit(c) && !is_word_start(c),
        single_symbol(c) is None,
{
    lemma_run_end(s, pos, blanks());
    let start = token_start(s, pos);
    assert(is_run(s, pos, start, blanks()));
    if start < s.len() {
        assert(!blanks()(s[start]));
        if s[start] == '\'' {
            lemma_string_from_bounds(s, start + 1, Seq::empty());
        }
    }
}

/// Where two characters spell an operator, the scan reads both as one
/// symbol and not the first alone.
pub proof fn law_longest_symbol_wins(s: Seq<char>, pos: int)
    requires
        0 <= pos <= s.len(),
        token_start(s, pos) + 1 < s.len(),
        !is_word_start(s[token_start(s, pos)]),
        pair_symbol(s[token_start(s, pos)], s[token_start(s, pos) + 1]) is Some,
    ensures
        scan_at(s, pos) == (Step {
            outcome: Ok(
                Some(
                    TokenView::Symbol(
                        pair_symbol(s[token_start(s, pos)], s[token_start(s, pos) + 1])->Some_0,
                    ),
                ),
            ),
            next: token_start(s, pos) + 2,
        }),
{
    lemma_run_end(s, pos, blanks());
}

/// A text holds at most as many tokens as characters.
pub proof fn law_token_count_bounded(s: Seq<char>, pos: int)
    requires
        0 <= pos <= s.len(),
    ensures
        scan_all(s, pos) is Ok ==> scan_all(s, pos)->Ok_0.len() <= s.len() - pos,
    decreases s.len() - pos,
{
    lemma_scan_progress(s, pos);
    let step = scan_at(s, pos);
    if step.outcome is Ok && step.outcome->Ok_0 is Some {
        law_token_count_bounded(s, step.next);
    }
}

/// A literal with no quote between its delimiters is the text between
/// them, and the scan ends just past the closing quote.
pub proof fn law_plain_literal(s: Seq<char>, start: int, end: int)
    requires
        0 <= start < end < s.len(),
        s[start] == '\'',
        s[end] == '\'',
        forall|i: int| start < i < end ==> s[i] != '\'',
        end + 1 < s.len() ==> s[end + 1] != '\'',
    ensures
        string_at(s, start) == (Step {
            outcome: Ok(Some(TokenView::String(s.subrange(start + 1, end)))),
            next: end + 1,
        }),
{
    lemma_plain_from(s, start + 1, end, Seq::empty());
    assert(Seq::<char>::empty() + s.subrange(start + 1, end) =~= s.subrange(start + 1, end));
}

proof fn lemma_plain_from(s: Seq<char>, i: int, end: int, text: Seq<char>)
    requires
        0 <= i <= end < s.len(),
        s[end] == '\'',
        forall|j: int| i <= j < end ==> s[j] != '\'',
        end + 1 < s.len() ==> s[end + 1] != '\'',
    ensures
        string_from(s, i, text) == (Step {
            outcome: Ok(Some(TokenView::String(text + s.subrange(i, end)))),
            next: end + 1,
        }),
    decreases end - i,
{
    if i < end {
        lemma_plain_from(s, i + 1, end, text.push(s[i]));
        assert(text.push(s[i]) + s.subrange(i + 1, end) =~= text + s.subrange(i, end));
    } else {
        assert(text + s.subrange(i, end) =~= text);
    }
}

/// A literal that is opened and holds no further quote is an error, and no
/// token comes of it.
pub proof fn law_unclosed_literal(s: Seq<char>, start: int)
    requires
        0 <= start < s.len(),
        s[start] == '\'',
        forall|i: int| start < i < s.len() ==> s[i] != '\'',
    ensures
        string_at(s, start).outcome == Err::<Option<TokenView>, LexError>(
            LexError::UnterminatedString,
        ),
{
    lemma_unclosed_from(s, start + 1, Seq::empty());
}

proof fn lemma_unclosed_from(s: Seq<char>, i: int, text: Seq<char>)
    requires
        0 <= i <= s.len(),
        forall|j: int| i <= j < s.len() ==> s[j] != '\'',
    ensures
        string_from(s, i, text).outcome == Err::<Option<TokenView>, LexError>(
            LexError::UnterminatedString,
        ),
    decreases s.len() - i,
{
    if i < s.len() {
        lemma_unclosed_from(s, i + 1, text.push(s[i]));
    }
}

/// A literal fails only for want of a closing quote, and never yields the
/// end of the input.
pub proof fn law_literal_outcomes(s: Seq<char>, start: int)
    requires
        0 <= start < s.len(),
    ensures
        start < string_at(s, start).next <= s.len(),
        match string_at(s, start).outcome {
            Ok(Some(TokenView::String(_))) => true,
            Err(LexError::UnterminatedString) => string_at(s, start).next == s.len(),
            _ => false,
        },
{
    lemma_literal_from(s, start + 1, Seq::empty());
}

proof fn lemma_literal_from(s: Seq<char>, i: int, text: Seq<char>)
    requires
        0 <= i <= s.len(),
    ensures
        i <= string_from(s, i, text).next <= s.len(),
        match string_from(s, i, text).outcome {
            Ok(Some(TokenView::String(_))) => true,
            Err(LexError::UnterminatedString) => string_from(s, i, text).next == s.len(),
            _ => false,
        },
    decreases s.len() - i,
{
    if i >= s.len() {
    } else if s[i] != '\'' {
        lemma_literal_from(s, i + 1, text.push(s[i]));
    } else if i + 1 < s.len() && s[i + 1] == '\'' {
        lemma_literal_from(s, i + 2, text.push('\''));
    }
}

/// A numeric literal is made of digits and at most one point, begins and
/// ends with a digit, and is followed neither by a digit nor by a point
/// with a digit behind it unless the literal already holds a point.
pub proof fn law_number_shape(s: Seq<char>, start: int)
    requires
        0 <= start < s.len(),
        is_digit(s[start]),
    ensures
        start < number_end(s, start) <= s.len(),
        number_at(s, start).next == number_end(s, start),
        forall|i: int| start <= i < number_end(s, start) ==> is_digit(s[i]) || s[i] == '.',
        forall|i: int, j: int|
            start <= i < j < number_end(s, start) ==> !(s[i] == '.' && s[j] == '.'),
        is_digit(s[number_end(s, start) - 1]),
        number_end(s, start) < s.len() ==> !is_digit(s[number_end(s, start)]),
        (forall|i: int| start <= i < number_end(s, start) ==> s[i] != '.') && number_end(s, start)
            + 1 < s.len() && s[number_end(s, start)] == '.' ==> !is_digit(
            s[number_end(s, start) + 1],
        ),
{
    lemma_run_end(s, start, digits());
    let whole = run_end(s, start, digits());
    assert(is_run(s, start, whole, digits()));
    assert(whole > start) by {
        if whole == start {
            assert(!is_digit(s[whole]));
        }
    }
    assert(digits()(s[whole - 1]));
    assert forall|i: int| start <= i < whole implies is_digit(s[i]) by {
        assert(digits()(s[i]));
    }
    if whole + 1 < s.len() && s[whole] == '.' && is_digit(s[whole + 1]) {
        lemma_run_end(s, whole + 1, digits());
        let end = run_end(s, whole + 1, digits());
        assert(is_run(s, whole + 1, end, digits()));
        assert(end > whole + 1) by {
            if end == whole + 1 {
                assert(!is_digit(s[end]));
            }
        }
        assert(digits()(s[end - 1]));
        assert forall|i: int| whole < i < end implies is_digit(s[i]) by {
            assert(digits()(s[i]));
        }
        assert(s[whole] == '.');
    }
}

} // verus!
