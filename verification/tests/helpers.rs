use sql_lexer::chars::{digit, space, to_lower, word_part, word_start};
use sql_lexer::lexer::{pair, quote, single, Lexer};
use sql_lexer::source::CharSource;
use sql_lexer::token::{spells, LexError, Symbol, Token};

#[test]
fn source_peeks_without_consuming() {
    let mut source = CharSource::new("ab");
    assert_eq!(source.peek(), Some('a'));
    assert_eq!(source.peek(), Some('a'));
    assert_eq!(source.peek_at(1), Some('b'));
    assert_eq!(source.peek_at(2), None);
    assert_eq!(source.position(), 0);
    assert_eq!(source.advance(), Some('a'));
    assert_eq!(source.position(), 1);
    assert_eq!(source.advance(), Some('b'));
    assert_eq!(source.peek(), None);
    assert_eq!(source.advance(), None);
    assert_eq!(source.position(), 2);
}

#[test]
fn source_over_empty_text() {
    let mut source = CharSource::new("");
    assert_eq!(source.peek(), None);
    assert_eq!(source.advance(), None);
    assert_eq!(source.position(), 0);
    assert_eq!(source.peek_at(usize::MAX), None);
}

#[test]
fn source_counts_characters() {
    let mut source = CharSource::new("\u{e9}x\u{540d}");
    assert_eq!(source.peek_at(2), Some('\u{540d}'));
    assert_eq!(source.advance(), Some('\u{e9}'));
    assert_eq!(source.advance(), Some('x'));
    assert_eq!(source.advance(), Some('\u{540d}'));
    assert_eq!(source.advance(), None);
    assert_eq!(source.position(), 3);
}

#[test]
fn next_if_takes_one_accepted_character() {
    let mut lexer = Lexer::new("a1");
    assert_eq!(lexer.next_if(|c| c == 'b'), None);
    assert_eq!(lexer.position(), 0);
    assert_eq!(lexer.next_if(|c| c == 'a'), Some('a'));
    assert_eq!(lexer.position(), 1);
    assert_eq!(lexer.next_if(digit), Some('1'));
    assert_eq!(lexer.next_if(|_| true), None);
    assert_eq!(lexer.position(), 2);
}

#[test]
fn next_while_takes_the_longest_run() {
    let mut lexer = Lexer::new("123abc");
    assert_eq!(lexer.next_while(|c| c.is_alphabetic()), None);
    assert_eq!(lexer.position(), 0);
    assert_eq!(lexer.next_while(|c| c.is_ascii_digit()), Some("123".to_string()));
    assert_eq!(lexer.position(), 3);
    assert_eq!(lexer.next_while(|_| true), Some("abc".to_string()));
    assert_eq!(lexer.next_while(|_| true), None);
}

#[test]
fn erase_whitespace_stops_at_the_token() {
    let mut lexer = Lexer::new(" \t\n\rx ");
    lexer.erase_whitespace();
    assert_eq!(lexer.position(), 4);
    lexer.erase_whitespace();
    assert_eq!(lexer.position(), 4);
}

#[test]
fn scanners_read_nothing_elsewhere() {
    let mut lexer = Lexer::new("x");
    assert_eq!(lexer.scan_string(), Ok(None));
    assert_eq!(lexer.scan_number(), None);
    assert_eq!(lexer.position(), 0);
    let mut lexer = Lexer::new("1");
    assert_eq!(lexer.scan_ident_or_keyword(), None);
    assert_eq!(lexer.position(), 0);
    let mut lexer = Lexer::new("");
    assert_eq!(lexer.scan_symbol(), Ok(None));
    assert_eq!(lexer.scan_string(), Ok(None));
}

#[test]
fn scanners_do_not_skip_blanks() {
    let mut lexer = Lexer::new(" 1");
    assert_eq!(lexer.scan_number(), None);
    assert_eq!(lexer.scan_symbol(), Err(LexError::UnexpectedCharacter(' ', 0)));
    assert_eq!(lexer.position(), 0);
}

#[test]
fn scan_symbol_leaves_the_cursor_on_a_fault() {
    let mut lexer = Lexer::new("(#");
    assert_eq!(lexer.scan_symbol(), Ok(Some(Token::Symbol(Symbol::OpenParen))));
    assert_eq!(lexer.scan_symbol(), Err(LexError::UnexpectedCharacter('#', 1)));
    assert_eq!(lexer.position(), 1);
}

#[test]
fn scan_number_stops_after_the_fraction() {
    let mut lexer = Lexer::new("12.50.1");
    assert_eq!(lexer.scan_number(), Some(Token::Number("12.50".to_string())));
    assert_eq!(lexer.position(), 5);
}

#[test]
fn character_classes() {
    assert!(space(' ') && space('\t') && space('\n') && space('\r'));
    assert!(!space('\u{b}') && !space('\u{c}') && !space('a'));
    assert!(digit('0') && digit('9') && !digit('/') && !digit(':'));
    assert!(word_start('a') && word_start('_') && word_start('\u{e9}') && !word_start('1'));
    assert!(word_part('a') && word_part('_') && word_part('1') && !word_part('-'));
    assert!(quote('\'') && !quote('"'));
}

#[test]
fn lower_case_of_ascii_capitals() {
    assert_eq!(to_lower('A'), 'a');
    assert_eq!(to_lower('Z'), 'z');
    assert_eq!(to_lower('a'), 'a');
    assert_eq!(to_lower('@'), '@');
    assert_eq!(to_lower('['), '[');
    assert_eq!(to_lower('\u{c9}'), '\u{c9}');
}

#[test]
fn spells_ignores_ascii_case() {
    assert!(spells("FrOm", "from"));
    assert!(spells("", ""));
    assert!(!spells("fro", "from"));
    assert!(!spells("from", "From"));
    assert!(!spells("form", "from"));
}

#[test]
fn symbol_tables() {
    assert_eq!(pair('<', '='), Some(Symbol::LessEqual));
    assert_eq!(pair('<', '>'), Some(Symbol::NotEqual));
    assert_eq!(pair('>', '='), Some(Symbol::GreaterEqual));
    assert_eq!(pair('!', '='), Some(Symbol::NotEqual));
    assert_eq!(pair('=', '='), None);
    assert_eq!(pair('>', '<'), None);
    assert_eq!(single('*'), Some(Symbol::Asterisk));
    assert_eq!(single('!'), None);
    assert_eq!(single('#'), None);
}
