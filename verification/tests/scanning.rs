use sql_lexer::lexer::Lexer;
use sql_lexer::stream::{tokenize, TokenStream};
use sql_lexer::token::{Keyword, LexError, Symbol, Token};

fn ident(text: &str) -> Token {
    Token::Ident(text.to_string())
}

fn number(text: &str) -> Token {
    Token::Number(text.to_string())
}

fn string(text: &str) -> Token {
    Token::String(text.to_string())
}

#[test]
fn blank_text_has_no_tokens() {
    assert_eq!(tokenize(""), Ok(vec![]));
    assert_eq!(tokenize(" \t\r\n  "), Ok(vec![]));
    let mut lexer = Lexer::new("  \n\t ");
    assert_eq!(lexer.scan(), Ok(None));
    assert_eq!(lexer.position(), 5);
    assert_eq!(lexer.scan(), Ok(None));
}

#[test]
fn only_the_four_blanks_separate_tokens() {
    // A no-break space is no blank of the dialect.
    assert_eq!(tokenize("\u{a0}"), Err(LexError::UnexpectedCharacter('\u{a0}', 0)));
    assert_eq!(tokenize("a\tb\nc\rd e"), Ok(vec![ident("a"), ident("b"), ident("c"), ident("d"), ident("e")]));
}

#[test]
fn reserved_words_match_in_any_case() {
    for text in ["select", "SELECT", "SeLeCt", "  sELECT "] {
        assert_eq!(tokenize(text), Ok(vec![Token::Keyword(Keyword::Select)]));
    }
}

#[test]
fn every_reserved_word_is_recognised() {
    let table = [
        ("CREATE", Keyword::Create),
        ("Table", Keyword::Table),
        ("insert", Keyword::Insert),
        ("INTO", Keyword::Into),
        ("values", Keyword::Values),
        ("Select", Keyword::Select),
        ("FROM", Keyword::From),
        ("where", Keyword::Where),
        ("AND", Keyword::And),
        ("or", Keyword::Or),
        ("NoT", Keyword::Not),
        ("NULL", Keyword::Null),
    ];
    for (text, keyword) in table {
        assert_eq!(tokenize(text), Ok(vec![Token::Keyword(keyword)]));
        assert_eq!(Keyword::lookup(text), Some(keyword));
        assert_eq!(keyword.name(), text.to_ascii_lowercase());
    }
}

#[test]
fn near_misses_are_identifiers() {
    assert_eq!(tokenize("selects"), Ok(vec![ident("selects")]));
    assert_eq!(tokenize("selec"), Ok(vec![ident("selec")]));
    assert_eq!(tokenize("_select"), Ok(vec![ident("_select")]));
    assert_eq!(tokenize("nul1"), Ok(vec![ident("nul1")]));
    assert_eq!(Keyword::lookup("int"), None);
    assert_eq!(Keyword::lookup(""), None);
}

#[test]
fn identifiers_keep_their_casing() {
    assert_eq!(tokenize("MyTable"), Ok(vec![ident("MyTable")]));
    assert_eq!(tokenize("user_ID2"), Ok(vec![ident("user_ID2")]));
    assert_eq!(tokenize("_x"), Ok(vec![ident("_x")]));
    assert_eq!(tokenize("INT"), Ok(vec![ident("INT")]));
}

#[test]
fn identifiers_may_hold_letters_beyond_ascii() {
    assert_eq!(tokenize("caf\u{e9} \u{540d}\u{524d}1"), Ok(vec![ident("caf\u{e9}"), ident("\u{540d}\u{524d}1")]));
    // Case is folded for ASCII only: a Kelvin sign is not a `k`.
    assert_eq!(tokenize("\u{212a}"), Ok(vec![ident("\u{212a}")]));
}

#[test]
fn doubled_quote_is_one_quote() {
    let mut lexer = Lexer::new("'it''s'");
    assert_eq!(lexer.scan(), Ok(Some(string("it's"))));
    assert_eq!(lexer.position(), 7);
    assert_eq!(lexer.scan(), Ok(None));
}

#[test]
fn string_literals() {
    assert_eq!(tokenize("''"), Ok(vec![string("")]));
    assert_eq!(tokenize("''''"), Ok(vec![string("'")]));
    assert_eq!(tokenize("'a b, (c)'"), Ok(vec![string("a b, (c)")]));
    assert_eq!(tokenize("'a' 'b'"), Ok(vec![string("a"), string("b")]));
    assert_eq!(tokenize("'a''''b'"), Ok(vec![string("a''b")]));
    assert_eq!(tokenize("'\u{e9}t\u{e9}'x"), Ok(vec![string("\u{e9}t\u{e9}"), ident("x")]));
}

#[test]
fn unterminated_string_is_an_error() {
    assert_eq!(tokenize("'unterminated"), Err(LexError::UnterminatedString));
    assert_eq!(tokenize("'"), Err(LexError::UnterminatedString));
    assert_eq!(tokenize("'a''"), Err(LexError::UnterminatedString));
    assert_eq!(tokenize("x 'a''b"), Err(LexError::UnterminatedString));
    assert_eq!(tokenize("x 'a'''"), Ok(vec![ident("x"), string("a'")]));
    let mut lexer = Lexer::new("'unterminated");
    assert_eq!(lexer.scan(), Err(LexError::UnterminatedString));
    assert_eq!(lexer.position(), 13);
}

#[test]
fn number_with_fraction_is_one_token() {
    assert_eq!(tokenize("123.45"), Ok(vec![number("123.45")]));
    assert_eq!(tokenize("0.5"), Ok(vec![number("0.5")]));
    assert_eq!(tokenize("42"), Ok(vec![number("42")]));
}

#[test]
fn point_without_digit_is_a_symbol() {
    assert_eq!(tokenize("123."), Ok(vec![number("123"), Token::Symbol(Symbol::Dot)]));
    assert_eq!(tokenize("1.x"), Ok(vec![number("1"), Token::Symbol(Symbol::Dot), ident("x")]));
    assert_eq!(tokenize(".5"), Ok(vec![Token::Symbol(Symbol::Dot), number("5")]));
}

#[test]
fn second_point_ends_the_number() {
    assert_eq!(
        tokenize("1.2.3"),
        Ok(vec![number("1.2"), Token::Symbol(Symbol::Dot), number("3")])
    );
    assert_eq!(
        tokenize("1..2"),
        Ok(vec![number("1"), Token::Symbol(Symbol::Dot), Token::Symbol(Symbol::Dot), number("2")])
    );
}

#[test]
fn number_then_word() {
    assert_eq!(tokenize("12ab"), Ok(vec![number("12"), ident("ab")]));
    // Only ASCII digits make a number.
    assert_eq!(tokenize("\u{663}"), Err(LexError::UnexpectedCharacter('\u{663}', 0)));
}

#[test]
fn less_equal_is_one_symbol() {
    assert_eq!(tokenize("<="), Ok(vec![Token::Symbol(Symbol::LessEqual)]));
    assert_eq!(
        tokenize("< ="),
        Ok(vec![Token::Symbol(Symbol::Less), Token::Symbol(Symbol::Equal)])
    );
}

#[test]
fn every_symbol_is_recognised() {
    let table = [
        ("(", Symbol::OpenParen),
        (")", Symbol::CloseParen),
        (",", Symbol::Comma),
        (";", Symbol::Semicolon),
        (".", Symbol::Dot),
        ("+", Symbol::Plus),
        ("-", Symbol::Minus),
        ("*", Symbol::Asterisk),
        ("/", Symbol::Slash),
        ("=", Symbol::Equal),
        ("<>", Symbol::NotEqual),
        ("!=", Symbol::NotEqual),
        ("<", Symbol::Less),
        ("<=", Symbol::LessEqual),
        (">", Symbol::Greater),
        (">=", Symbol::GreaterEqual),
    ];
    for (text, symbol) in table {
        assert_eq!(tokenize(text), Ok(vec![Token::Symbol(symbol)]));
    }
}

#[test]
fn symbols_are_read_greedily() {
    assert_eq!(
        tokenize("<=>"),
        Ok(vec![Token::Symbol(Symbol::LessEqual), Token::Symbol(Symbol::Greater)])
    );
    assert_eq!(
        tokenize("=<"),
        Ok(vec![Token::Symbol(Symbol::Equal), Token::Symbol(Symbol::Less)])
    );
    assert_eq!(
        tokenize("a>=1"),
        Ok(vec![ident("a"), Token::Symbol(Symbol::GreaterEqual), number("1")])
    );
}

#[test]
fn lone_bang_is_unexpected() {
    assert_eq!(tokenize("a ! b"), Err(LexError::UnexpectedCharacter('!', 2)));
    assert_eq!(tokenize("!"), Err(LexError::UnexpectedCharacter('!', 0)));
}

#[test]
fn create_table_statement() {
    let mut lexer = Lexer::new("CREATE TABLE t (id INT);");
    let expected = vec![
        Token::Keyword(Keyword::Create),
        Token::Keyword(Keyword::Table),
        ident("t"),
        Token::Symbol(Symbol::OpenParen),
        ident("id"),
        ident("INT"),
        Token::Symbol(Symbol::CloseParen),
        Token::Symbol(Symbol::Semicolon),
    ];
    for token in expected {
        assert_eq!(lexer.scan(), Ok(Some(token)));
    }
    assert_eq!(lexer.scan(), Ok(None));
}

#[test]
fn insert_statement() {
    assert_eq!(
        tokenize("INSERT INTO t VALUES (1, 'a');"),
        Ok(vec![
            Token::Keyword(Keyword::Insert),
            Token::Keyword(Keyword::Into),
            ident("t"),
            Token::Keyword(Keyword::Values),
            Token::Symbol(Symbol::OpenParen),
            number("1"),
            Token::Symbol(Symbol::Comma),
            string("a"),
            Token::Symbol(Symbol::CloseParen),
            Token::Symbol(Symbol::Semicolon),
        ])
    );
}

#[test]
fn select_statement() {
    assert_eq!(
        tokenize("select a.b, c from t where x <> 1.5 and not y = null"),
        Ok(vec![
            Token::Keyword(Keyword::Select),
            ident("a"),
            Token::Symbol(Symbol::Dot),
            ident("b"),
            Token::Symbol(Symbol::Comma),
            ident("c"),
            Token::Keyword(Keyword::From),
            ident("t"),
            Token::Keyword(Keyword::Where),
            ident("x"),
            Token::Symbol(Symbol::NotEqual),
            number("1.5"),
            Token::Keyword(Keyword::And),
            Token::Keyword(Keyword::Not),
            ident("y"),
            Token::Symbol(Symbol::Equal),
            Token::Keyword(Keyword::Null),
        ])
    );
}

#[test]
fn unexpected_character_ends_the_stream() {
    let mut stream = TokenStream::new("SELECT # FROM t");
    assert_eq!(stream.next_token(), Some(Ok(Token::Keyword(Keyword::Select))));
    assert!(!stream.is_finished());
    assert_eq!(stream.next_token(), Some(Err(LexError::UnexpectedCharacter('#', 7))));
    assert!(stream.is_finished());
    assert_eq!(stream.next_token(), None);
    assert_eq!(stream.next_token(), None);
    assert_eq!(tokenize("SELECT # FROM t"), Err(LexError::UnexpectedCharacter('#', 7)));
}

#[test]
fn offsets_count_characters_not_bytes() {
    assert_eq!(tokenize("'\u{e9}\u{e9}' #"), Err(LexError::UnexpectedCharacter('#', 5)));
    assert_eq!(tokenize("\u{e9}\u{e9} #"), Err(LexError::UnexpectedCharacter('#', 3)));
}

#[test]
fn stream_ends_at_end_of_input() {
    let mut stream = TokenStream::new("a 1");
    assert_eq!(stream.next_token(), Some(Ok(ident("a"))));
    assert_eq!(stream.next_token(), Some(Ok(number("1"))));
    assert_eq!(stream.next_token(), None);
    assert!(stream.is_finished());
    assert_eq!(stream.next_token(), None);
}

#[test]
fn stream_over_blank_text_is_empty() {
    let mut stream = TokenStream::new("   ");
    assert_eq!(stream.next_token(), None);
    assert!(stream.is_finished());
}
