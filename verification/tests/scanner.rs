use tree_walk::scanner::{scan, ScanError, ScanErrorType, Scanner};
use tree_walk::token::{Lexeme, Token};

fn number(literal: &str, line: u64) -> Token {
    Token::new(Lexeme::Number(literal.to_owned()), line)
}

fn value_of(item: Option<Result<Token, ScanError>>) -> f64 {
    match item {
        Some(Ok(Token { lexeme: Lexeme::Number(literal), .. })) => literal.parse().unwrap(),
        other => panic!("no number: {:?}", other),
    }
}

#[test]
fn scanner_it_handles_comments() {
    let source = "{} // foo".to_owned();
    let mut sc = Scanner::new(&source);
    assert_eq!(sc.next(), Some(Ok(Token::new(Lexeme::LeftBrace, 0))));
    assert_eq!(sc.next(), Some(Ok(Token::new(Lexeme::RightBrace, 0))));
    assert_eq!(sc.next(), Some(Ok(Token::new(Lexeme::Eof, 0))));
    assert_eq!(sc.next(), None);
}

#[test]
fn scanner_it_handles_comments_end() {
    let source = "{} //".to_owned();
    let mut sc = Scanner::new(&source);
    assert_eq!(sc.next(), Some(Ok(Token::new(Lexeme::LeftBrace, 0))));
    assert_eq!(sc.next(), Some(Ok(Token::new(Lexeme::RightBrace, 0))));
    assert_eq!(sc.next(), Some(Ok(Token::new(Lexeme::Eof, 0))));
    assert_eq!(sc.next(), None);
}

#[test]
fn scanner_it_handles_strings() {
    let source = "\"bar\"".to_owned();
    let mut sc = Scanner::new(&source);
    assert_eq!(sc.next(), Some(Ok(Token::new(Lexeme::String("bar".to_string()), 0))));
    assert_eq!(sc.next(), Some(Ok(Token::new(Lexeme::Eof, 0))));
    assert_eq!(sc.next(), None);
}

#[test]
fn scanner_it_handles_combo_strings() {
    let source = "\"foo\" == \"bar\" ".to_owned();
    let mut sc = Scanner::new(&source);
    assert_eq!(sc.next(), Some(Ok(Token::new(Lexeme::String("foo".to_string()), 0))));
    assert_eq!(sc.next(), Some(Ok(Token::new(Lexeme::EqualEqual, 0))));
    assert_eq!(sc.next(), Some(Ok(Token::new(Lexeme::String("bar".to_string()), 0))));
    assert_eq!(sc.next(), Some(Ok(Token::new(Lexeme::Eof, 0))));
    assert_eq!(sc.next(), None);
}

#[test]
fn scanner_it_handles_numbers() {
    let source = "1.2".to_owned();
    let mut sc = Scanner::new(&source);
    assert_eq!(sc.next(), Some(Ok(number("1.2", 0))));
    assert_eq!(sc.next(), Some(Ok(Token::new(Lexeme::Eof, 0))));
    assert_eq!(sc.next(), None);
    assert_eq!(value_of(Scanner::new(&source).next()), 1.2);
}

#[test]
fn scanner_it_handles_addition() {
    let source = "1+2.0".to_owned();
    let mut sc = Scanner::new(&source);
    assert_eq!(value_of(sc.next()), 1.0);
    assert_eq!(sc.next(), Some(Ok(Token::new(Lexeme::Plus, 0))));
    assert_eq!(value_of(sc.next()), 2.0);
    assert_eq!(sc.next(), Some(Ok(Token::new(Lexeme::Eof, 0))));
    assert_eq!(sc.next(), None);
}

#[test]
fn scanner_it_handles_reserved_words() {
    let source = "and".to_owned();
    let mut sc = Scanner::new(&source);
    assert_eq!(sc.next(), Some(Ok(Token::new(Lexeme::And, 0))));
    assert_eq!(sc.next(), Some(Ok(Token::new(Lexeme::Eof, 0))));
    assert_eq!(sc.next(), None);

    let source = "while".to_owned();
    let mut sc = Scanner::new(&source);
    assert_eq!(sc.next(), Some(Ok(Token::new(Lexeme::While, 0))));
    assert_eq!(sc.next(), Some(Ok(Token::new(Lexeme::Eof, 0))));
    assert_eq!(sc.next(), None);
}

#[test]
fn scanner_it_handles_idents_partial_reserved() {
    let source = "andd".to_owned();
    let mut sc = Scanner::new(&source);
    assert_eq!(sc.next(), Some(Ok(Token::new(Lexeme::Identifier("andd".to_string()), 0))));
    assert_eq!(sc.next(), Some(Ok(Token::new(Lexeme::Eof, 0))));
    assert_eq!(sc.next(), None);
}

#[test]
fn scanner_it_handles_newlines() {
    let source = "
and while

andd
"
    .to_owned();
    let mut sc = Scanner::new(&source);
    assert_eq!(sc.next(), Some(Ok(Token::new(Lexeme::And, 1))));
    assert_eq!(sc.next(), Some(Ok(Token::new(Lexeme::While, 1))));
    assert_eq!(sc.next(), Some(Ok(Token::new(Lexeme::Identifier("andd".to_string()), 3))));
    assert_eq!(sc.next(), Some(Ok(Token::new(Lexeme::Eof, 4))));
    assert_eq!(sc.next(), None);
}

#[test]
fn scanner_it_handles_unexpected_character() {
    let source = "/·".to_owned();
    let mut sc = Scanner::new(&source);
    assert_eq!(sc.next(), Some(Ok(Token::new(Lexeme::Slash, 0))));
    assert_eq!(sc.next(), Some(Err(ScanError::new(ScanErrorType::UnexpectedCharacter('·'), 0))));
    assert_eq!(sc.next(), Some(Ok(Token::new(Lexeme::Eof, 0))));
    assert_eq!(sc.next(), None);
}

// The same texts read without a token for blanks and with the `Eof` token
// at the end.

#[test]
fn lexer_it_works() {
    let source = "(!=) ==".to_owned();
    let mut sc = Scanner::new(&source);
    assert_eq!(sc.next().unwrap(), Ok(Token::new(Lexeme::LeftParen, 0)));
    assert_eq!(sc.next().unwrap(), Ok(Token::new(Lexeme::BangEqual, 0)));
    assert_eq!(sc.next().unwrap(), Ok(Token::new(Lexeme::RightParen, 0)));
    assert_eq!(sc.next().unwrap(), Ok(Token::new(Lexeme::EqualEqual, 0)));
    assert_eq!(sc.next().unwrap(), Ok(Token::new(Lexeme::Eof, 0)));
    assert_eq!(sc.next(), None);
}

#[test]
fn it_works_collect() {
    let tokens = scan(&"(!=) ==".to_owned());
    assert_eq!(tokens.len(), 5);
}

#[test]
fn lexer_it_handles_comments() {
    let source = "{} // foo".to_owned();
    let mut sc = Scanner::new(&source);
    assert_eq!(sc.next().unwrap(), Ok(Token::new(Lexeme::LeftBrace, 0)));
    assert_eq!(sc.next().unwrap(), Ok(Token::new(Lexeme::RightBrace, 0)));
    assert_eq!(sc.next().unwrap(), Ok(Token::new(Lexeme::Eof, 0)));
    assert_eq!(sc.next(), None);
}

#[test]
fn lexer_it_handles_comments_end() {
    let source = "{} //".to_owned();
    let mut sc = Scanner::new(&source);
    assert_eq!(sc.next().unwrap(), Ok(Token::new(Lexeme::LeftBrace, 0)));
    assert_eq!(sc.next().unwrap(), Ok(Token::new(Lexeme::RightBrace, 0)));
    assert_eq!(sc.next().unwrap(), Ok(Token::new(Lexeme::Eof, 0)));
    assert_eq!(sc.next(), None);
}

#[test]
fn it_handles_comparisons() {
    let source = ">= <= != () ==".to_owned();
    let mut sc = Scanner::new(&source);
    assert_eq!(sc.next().unwrap(), Ok(Token::new(Lexeme::GreaterEqual, 0)));
    assert_eq!(sc.next().unwrap(), Ok(Token::new(Lexeme::LessEqual, 0)));
    assert_eq!(sc.next().unwrap(), Ok(Token::new(Lexeme::BangEqual, 0)));
    assert_eq!(sc.next().unwrap(), Ok(Token::new(Lexeme::LeftParen, 0)));
    assert_eq!(sc.next().unwrap(), Ok(Token::new(Lexeme::RightParen, 0)));
    assert_eq!(sc.next().unwrap(), Ok(Token::new(Lexeme::EqualEqual, 0)));
    assert_eq!(sc.next().unwrap(), Ok(Token::new(Lexeme::Eof, 0)));
    assert_eq!(sc.next(), None);
}

#[test]
fn lexer_it_handles_strings() {
    let source = "\"bar\" ".to_owned();
    let mut sc = Scanner::new(&source);
    assert_eq!(sc.next().unwrap(), Ok(Token::new(Lexeme::String("bar".to_string()), 0)));
    assert_eq!(sc.next().unwrap(), Ok(Token::new(Lexeme::Eof, 0)));
    assert_eq!(sc.next(), None);
}

#[test]
fn lexer_it_handles_combo_strings() {
    let source = "\"foo\" = \"bar\" ".to_owned();
    let mut sc = Scanner::new(&source);
    assert_eq!(sc.next().unwrap(), Ok(Token::new(Lexeme::String("foo".to_string()), 0)));
    assert_eq!(sc.next().unwrap(), Ok(Token::new(Lexeme::Equal, 0)));
    assert_eq!(sc.next().unwrap(), Ok(Token::new(Lexeme::String("bar".to_string()), 0)));
    assert_eq!(sc.next().unwrap(), Ok(Token::new(Lexeme::Eof, 0)));
    assert_eq!(sc.next(), None);
}

#[test]
fn lexer_it_handles_numbers() {
    let source = "1.2".to_owned();
    let mut sc = Scanner::new(&source);
    assert_eq!(value_of(sc.next()), "1.2".parse::<f64>().unwrap());
    assert_eq!(sc.next().unwrap(), Ok(Token::new(Lexeme::Eof, 0)));
    assert_eq!(sc.next(), None);
}

#[test]
fn lexer_it_handles_addition() {
    let source = "1+2.0".to_owned();
    let mut sc = Scanner::new(&source);
    assert_eq!(value_of(sc.next()), "1.0".parse::<f64>().unwrap());
    assert_eq!(sc.next().unwrap(), Ok(Token::new(Lexeme::Plus, 0)));
    assert_eq!(value_of(sc.next()), "2.0".parse::<f64>().unwrap());
    assert_eq!(sc.next().unwrap(), Ok(Token::new(Lexeme::Eof, 0)));
    assert_eq!(sc.next(), None);
}

#[test]
fn lexer_it_handles_reserved_words() {
    let source = "and".to_owned();
    let mut sc = Scanner::new(&source);
    assert_eq!(sc.next().unwrap(), Ok(Token::new(Lexeme::And, 0)));
    assert_eq!(sc.next().unwrap(), Ok(Token::new(Lexeme::Eof, 0)));
    assert_eq!(sc.next(), None);

    let source = "while".to_owned();
    let mut sc = Scanner::new(&source);
    assert_eq!(sc.next().unwrap(), Ok(Token::new(Lexeme::While, 0)));
    assert_eq!(sc.next().unwrap(), Ok(Token::new(Lexeme::Eof, 0)));
    assert_eq!(sc.next(), None);
}

#[test]
fn lexer_it_handles_idents_partial_reserved() {
    let source = "andd".to_owned();
    let mut sc = Scanner::new(&source);
    assert_eq!(sc.next().unwrap(), Ok(Token::new(Lexeme::Identifier("andd".to_string()), 0)));
    assert_eq!(sc.next().unwrap(), Ok(Token::new(Lexeme::Eof, 0)));
    assert_eq!(sc.next(), None);
}

#[test]
fn lexer_it_handles_newlines() {
    let source = "
and while

andd
"
    .to_owned();
    let mut sc = Scanner::new(&source);
    assert_eq!(sc.next().unwrap(), Ok(Token::new(Lexeme::And, 1)));
    assert_eq!(sc.next().unwrap(), Ok(Token::new(Lexeme::While, 1)));
    assert_eq!(sc.next().unwrap(), Ok(Token::new(Lexeme::Identifier("andd".to_string()), 3)));
    assert_eq!(sc.next().unwrap(), Ok(Token::new(Lexeme::Eof, 4)));
    assert_eq!(sc.next(), None);
}

#[test]
fn lexer_it_handles_unexpected_character() {
    let source = "/·".to_owned();
    let mut sc = Scanner::new(&source);
    assert_eq!(sc.next().unwrap(), Ok(Token::new(Lexeme::Slash, 0)));
    assert_eq!(sc.next().unwrap(), Err(ScanError::new(ScanErrorType::UnexpectedCharacter('·'), 0)));
    assert_eq!(sc.next().unwrap(), Ok(Token::new(Lexeme::Eof, 0)));
    assert_eq!(sc.next(), None);
}

#[test]
fn it_handles_keywords() {
    let source = "print(\"foo\")".to_owned();
    let mut sc = Scanner::new(&source);
    assert_eq!(sc.next().unwrap(), Ok(Token::new(Lexeme::Print, 0)));
    assert_eq!(sc.next().unwrap(), Ok(Token::new(Lexeme::LeftParen, 0)));
    assert_eq!(sc.next().unwrap(), Ok(Token::new(Lexeme::String("foo".to_string()), 0)));
    assert_eq!(sc.next().unwrap(), Ok(Token::new(Lexeme::RightParen, 0)));
    assert_eq!(sc.next().unwrap(), Ok(Token::new(Lexeme::Eof, 0)));
    assert_eq!(sc.next(), None);

    let source = "print(1)".to_owned();
    let mut sc = Scanner::new(&source);
    assert_eq!(sc.next().unwrap(), Ok(Token::new(Lexeme::Print, 0)));
    assert_eq!(sc.next().unwrap(), Ok(Token::new(Lexeme::LeftParen, 0)));
    assert_eq!(value_of(sc.next()), 1.0);
    assert_eq!(sc.next().unwrap(), Ok(Token::new(Lexeme::RightParen, 0)));
    assert_eq!(sc.next().unwrap(), Ok(Token::new(Lexeme::Eof, 0)));
    assert_eq!(sc.next(), None);

    let source = "var foo".to_owned();
    let mut sc = Scanner::new(&source);
    assert_eq!(sc.next().unwrap(), Ok(Token::new(Lexeme::Var, 0)));
    assert_eq!(sc.next().unwrap(), Ok(Token::new(Lexeme::Identifier("foo".to_string()), 0)));
    assert_eq!(sc.next().unwrap(), Ok(Token::new(Lexeme::Eof, 0)));
    assert_eq!(sc.next(), None);
}

// Tests of the scanner's rules.

fn lexemes(source: &str) -> Vec<Result<Token, ScanError>> {
    scan(&source.to_owned())
}

#[test]
fn every_punctuation_and_operator_has_its_lexeme() {
    let items = lexemes("(){},.-+;/* ! != = == > >= < <=");
    let expected = vec![
        Lexeme::LeftParen,
        Lexeme::RightParen,
        Lexeme::LeftBrace,
        Lexeme::RightBrace,
        Lexeme::Comma,
        Lexeme::Dot,
        Lexeme::Minus,
        Lexeme::Plus,
        Lexeme::Semicolon,
        Lexeme::Slash,
        Lexeme::Star,
        Lexeme::Bang,
        Lexeme::BangEqual,
        Lexeme::Equal,
        Lexeme::EqualEqual,
        Lexeme::Greater,
        Lexeme::GreaterEqual,
        Lexeme::Less,
        Lexeme::LessEqual,
        Lexeme::Eof,
    ];
    assert_eq!(items.len(), expected.len());
    for (item, lexeme) in items.into_iter().zip(expected) {
        assert_eq!(item, Ok(Token::new(lexeme, 0)));
    }
}

#[test]
fn every_keyword_has_its_lexeme() {
    let items = lexemes("and class else false for fun if nil or print return super this true var while");
    let expected = vec![
        Lexeme::And,
        Lexeme::Class,
        Lexeme::Else,
        Lexeme::False,
        Lexeme::For,
        Lexeme::Fun,
        Lexeme::If,
        Lexeme::Nil,
        Lexeme::Or,
        Lexeme::Print,
        Lexeme::Return,
        Lexeme::Super,
        Lexeme::This,
        Lexeme::True,
        Lexeme::Var,
        Lexeme::While,
        Lexeme::Eof,
    ];
    assert_eq!(items.len(), expected.len());
    for (item, lexeme) in items.into_iter().zip(expected) {
        assert_eq!(item, Ok(Token::new(lexeme, 0)));
    }
}

#[test]
fn a_comment_runs_to_the_line_feed_which_counts() {
    let items = lexemes("1 // one\n2");
    assert_eq!(items, vec![Ok(number("1", 0)), Ok(number("2", 1)), Ok(Token::new(Lexeme::Eof, 1))]);
}

#[test]
fn a_string_may_span_lines_and_carries_its_last_line() {
    let items = lexemes("\"a\nb\" x");
    assert_eq!(
        items,
        vec![
            Ok(Token::new(Lexeme::String("a\nb".to_owned()), 1)),
            Ok(Token::new(Lexeme::Identifier("x".to_owned()), 1)),
            Ok(Token::new(Lexeme::Eof, 1)),
        ]
    );
}

#[test]
fn an_unterminated_string_is_an_error_and_eof_follows() {
    let items = lexemes("\"abc\ndef");
    assert_eq!(
        items,
        vec![Err(ScanError::new(ScanErrorType::UnterminatedString, 1)), Ok(Token::new(Lexeme::Eof, 1))]
    );
}

#[test]
fn a_trailing_dot_is_not_part_of_a_number() {
    let items = lexemes("12.");
    assert_eq!(items, vec![Ok(number("12", 0)), Ok(Token::new(Lexeme::Dot, 0)), Ok(Token::new(Lexeme::Eof, 0))]);
    let items = lexemes("1.5.7");
    assert_eq!(
        items,
        vec![Ok(number("1.5", 0)), Ok(Token::new(Lexeme::Dot, 0)), Ok(number("7", 0)), Ok(Token::new(Lexeme::Eof, 0))]
    );
}

#[test]
fn identifiers_take_letters_digits_and_underscores() {
    let items = lexemes("_a1 b_2");
    assert_eq!(
        items,
        vec![
            Ok(Token::new(Lexeme::Identifier("_a1".to_owned()), 0)),
            Ok(Token::new(Lexeme::Identifier("b_2".to_owned()), 0)),
            Ok(Token::new(Lexeme::Eof, 0)),
        ]
    );
}

#[test]
fn scanning_goes_on_after_an_error() {
    let items = lexemes("@ 1 # 2");
    assert_eq!(
        items,
        vec![
            Err(ScanError::new(ScanErrorType::UnexpectedCharacter('@'), 0)),
            Ok(number("1", 0)),
            Err(ScanError::new(ScanErrorType::UnexpectedCharacter('#'), 0)),
            Ok(number("2", 0)),
            Ok(Token::new(Lexeme::Eof, 0)),
        ]
    );
}

#[test]
fn there_is_one_eof_and_it_is_last() {
    for source in ["", " ", "\n\n", "a b c", "\"open", "// only a comment", "1 + 2;\nprint 3;"] {
        let items = lexemes(source);
        let eofs = items.iter().filter(|item| matches!(item, Ok(Token { lexeme: Lexeme::Eof, .. }))).count();
        assert_eq!(eofs, 1);
        assert!(matches!(items.last(), Some(Ok(Token { lexeme: Lexeme::Eof, .. }))));
    }
}

#[test]
fn lines_never_decrease() {
    let items = lexemes("a\n\"x\ny\"\n// c\n@\nb \"open\n\n");
    let lines: Vec<u64> = items
        .iter()
        .map(|item| match item {
            Ok(token) => token.line,
            Err(e) => e.line,
        })
        .collect();
    assert_eq!(lines, vec![0, 2, 4, 5, 7, 7]);
}

#[test]
fn scan_errors_read_as_text() {
    assert_eq!(ScanError::new(ScanErrorType::UnexpectedCharacter('@'), 3).to_string(), "Unexpected character @ on line 3");
    assert_eq!(ScanError::new(ScanErrorType::UnterminatedString, 12).to_string(), "Unterminated string on line 12");
}

#[test]
fn tokens_read_as_their_spelling() {
    assert_eq!(Token::new(Lexeme::BangEqual, 0).to_string(), "!=");
    assert_eq!(Token::new(Lexeme::Comma, 0).to_string(), ",");
    assert_eq!(Token::new(Lexeme::While, 0).to_string(), "while");
    assert_eq!(Token::new(Lexeme::String("a b".to_owned()), 0).to_string(), "\"a b\"");
    assert_eq!(Token::new(Lexeme::Number("4.50".to_owned()), 0).to_string(), "4.50");
    assert_eq!(Token::new(Lexeme::Identifier("x1".to_owned()), 0).to_string(), "x1");
    assert_eq!(Token::new(Lexeme::Eof, 0).to_string(), "<EOF>");
    assert_eq!(Token::new(Lexeme::Identifier("x1".to_owned()), 0).identifier(), "x1");
}
