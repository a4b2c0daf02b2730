use toy_rs::lexer::{LexError, Lexer, Token};

#[test]
fn test_next_token_basic() {
    let input = "=+(){},;";
    let mut lexer = Lexer::new(input);

    assert_eq!(lexer.next_token().unwrap(), Token::Eq);
    assert_eq!(lexer.next_token().unwrap(), Token::Plus);
    assert_eq!(lexer.next_token().unwrap(), Token::LParen);
    assert_eq!(lexer.next_token().unwrap(), Token::RParen);
    assert_eq!(lexer.next_token().unwrap(), Token::LBrace);
    assert_eq!(lexer.next_token().unwrap(), Token::RBrace);
    assert_eq!(lexer.next_token().unwrap(), Token::Comma);
    assert_eq!(lexer.next_token().unwrap(), Token::SemiColon);
    assert_eq!(lexer.next_token().unwrap(), Token::Eof);
}

#[test]
fn test_next_token_identifiers_and_keywords() {
    let input = "let fn if else true false my_var";
    let mut lexer = Lexer::new(input);

    assert_eq!(lexer.next_token().unwrap(), Token::Let);
    assert_eq!(lexer.next_token().unwrap(), Token::Fn);
    assert_eq!(lexer.next_token().unwrap(), Token::If);
    assert_eq!(lexer.next_token().unwrap(), Token::Else);
    assert_eq!(lexer.next_token().unwrap(), Token::True);
    assert_eq!(lexer.next_token().unwrap(), Token::False);
    assert_eq!(
        lexer.next_token().unwrap(),
        Token::Identifier("my_var".to_string())
    );
    assert_eq!(lexer.next_token().unwrap(), Token::Eof);
}

#[test]
fn test_next_token_numbers() {
    let input = "123 3.14 0";
    let mut lexer = Lexer::new(input);

    assert_eq!(lexer.next_token().unwrap(), Token::Int(123));
    assert_eq!(lexer.next_token().unwrap(), Token::Float((3.14f64).to_bits()));
    assert_eq!(lexer.next_token().unwrap(), Token::Int(0));
    assert_eq!(lexer.next_token().unwrap(), Token::Eof);
}

#[test]
fn test_next_token_strings() {
    let input = r#""hello" "world""#;
    let mut lexer = Lexer::new(input);

    assert_eq!(lexer.next_token().unwrap(), Token::Str("hello".to_string()));
    assert_eq!(lexer.next_token().unwrap(), Token::Str("world".to_string()));
    assert_eq!(lexer.next_token().unwrap(), Token::Eof);
}

#[test]
fn test_next_token_operators() {
    let input = "+ - * / ! < > == =";
    let mut lexer = Lexer::new(input);

    assert_eq!(lexer.next_token().unwrap(), Token::Plus);
    assert_eq!(lexer.next_token().unwrap(), Token::Minus);
    assert_eq!(lexer.next_token().unwrap(), Token::Star);
    assert_eq!(lexer.next_token().unwrap(), Token::Slash);
    assert_eq!(lexer.next_token().unwrap(), Token::Bang);
    assert_eq!(lexer.next_token().unwrap(), Token::Lt);
    assert_eq!(lexer.next_token().unwrap(), Token::Gt);
    assert_eq!(lexer.next_token().unwrap(), Token::EqEq);
    assert_eq!(lexer.next_token().unwrap(), Token::Eq);
    assert_eq!(lexer.next_token().unwrap(), Token::Eof);
}

#[test]
fn test_skip_whitespace() {
    let input = "  \t\nlet  x = 5;";
    let mut lexer = Lexer::new(input);

    assert_eq!(lexer.next_token().unwrap(), Token::Let);
    assert_eq!(lexer.next_token().unwrap(), Token::Identifier("x".to_string()));
    assert_eq!(lexer.next_token().unwrap(), Token::Eq);
    assert_eq!(lexer.next_token().unwrap(), Token::Int(5));
    assert_eq!(lexer.next_token().unwrap(), Token::SemiColon);
    assert_eq!(lexer.next_token().unwrap(), Token::Eof);
}

#[test]
fn test_compound_operators() {
    let input = "+= -= *= /= && ||";
    let mut lexer = Lexer::new(input);

    assert_eq!(lexer.next_token().unwrap(), Token::PlusEq);
    assert_eq!(lexer.next_token().unwrap(), Token::MinusEq);
    assert_eq!(lexer.next_token().unwrap(), Token::StarEq);
    assert_eq!(lexer.next_token().unwrap(), Token::SlashEq);
    assert_eq!(lexer.next_token().unwrap(), Token::And);
    assert_eq!(lexer.next_token().unwrap(), Token::Or);
    assert_eq!(lexer.next_token().unwrap(), Token::Eof);
}

#[test]
fn test_comment_token() {
    let input = "1 // rest of the line\n2";
    let mut lexer = Lexer::new(input);

    assert_eq!(lexer.next_token().unwrap(), Token::Int(1));
    assert_eq!(lexer.next_token().unwrap(), Token::Comment);
    assert_eq!(lexer.next_token().unwrap(), Token::Int(2));
    assert_eq!(lexer.next_token().unwrap(), Token::Eof);
}

#[test]
fn test_eof_forever() {
    let mut lexer = Lexer::new("x");
    assert_eq!(lexer.next_token().unwrap(), Token::Identifier("x".to_string()));
    assert_eq!(lexer.next_token().unwrap(), Token::Eof);
    assert_eq!(lexer.next_token().unwrap(), Token::Eof);
    assert_eq!(lexer.next_token().unwrap(), Token::Eof);
}

#[test]
fn test_keyword_prefix_is_identifier() {
    let mut lexer = Lexer::new("lettuce whiled");
    assert_eq!(
        lexer.next_token().unwrap(),
        Token::Identifier("lettuce".to_string())
    );
    assert_eq!(
        lexer.next_token().unwrap(),
        Token::Identifier("whiled".to_string())
    );
}

#[test]
fn test_unexpected_character() {
    let mut lexer = Lexer::new("  @");
    assert_eq!(lexer.next_token(), Err(LexError::UnexpectedChar('@')));
}

#[test]
fn test_single_ampersand_is_error() {
    let mut lexer = Lexer::new("1 & 2");
    assert_eq!(lexer.next_token().unwrap(), Token::Int(1));
    assert_eq!(lexer.next_token(), Err(LexError::UnexpectedChar('&')));
    let mut lexer2 = Lexer::new("|");
    assert_eq!(lexer2.next_token(), Err(LexError::UnexpectedChar('|')));
}

#[test]
fn test_unterminated_string() {
    let mut lexer = Lexer::new("\"abc");
    assert_eq!(lexer.next_token(), Err(LexError::UnterminatedString));
}

#[test]
fn test_int_literal_too_large() {
    let mut lexer = Lexer::new("99999999999999999999");
    assert_eq!(lexer.next_token(), Err(LexError::IntOutOfRange));
    // the largest value that fits still lexes
    let mut lexer2 = Lexer::new("9223372036854775807");
    assert_eq!(lexer2.next_token().unwrap(), Token::Int(i64::MAX));
}

#[test]
fn test_float_trailing_dot() {
    let mut lexer = Lexer::new("3.");
    assert_eq!(lexer.next_token().unwrap(), Token::Float((3.0f64).to_bits()));
}
