use parser::lex::Lexer;
use parser::token::Token;

#[test]
fn test_lexer() {
    let input = String::from(
        r#" 1   +
        23 + 1                  * 3 / 0 - 1 "#,
    );

    let mut l = Lexer::new(input);

    let got = l.next();
    assert_eq!(got, Token::Number(1));

    let got = l.next();
    assert_eq!(got, Token::Plus);

    let got = l.next();
    assert_eq!(got, Token::Number(23));

    let got = l.next();
    assert_eq!(got, Token::Plus);

    let got = l.next();
    assert_eq!(got, Token::Number(1));

    let got = l.next();
    assert_eq!(got, Token::Asterisk);

    let got = l.next();
    assert_eq!(got, Token::Number(3));

    let got = l.next();
    assert_eq!(got, Token::Slash);

    let got = l.next();
    assert_eq!(got, Token::Number(0));

    let got = l.next();
    assert_eq!(got, Token::Minus);

    let got = l.next();
    assert_eq!(got, Token::Number(1));

    let got = l.next();
    assert_eq!(got, Token::EOF);
}

#[test]
fn scan_token_sequence() {
    let mut l = Lexer::new(String::from("1 + 23 + 1 * 3 / 0 - 1"));
    let expected = [
        Token::Number(1),
        Token::Plus,
        Token::Number(23),
        Token::Plus,
        Token::Number(1),
        Token::Asterisk,
        Token::Number(3),
        Token::Slash,
        Token::Number(0),
        Token::Minus,
        Token::Number(1),
        Token::EOF,
    ];
    for want in expected.iter() {
        assert_eq!(l.next(), *want);
    }
}

#[test]
fn scan_empty_input() {
    let mut l = Lexer::new(String::new());
    assert_eq!(l.next(), Token::EOF);
    assert_eq!(l.next(), Token::EOF);
}

#[test]
fn scan_whitespace_only() {
    let mut l = Lexer::new(String::from(" \t\r\n "));
    assert_eq!(l.next(), Token::EOF);
}

#[test]
fn scan_illegal_character() {
    let mut l = Lexer::new(String::from("a"));
    assert_eq!(l.next(), Token::Illegal);
    assert_eq!(l.next(), Token::EOF);
}

#[test]
fn scan_dotted_literal_is_illegal() {
    let mut l = Lexer::new(String::from("1.5"));
    assert_eq!(l.next(), Token::Illegal);
    assert_eq!(l.next(), Token::EOF);

    let mut l = Lexer::new(String::from("12."));
    assert_eq!(l.next(), Token::Illegal);
    assert_eq!(l.next(), Token::EOF);

    let mut l = Lexer::new(String::from("."));
    assert_eq!(l.next(), Token::Illegal);
    assert_eq!(l.next(), Token::EOF);
}

#[test]
fn scan_base10_values() {
    let mut l = Lexer::new(String::from("0"));
    assert_eq!(l.next(), Token::Number(0));

    let mut l = Lexer::new(String::from("23"));
    assert_eq!(l.next(), Token::Number(23));

    let mut l = Lexer::new(String::from("0042"));
    assert_eq!(l.next(), Token::Number(42));

    let mut l = Lexer::new(String::from("907"));
    assert_eq!(l.next(), Token::Number(907));
}

#[test]
fn scan_literal_range_edge() {
    let mut l = Lexer::new(String::from("2147483647"));
    assert_eq!(l.next(), Token::Number(2147483647));
    assert_eq!(l.next(), Token::EOF);

    let mut l = Lexer::new(String::from("2147483648"));
    assert_eq!(l.next(), Token::Illegal);
    assert_eq!(l.next(), Token::EOF);
}

#[test]
fn scan_adjacent_tokens() {
    let mut l = Lexer::new(String::from("12+34"));
    assert_eq!(l.next(), Token::Number(12));
    assert_eq!(l.next(), Token::Plus);
    assert_eq!(l.next(), Token::Number(34));
    assert_eq!(l.next(), Token::EOF);
}

#[test]
fn precedence_of_tokens() {
    assert_eq!(Token::Plus.get_precedence(), 1);
    assert_eq!(Token::Minus.get_precedence(), 1);
    assert_eq!(Token::Asterisk.get_precedence(), 2);
    assert_eq!(Token::Slash.get_precedence(), 2);
    assert_eq!(Token::Number(5).get_precedence(), 0);
    assert_eq!(Token::Illegal.get_precedence(), 0);
    assert_eq!(Token::EOF.get_precedence(), 0);
}
