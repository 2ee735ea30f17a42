use parser::ast::{Node, OperatorNode};
use parser::parse::{parse, ParseError, Parser};
use parser::token::Token;

fn num(v: i32) -> Node {
    Node::Number(v)
}

fn bin(op: Token, left: Node, right: Node) -> Node {
    Node::BinaryOperator(OperatorNode { op, left: Box::new(left), right: Box::new(right) })
}

#[test]
fn test_parse() {
    let input = String::from("1 * 2 + 3 * 4");
    let mut p = Parser::new(input);

    let node = p.parse();
    assert_eq!(
        node.unwrap(),
        Node::BinaryOperator(OperatorNode {
            op: Token::Plus,
            left: Box::new(Node::BinaryOperator(OperatorNode {
                op: Token::Asterisk,
                left: Box::new(Node::Number(1)),
                right: Box::new(Node::Number(2))
            })),
            right: Box::new(Node::BinaryOperator(OperatorNode {
                op: Token::Asterisk,
                left: Box::new(Node::Number(3)),
                right: Box::new(Node::Number(4))
            }))
        })
    )
}

#[test]
fn parse_single_literal() {
    assert_eq!(parse(String::from("7")), Ok(num(7)));
}

#[test]
fn parse_unary_minus_literal() {
    assert_eq!(parse(String::from("-5")), Ok(num(-5)));
}

#[test]
fn parse_multiplication_binds_tighter() {
    assert_eq!(
        parse(String::from("1 + 2 * 3")),
        Ok(bin(Token::Plus, num(1), bin(Token::Asterisk, num(2), num(3))))
    );
}

#[test]
fn parse_subtraction_left_associative() {
    assert_eq!(
        parse(String::from("10 - 2 - 3")),
        Ok(bin(Token::Minus, bin(Token::Minus, num(10), num(2)), num(3)))
    );
}

#[test]
fn parse_operator_at_start_fails() {
    assert_eq!(parse(String::from("+1")), Err(ParseError::UnexpectedToken(Token::Plus)));
    assert_eq!(parse(String::from("*1")), Err(ParseError::UnexpectedToken(Token::Asterisk)));
}

#[test]
fn parse_empty_input_fails() {
    assert_eq!(parse(String::new()), Err(ParseError::UnexpectedToken(Token::EOF)));
}

#[test]
fn parse_illegal_character_fails() {
    assert_eq!(parse(String::from("x")), Err(ParseError::UnexpectedToken(Token::Illegal)));
}

#[test]
fn parse_malformed_literal_fails() {
    assert_eq!(parse(String::from("1.5")), Err(ParseError::UnexpectedToken(Token::Illegal)));
    assert_eq!(
        parse(String::from("2147483648")),
        Err(ParseError::UnexpectedToken(Token::Illegal))
    );
}

#[test]
fn parse_unsupported_unary_operand_fails() {
    assert_eq!(
        parse(String::from("- -5")),
        Err(ParseError::UnsupportedUnaryOperand(Token::Minus))
    );
    assert_eq!(
        parse(String::from("-*1")),
        Err(ParseError::UnsupportedUnaryOperand(Token::Asterisk))
    );
    assert_eq!(parse(String::from("-")), Err(ParseError::UnsupportedUnaryOperand(Token::EOF)));
}

#[test]
fn parse_stops_after_expression() {
    assert_eq!(parse(String::from("1 2")), Ok(num(1)));
}

#[test]
fn parse_twice_is_identical() {
    let first = parse(String::from("1 * 2 + 3 * 4"));
    let second = parse(String::from("1 * 2 + 3 * 4"));
    assert_eq!(first, second);

    let first = parse(String::from("- -5"));
    let second = parse(String::from("- -5"));
    assert_eq!(first, second);
}
