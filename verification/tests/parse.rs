use qalqulator::ast::{Ast, BinaryOp, Node, UnaryOp};
use qalqulator::error::Error;
use qalqulator::rational::Rational;
use qalqulator::token::{tokenize, Token, TokenKind};

fn number(n: i128, d: i128) -> Node {
    Node::Number(Rational::new(n, d))
}

fn name(s: &str) -> Node {
    Node::Identifier(s.to_string())
}

fn binary(op: BinaryOp, lhs: Node, rhs: Node) -> Node {
    Node::BinaryOp { op, lhs: Box::new(lhs), rhs: Box::new(rhs) }
}

fn negated(value: Node) -> Node {
    Node::UnaryOp { op: UnaryOp::Neg, value: Box::new(value) }
}

fn tree(line: &str) -> Result<Node, Error> {
    Ast::from_line(line).map(|ast| ast.root)
}

fn syntax_error(line: &str) -> Result<Node, Error> {
    Err(Error::Syntax(line.to_string()))
}

#[test]
fn tokens_of_a_line() {
    let kinds: Vec<(TokenKind, usize, usize)> = tokenize("ab_1 = 2.5*(x1 ^-3) % ~(7/y)")
        .unwrap()
        .iter()
        .map(|t| (t.kind, t.start, t.end))
        .collect();
    assert_eq!(
        kinds,
        vec![
            (TokenKind::Identifier, 0, 4),
            (TokenKind::Assign, 5, 6),
            (TokenKind::Number, 7, 10),
            (TokenKind::Times, 10, 11),
            (TokenKind::Open, 11, 12),
            (TokenKind::Identifier, 12, 14),
            (TokenKind::Power, 15, 16),
            (TokenKind::Minus, 16, 17),
            (TokenKind::Number, 17, 18),
            (TokenKind::Close, 18, 19),
            (TokenKind::Modulo, 20, 21),
            (TokenKind::Convert, 22, 23),
            (TokenKind::Open, 23, 24),
            (TokenKind::Number, 24, 25),
            (TokenKind::Divide, 25, 26),
            (TokenKind::Identifier, 26, 27),
            (TokenKind::Close, 27, 28),
        ]
    );
}

#[test]
fn tokens_of_numbers() {
    assert_eq!(
        tokenize("1_000.5_0"),
        Some(vec![Token { kind: TokenKind::Number, start: 0, end: 9 }])
    );
    assert_eq!(
        tokenize("2x"),
        Some(vec![
            Token { kind: TokenKind::Number, start: 0, end: 1 },
            Token { kind: TokenKind::Identifier, start: 1, end: 2 },
        ])
    );
    assert_eq!(tokenize(""), Some(vec![]));
    assert_eq!(tokenize(" \t "), Some(vec![]));
}

#[test]
fn lines_without_tokens() {
    assert_eq!(tokenize("1."), None);
    assert_eq!(tokenize("1.x"), None);
    assert_eq!(tokenize("1 & 2"), None);
    assert_eq!(tokenize("2 + é"), None);
    assert_eq!(tokenize("π"), None);
}

#[test]
fn tree_of_a_sum_and_a_product() {
    assert_eq!(
        tree("2 + 3 * 4"),
        Ok(binary(BinaryOp::Add, number(2, 1), binary(BinaryOp::Mul, number(3, 1), number(4, 1))))
    );
    assert_eq!(
        tree("2 * 3 + 4"),
        Ok(binary(BinaryOp::Add, binary(BinaryOp::Mul, number(2, 1), number(3, 1)), number(4, 1)))
    );
}

#[test]
fn tree_of_powers() {
    assert_eq!(
        tree("2 ^ 3 ^ 2"),
        Ok(binary(
            BinaryOp::Power,
            number(2, 1),
            binary(BinaryOp::Power, number(3, 1), number(2, 1))
        ))
    );
    assert_eq!(tree("-2 ^ 2"), Ok(binary(BinaryOp::Power, negated(number(2, 1)), number(2, 1))));
}

#[test]
fn tree_of_left_grouping_operators() {
    assert_eq!(
        tree("1 - 2 - 3"),
        Ok(binary(BinaryOp::Sub, binary(BinaryOp::Sub, number(1, 1), number(2, 1)), number(3, 1)))
    );
    assert_eq!(
        tree("8 / 4 % 3"),
        Ok(binary(
            BinaryOp::Modulo,
            binary(BinaryOp::Div, number(8, 1), number(4, 1)),
            number(3, 1)
        ))
    );
}

#[test]
fn tree_of_implicit_multiplication() {
    assert_eq!(tree("2x"), Ok(binary(BinaryOp::Mul, number(2, 1), name("x"))));
    assert_eq!(
        tree("1 + 2 x ^ 2"),
        Ok(binary(
            BinaryOp::Add,
            number(1, 1),
            binary(BinaryOp::Mul, number(2, 1), binary(BinaryOp::Power, name("x"), number(2, 1)))
        ))
    );
    assert_eq!(
        tree("a b c"),
        Ok(binary(BinaryOp::Mul, binary(BinaryOp::Mul, name("a"), name("b")), name("c")))
    );
}

#[test]
fn tree_of_a_binding() {
    assert_eq!(
        tree("rate = 1.5"),
        Ok(Node::Binding { name: "rate".to_string(), value: Box::new(number(3, 2)) })
    );
}

#[test]
fn tree_of_a_conversion() {
    assert_eq!(
        tree("~(1/3)"),
        Ok(Node::ToFloat(Box::new(binary(BinaryOp::Div, number(1, 1), number(3, 1)))))
    );
    assert_eq!(tree("~ ( 2 )"), Ok(Node::ToFloat(Box::new(number(2, 1)))));
}

#[test]
fn malformed_lines_are_syntax_errors() {
    for line in [
        "", "   ", "(", ")", "(1", "1)", "()", "1 +", "+ 1", "* 2", "1 + * 2", "x =", "= 1",
        "1 = 2", "x = y = 1", "~1", "~", "1 ~", "2 $ 3", "1.", ".5", "1..2", "-", "2 ^",
        "340282366920938463463374607431768211456",
        "0.0000000000000000000000000000000000000001", "é",
    ] {
        assert_eq!(tree(line), syntax_error(line), "line {:?}", line);
    }
}

#[test]
fn from_number_reads_integers_and_decimals() {
    assert_eq!(Node::from_number("42"), Ok(number(42, 1)));
    assert_eq!(Node::from_number("007"), Ok(number(7, 1)));
    assert_eq!(Node::from_number("1_000_000"), Ok(number(1000000, 1)));
    assert_eq!(Node::from_number("0.1"), Ok(number(1, 10)));
    assert_eq!(Node::from_number("3.14"), Ok(number(314, 100)));
    assert_eq!(Node::from_number("12.50"), Ok(number(25, 2)));
    assert_eq!(Node::from_number("1_2.3_4"), Ok(number(1234, 100)));
    assert_eq!(
        Node::from_number("170141183460469231731687303715884105727"),
        Ok(number(i128::MAX, 1))
    );
    assert_eq!(
        Node::from_number("0.00000000000000000000000000000000000001"),
        Ok(number(1, 100000000000000000000000000000000000000))
    );
}

#[test]
fn from_number_rejects_what_is_no_literal() {
    for text in [
        "", "_", ".", "1.", ".1", "1.2.3", "-1", "+1", "1e3", "x", "1 ", "١",
        "170141183460469231731687303715884105728",
        "0.000000000000000000000000000000000000001",
    ] {
        assert_eq!(Node::from_number(text), Err(Error::Syntax(text.to_string())), "{:?}", text);
    }
}
