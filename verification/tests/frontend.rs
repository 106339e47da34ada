use kalc::{parse_expression, parse_tokens, tokenize, ASTNode, Error, Op, Parser, Token};

fn chars(s: &str) -> Vec<char> {
    s.chars().collect()
}

fn num(s: &str) -> ASTNode {
    ASTNode::Number(chars(s))
}

fn bin(left: ASTNode, op: Op, right: ASTNode) -> ASTNode {
    ASTNode::BinaryOp { left: Box::new(left), op, right: Box::new(right) }
}

#[test]
fn tokenize_simple_expression() {
    let toks = tokenize(&chars("2+3")).unwrap();
    assert_eq!(
        toks,
        vec![Token::Number(chars("2")), Token::Add, Token::Number(chars("3")), Token::Eof]
    );
}

#[test]
fn tokenize_skips_spaces_and_newlines() {
    let toks = tokenize(&chars("2 + 3\n")).unwrap();
    assert_eq!(
        toks,
        vec![Token::Number(chars("2")), Token::Add, Token::Number(chars("3")), Token::Eof]
    );
}

#[test]
fn tokenize_decimal_literal() {
    let toks = tokenize(&chars("3.14x2.5")).unwrap();
    assert_eq!(
        toks,
        vec![Token::Number(chars("3.14")), Token::Mul, Token::Number(chars("2.5")), Token::Eof]
    );
}

#[test]
fn tokenize_rejects_second_decimal_point() {
    assert_eq!(tokenize(&chars("1.2.3")), Err(Error::InvalidExpression));
}

#[test]
fn tokenize_rejects_empty_input() {
    assert_eq!(tokenize(&chars("")), Err(Error::InvalidExpression));
}

#[test]
fn tokenize_rejects_leading_operator() {
    assert_eq!(tokenize(&chars("+5")), Err(Error::InvalidExpression));
}

#[test]
fn tokenize_rejects_unrecognized_character() {
    assert_eq!(tokenize(&chars("5&3")), Err(Error::UnrecognizedCharacter('&')));
}

#[test]
fn parse_single_number_is_identity() {
    assert_eq!(parse_expression(&chars("42")), Ok(num("42")));
}

#[test]
fn parse_left_associates_additive_operators() {
    let ast = parse_expression(&chars("10-2-3")).unwrap();
    assert_eq!(ast, bin(bin(num("10"), Op::Sub, num("2")), Op::Sub, num("3")));
}

#[test]
fn parse_gives_multiplication_precedence() {
    let ast = parse_expression(&chars("2+3x4")).unwrap();
    assert_eq!(ast, bin(num("2"), Op::Add, bin(num("3"), Op::Mul, num("4"))));
    let ast = parse_expression(&chars("2x3+4")).unwrap();
    assert_eq!(ast, bin(bin(num("2"), Op::Mul, num("3")), Op::Add, num("4")));
}

#[test]
fn parse_rejects_adjacent_numbers() {
    assert_eq!(parse_expression(&chars("2 3")), Err(Error::InvalidExpression));
}

#[test]
fn parse_tolerates_dangling_operator() {
    assert_eq!(parse_expression(&chars("5+")), Ok(num("5")));
    assert_eq!(parse_expression(&chars("5 +")), Ok(num("5")));
}

#[test]
fn parse_of_end_of_input_alone_yields_no_expression() {
    let mut parser = Parser::new(vec![Token::Eof]);
    assert_eq!(parser.parse_program(), Ok(None));
}

#[test]
fn empty_token_sequence_is_a_parse_failure() {
    assert_eq!(parse_tokens(vec![Token::Eof]), Err(Error::ParseFailure));
}

#[test]
fn parser_reports_number_after_expression() {
    let mut parser = Parser::new(vec![
        Token::Number(chars("2")),
        Token::Number(chars("3")),
        Token::Eof,
    ]);
    assert_eq!(parser.parse_program(), Err(Error::InvalidExpression));
}

#[test]
fn division_token_recognized() {
    let toks = tokenize(&chars("5/0")).unwrap();
    assert_eq!(
        toks,
        vec![Token::Number(chars("5")), Token::Div, Token::Number(chars("0")), Token::Eof]
    );
}
