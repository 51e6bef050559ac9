use rusty::lexer;
use rusty::parser;
use rusty::parser::{Expression, ParseError, Parser};
use rusty::token::{Token, TokenType};

fn tokens_of(input: &str) -> Vec<Token> {
    let mut l = lexer::new(input.to_string());
    l.parse().unwrap()
}

fn parse(input: &str) -> Result<Expression, ParseError> {
    let mut p = parser::new(tokens_of(input));
    p.parse()
}

/// The tree as a prefix form: `(op left right)`, `(op operand)`, or a literal.
fn shape(e: &Expression) -> String {
    match e {
        Expression::Literal(l) => l.token.val.clone(),
        Expression::Unary(u) => format!("({} {})", u.token.val, shape(&u.expr)),
        Expression::Binary(b) => {
            format!("({} {} {})", b.token.val, shape(&b.left), shape(&b.right))
        }
    }
}

#[test]
fn parser_expression_test() {
    let input = String::from("x >= y + 5");
    let mut lexer = lexer::new(input);
    let tokens = lexer.parse().unwrap();

    let mut parser: Parser = parser::new(tokens);
    let expr = parser.parse().unwrap();

    println!("Expression value: {}", expr.value());
    assert_eq!(shape(&expr), "(>= x (+ y 5))");
}

#[test]
fn precedence() {
    assert_eq!(shape(&parse("2 + 3 * 4").unwrap()), "(+ 2 (* 3 4))");
    assert_eq!(shape(&parse("2 * 3 + 4").unwrap()), "(+ (* 2 3) 4)");
    assert_eq!(shape(&parse("1 == 2 < 3 - 4 / 5").unwrap()), "(== 1 (< 2 (- 3 (/ 4 5))))");
}

#[test]
fn left_associativity() {
    assert_eq!(shape(&parse("8 - 3 - 2").unwrap()), "(- (- 8 3) 2)");
    assert_eq!(shape(&parse("8 / 4 * 2").unwrap()), "(* (/ 8 4) 2)");
    assert_eq!(shape(&parse("a == b != c").unwrap()), "(!= (== a b) c)");
}

#[test]
fn unary_binds_tighter_than_binary() {
    assert_eq!(shape(&parse("-2 + 3").unwrap()), "(+ (- 2) 3)");
    assert_eq!(shape(&parse("- - x").unwrap()), "(- (- x))");
    assert_eq!(shape(&parse("2 * -3").unwrap()), "(* 2 (- 3))");
}

#[test]
fn grouping() {
    assert_eq!(shape(&parse("(1 + 2) * 3").unwrap()), "(* (+ 1 2) 3)");
    assert_eq!(shape(&parse("((x))").unwrap()), "x");
    assert_eq!(parse("(1 + 2 * 3"), Err(ParseError::UnclosedGroup { line: 1, column: 1 }));
    assert_eq!(parse("2 * (1 + 2"), Err(ParseError::UnclosedGroup { line: 1, column: 5 }));
    assert_eq!(parse("(1 2)"), Err(ParseError::UnclosedGroup { line: 1, column: 1 }));
}

#[test]
fn literals() {
    for (input, kind) in [
        ("42", TokenType::Number),
        ("\"hi\"", TokenType::String),
        ("true", TokenType::True),
        ("false", TokenType::False),
        ("name", TokenType::Identifier),
    ] {
        match parse(input).unwrap() {
            Expression::Literal(l) => assert_eq!(l.token.token_type, kind),
            other => panic!("{:?}", other),
        }
    }
}

#[test]
fn unexpected_token() {
    assert_eq!(
        parse("1 + )"),
        Err(ParseError::UnexpectedToken { found: TokenType::RightParen, line: 1, column: 5 })
    );
    assert_eq!(
        parse("1 +"),
        Err(ParseError::UnexpectedToken { found: TokenType::EndOfFile, line: 1, column: 3 })
    );
    assert_eq!(
        parse(""),
        Err(ParseError::UnexpectedToken { found: TokenType::EndOfFile, line: 1, column: 1 })
    );
    assert_eq!(
        parse("let"),
        Err(ParseError::UnexpectedToken { found: TokenType::Let, line: 1, column: 1 })
    );
}

#[test]
fn trailing_input() {
    assert_eq!(parse("1 2"), Err(ParseError::TrailingInput { remaining_count: 1 }));
    assert_eq!(parse("(1) ) ("), Err(ParseError::TrailingInput { remaining_count: 2 }));
    assert_eq!(parse("1 % 2"), Err(ParseError::TrailingInput { remaining_count: 2 }));
}

#[test]
fn tree_keeps_token_positions() {
    match parse("a\n  + b").unwrap() {
        Expression::Binary(b) => {
            assert_eq!((b.token.line, b.token.col), (2, 3));
            match *b.right {
                Expression::Literal(l) => assert_eq!((l.token.line, l.token.col), (2, 5)),
                other => panic!("{:?}", other),
            }
        }
        other => panic!("{:?}", other),
    }
}

#[test]
fn names_and_values() {
    let e = parse("2 + 3 * 4").unwrap();
    assert_eq!(e.name(), "binary");
    assert_eq!(e.value(), "2 + 3 * 4");
    let e = parse("-(1 - x)").unwrap();
    assert_eq!(e.name(), "unary");
    assert_eq!(e.value(), "1 - x -");
    let e = parse("\"s\"").unwrap();
    assert_eq!(e.name(), "literal");
    assert_eq!(e.value(), "s");
}

fn in_order(e: &Expression, out: &mut Vec<Token>) {
    match e {
        Expression::Literal(l) => out.push(l.token.clone()),
        Expression::Unary(u) => {
            out.push(u.token.clone());
            in_order(&u.expr, out);
        }
        Expression::Binary(b) => {
            in_order(&b.left, out);
            out.push(b.token.clone());
            in_order(&b.right, out);
        }
    }
}

#[test]
fn tree_reads_back_as_its_tokens() {
    let toks = tokens_of("-(a + 2) * (b) >= ((3)) - -x");
    let e = parser::new(toks.clone()).parse().unwrap();
    let mut out = Vec::new();
    in_order(&e, &mut out);
    let expected: Vec<Token> = toks
        .into_iter()
        .filter(|t| t.token_type != TokenType::LeftParen && t.token_type != TokenType::RightParen)
        .collect();
    assert_eq!(out, expected);
}

fn end_token(line: usize, col: usize) -> Token {
    Token { token_type: TokenType::EndOfFile, val: "EOF".to_string(), line, col }
}

#[test]
fn final_end_of_input_token_is_not_trailing() {
    let mut toks = tokens_of("1 + 2");
    toks.push(end_token(1, 6));
    let e = parser::new(toks).parse().unwrap();
    assert_eq!(shape(&e), "(+ 1 2)");

    let mut toks = tokens_of("1 2");
    toks.push(end_token(1, 4));
    assert_eq!(
        parser::new(toks).parse(),
        Err(ParseError::TrailingInput { remaining_count: 1 })
    );

    let toks = vec![end_token(1, 1)];
    assert_eq!(
        parser::new(toks).parse(),
        Err(ParseError::UnexpectedToken { found: TokenType::EndOfFile, line: 1, column: 1 })
    );
}
