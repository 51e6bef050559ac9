use rusty::lexer;
use rusty::lexer::{mod_name, LexError};
use rusty::token::{Token, TokenType};

/// The text a token was scanned from: a string literal gets its quotes back.
fn source_text(t: &Token) -> String {
    if t.token_type == TokenType::String {
        format!("\"{}\"", t.val)
    } else {
        t.val.clone()
    }
}

fn scan(input: &str) -> Result<Vec<Token>, LexError> {
    let mut l = lexer::new(input.to_string());
    l.parse()
}

fn kinds(tokens: &[Token]) -> Vec<TokenType> {
    tokens.iter().map(|t| t.token_type).collect()
}

fn expected(token_type: TokenType, val: &str) -> Token {
    Token { token_type, val: val.to_string(), line: 1, col: 1 }
}

fn test_tokens_1() -> Vec<Token> {
    vec![
        expected(TokenType::Identifier, "x"),
        expected(TokenType::Assign, "="),
        expected(TokenType::Number, "2"),
    ]
}

fn test_tokens_2() -> Vec<Token> {
    vec![
        expected(TokenType::Identifier, "val"),
        expected(TokenType::Equal, "=="),
        expected(TokenType::Number, "52.50"),
        expected(TokenType::And, "&&"),
        expected(TokenType::Identifier, "y"),
        expected(TokenType::NotEqual, "!="),
        expected(TokenType::Number, "200"),
    ]
}

fn test_tokens_3() -> Vec<Token> {
    vec![
        expected(TokenType::Identifier, "y"),
        expected(TokenType::Equal, "=="),
        expected(TokenType::String, "this is my string"),
    ]
}

fn test_tokens_4() -> Vec<Token> {
    vec![
        expected(TokenType::Let, "let"),
        expected(TokenType::Identifier, "x"),
        expected(TokenType::Assign, "="),
        expected(TokenType::String, "test"),
    ]
}

fn lexer_test(input: &str, expected_tokens: Vec<Token>) {
    let tokens = scan(input).unwrap();
    for (index, t) in tokens.iter().enumerate() {
        match expected_tokens.get(index) {
            Some(expected_t) => {
                assert_eq!(expected_t.val, t.val);
                assert_eq!(expected_t.token_type, t.token_type);
            }
            None => panic!("unexpected token {:?}", t),
        }
    }
}

#[test]
fn it_works() {
    assert_eq!("lexer", mod_name());
}

#[test]
fn test_1() {
    let cases = vec![
        ("x = 2 //this is puran\n", test_tokens_1()),
        ("val == 52.50 && y != 200", test_tokens_2()),
        ("y == \"this is my string\"", test_tokens_3()),
        ("let x = \"test\"", test_tokens_4()),
    ];
    for (input, tokens) in cases {
        lexer_test(input, tokens);
    }
}

#[test]
fn keyword_and_identifier() {
    let t = scan("let").unwrap();
    assert_eq!(kinds(&t), vec![TokenType::Let]);
    assert_eq!(t[0].val, "let");
    let t = scan("letx").unwrap();
    assert_eq!(kinds(&t), vec![TokenType::Identifier]);
    assert_eq!(t[0].val, "letx");
}

#[test]
fn every_keyword() {
    let words = [
        ("let", TokenType::Let),
        ("var", TokenType::Var),
        ("def", TokenType::Def),
        ("defp", TokenType::Defp),
        ("module", TokenType::Module),
        ("for", TokenType::For),
        ("if", TokenType::If),
        ("else", TokenType::Else),
        ("elsif", TokenType::ElsIf),
        ("case", TokenType::Case),
        ("none", TokenType::Nil),
        ("continue", TokenType::Continue),
        ("break", TokenType::Break),
        ("true", TokenType::True),
        ("false", TokenType::False),
        ("or", TokenType::Or),
        ("and", TokenType::And),
        ("error", TokenType::Error),
        ("handle", TokenType::Handle),
        ("raise", TokenType::Raise),
    ];
    for (w, k) in words {
        let t = scan(w).unwrap();
        assert_eq!(kinds(&t), vec![k], "{}", w);
        assert_eq!(t[0].val, w);
    }
    let t = scan("Let lets").unwrap();
    assert_eq!(kinds(&t), vec![TokenType::Identifier, TokenType::Identifier]);
}

#[test]
fn multi_char_operators() {
    let t = scan("x >= y").unwrap();
    assert_eq!(
        kinds(&t),
        vec![TokenType::Identifier, TokenType::GreaterThanOrEqual, TokenType::Identifier]
    );
    assert_eq!(t[0].val, "x");
    assert_eq!(t[1].val, ">=");
    assert_eq!(t[2].val, "y");
    let t = scan("a<=b<c>d=e==f!=g&&h||i").unwrap();
    assert_eq!(
        kinds(&t),
        vec![
            TokenType::Identifier,
            TokenType::LesserThanOrEqual,
            TokenType::Identifier,
            TokenType::LesserThan,
            TokenType::Identifier,
            TokenType::GreaterThan,
            TokenType::Identifier,
            TokenType::Assign,
            TokenType::Identifier,
            TokenType::Equal,
            TokenType::Identifier,
            TokenType::NotEqual,
            TokenType::Identifier,
            TokenType::And,
            TokenType::Identifier,
            TokenType::Or,
            TokenType::Identifier,
        ]
    );
}

#[test]
fn single_char_operators_and_delimiters() {
    let t = scan("+-*/%(){}[],:").unwrap();
    assert_eq!(
        kinds(&t),
        vec![
            TokenType::Plus,
            TokenType::Minus,
            TokenType::Multiply,
            TokenType::Divide,
            TokenType::Modulo,
            TokenType::LeftParen,
            TokenType::RightParen,
            TokenType::LeftBrace,
            TokenType::RightBrace,
            TokenType::LeftBracket,
            TokenType::RightBracket,
            TokenType::Comma,
            TokenType::Colon,
        ]
    );
    let texts: Vec<&str> = t.iter().map(|t| t.val.as_str()).collect();
    assert_eq!(texts, vec!["+", "-", "*", "/", "%", "(", ")", "{", "}", "[", "]", ",", ":"]);
}

#[test]
fn unterminated_string() {
    assert_eq!(
        scan("\"abc"),
        Err(LexError::UnterminatedString { partial_text: "abc".to_string(), line: 1, column: 1 })
    );
    assert_eq!(
        scan("x = \"ab\ncd"),
        Err(LexError::UnterminatedString { partial_text: "ab\ncd".to_string(), line: 1, column: 5 })
    );
}

#[test]
fn unterminated_string_preview_is_capped() {
    let body = "abcdefghijklmnopqrstuvwxyz0123456789";
    let input = format!("\"{}", body);
    assert_eq!(
        scan(&input),
        Err(LexError::UnterminatedString {
            partial_text: body[..30].to_string(),
            line: 1,
            column: 1
        })
    );
}

#[test]
fn illegal_character() {
    assert_eq!(
        scan("x = 45~~"),
        Err(LexError::IllegalCharacter { character: '~', line: 1, column: 7 })
    );
    assert_eq!(scan("!"), Err(LexError::IllegalCharacter { character: '!', line: 1, column: 1 }));
    assert_eq!(scan("a & b"), Err(LexError::IllegalCharacter { character: '&', line: 1, column: 3 }));
    assert_eq!(scan("a |b"), Err(LexError::IllegalCharacter { character: '|', line: 1, column: 3 }));
    assert_eq!(scan("_x"), Err(LexError::IllegalCharacter { character: '_', line: 1, column: 1 }));
    assert_eq!(scan("1 . 2"), Err(LexError::IllegalCharacter { character: '.', line: 1, column: 3 }));
}

#[test]
fn invalid_number() {
    assert_eq!(
        scan("x = 12."),
        Err(LexError::InvalidNumber { partial_text: "12.".to_string(), line: 1, column: 5 })
    );
    assert_eq!(
        scan("3.x"),
        Err(LexError::InvalidNumber { partial_text: "3.".to_string(), line: 1, column: 1 })
    );
}

#[test]
fn numbers() {
    let t = scan("0 42 3.14 7.0.5").err();
    assert_eq!(t, Some(LexError::IllegalCharacter { character: '.', line: 1, column: 14 }));
    let t = scan("0 42 3.14").unwrap();
    let texts: Vec<&str> = t.iter().map(|t| t.val.as_str()).collect();
    assert_eq!(texts, vec!["0", "42", "3.14"]);
    assert_eq!(kinds(&t), vec![TokenType::Number; 3]);
    let t = scan("12ab").unwrap();
    assert_eq!(kinds(&t), vec![TokenType::Number, TokenType::Identifier]);
}

#[test]
fn strings_drop_their_quotes() {
    let t = scan("\"\" \"a b\"").unwrap();
    assert_eq!(kinds(&t), vec![TokenType::String, TokenType::String]);
    assert_eq!(t[0].val, "");
    assert_eq!(t[1].val, "a b");
    assert_eq!((t[1].line, t[1].col), (1, 4));
}

#[test]
fn unicode_identifiers() {
    let t = scan("été_2 x").unwrap();
    assert_eq!(kinds(&t), vec![TokenType::Identifier, TokenType::Identifier]);
    assert_eq!(t[0].val, "été_2");
    assert_eq!(t[1].col, 7);
}

#[test]
fn empty_and_blank_input() {
    assert_eq!(scan("").unwrap(), vec![]);
    assert_eq!(scan(" \t\r\n // only a comment").unwrap(), vec![]);
}

#[test]
fn comments_and_newlines_are_skipped() {
    let t = scan("a // one\n  b//two\n\tc /d").unwrap();
    let texts: Vec<&str> = t.iter().map(|t| t.val.as_str()).collect();
    assert_eq!(texts, vec!["a", "b", "c", "/", "d"]);
    let places: Vec<(usize, usize)> = t.iter().map(|t| (t.line, t.col)).collect();
    assert_eq!(places, vec![(1, 1), (2, 3), (3, 2), (3, 4), (3, 5)]);
}

#[test]
fn token_texts_and_gaps_give_back_the_source() {
    let input = "x = 2 // note\n  y >= 10.5*z\t== \"a // b\" \"\"";
    let t = scan(input).unwrap();
    let chars: Vec<char> = input.chars().collect();
    let mut rebuilt = String::new();
    let mut pos = 0;
    for tok in &t {
        let text = source_text(tok);
        let start = chars
            .iter()
            .enumerate()
            .position(|(i, _)| {
                i >= pos && chars[i..].iter().collect::<String>().starts_with(text.as_str())
            })
            .unwrap();
        let gap: String = chars[pos..start].iter().collect();
        assert!(scan(&gap).unwrap().is_empty());
        rebuilt.push_str(&gap);
        rebuilt.push_str(&text);
        pos = start + text.chars().count();
    }
    let tail: String = chars[pos..].iter().collect();
    assert!(scan(&tail).unwrap().is_empty());
    rebuilt.push_str(&tail);
    assert_eq!(rebuilt, input);
}

#[test]
fn relexing_a_token_gives_the_same_kind() {
    let t = scan("val == 52.50 && y != 200 and let ( ) > \"a b\" \"\"").unwrap();
    assert_eq!(t.len(), 14);
    for tok in &t {
        let again = scan(&source_text(tok)).unwrap();
        assert_eq!(again.len(), 1);
        assert_eq!(again[0].token_type, tok.token_type);
        assert_eq!(again[0].val, tok.val);
        assert_eq!((again[0].line, again[0].col), (1, 1));
    }
}

#[test]
fn scanning_continues_from_the_cursor() {
    let mut l = lexer::new("a b".to_string());
    assert_eq!(l.parse().unwrap().len(), 2);
    assert_eq!(l.parse().unwrap(), vec![]);
}

#[test]
fn cursor_after_an_error() {
    let mut l = lexer::new("!x".to_string());
    assert_eq!(l.parse(), Err(LexError::IllegalCharacter { character: '!', line: 1, column: 1 }));
    let rest = l.parse().unwrap();
    assert_eq!(rest.len(), 1);
    assert_eq!((rest[0].val.as_str(), rest[0].col), ("x", 2));

    let mut l = lexer::new("3.x".to_string());
    assert_eq!(
        l.parse(),
        Err(LexError::InvalidNumber { partial_text: "3.".to_string(), line: 1, column: 1 })
    );
    assert_eq!(l.parse(), Err(LexError::IllegalCharacter { character: '.', line: 1, column: 2 }));

    let mut l = lexer::new("a\n\"bc".to_string());
    assert_eq!(
        l.parse(),
        Err(LexError::UnterminatedString { partial_text: "bc".to_string(), line: 2, column: 1 })
    );
    assert_eq!(l.parse(), Ok(vec![]));
}
