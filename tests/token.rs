use rusty::token::{Token, TokenType};

#[test]
fn canonical_forms() {
    assert_eq!(TokenType::Plus.as_str(), "+");
    assert_eq!(TokenType::GreaterThanOrEqual.as_str(), ">=");
    assert_eq!(TokenType::And.as_str(), "&&");
    assert_eq!(TokenType::Or.as_str(), "||");
    assert_eq!(TokenType::Nil.as_str(), "none");
    assert_eq!(TokenType::Identifier.as_str(), "IDENT");
    assert_eq!(TokenType::EndOfFile.as_str(), "EOF");
    assert_eq!(TokenType::Comment.as_str(), "//");
    assert_eq!(TokenType::ElsIf.as_str(), "elsif");
}

#[test]
fn clone_keeps_every_field() {
    let t = Token { token_type: TokenType::Number, val: "4.5".to_string(), line: 3, col: 9 };
    assert_eq!(t.clone(), t);
}
