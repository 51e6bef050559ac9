use vstd::prelude::*;

use crate::text::spells;

verus! {

/// The kinds of lexical units.
#[derive(Clone, Copy, Debug, PartialEq, Eq, Structural)]
pub enum TokenType {
    EndOfFile,
    // identifier and literals
    Identifier,
    Number,
    String,
    Assign,
    // arithmetic operators
    Plus,
    Minus,
    Multiply,
    Divide,
    Modulo,
    // comparators
    Equal,
    NotEqual,
    GreaterThan,
    LesserThan,
    GreaterThanOrEqual,
    LesserThanOrEqual,
    // delimiters
    Comma,
    Colon,
    LeftParen,
    RightParen,
    LeftBrace,
    RightBrace,
    LeftBracket,
    RightBracket,
    Comment,
    // keywords
    Def,
    Defp,
    Let,
    Var,
    Module,
    If,
    Else,
    ElsIf,
    For,
    Case,
    True,
    False,
    Or,
    And,
    Nil,
    Continue,
    Break,
    Error,
    Handle,
    Raise,
}

/// The canonical textual form of each kind.
pub open spec fn canonical(t: TokenType) -> Seq<char> {
    match t {
        TokenType::EndOfFile => "EOF"@,
        TokenType::Identifier => "IDENT"@,
        TokenType::Number => "NUMBER"@,
        TokenType::String => "STRING"@,
        TokenType::Assign => "="@,
        TokenType::Plus => "+"@,
        TokenType::Minus => "-"@,
        TokenType::Multiply => "*"@,
        TokenType::Divide => "/"@,
        TokenType::Modulo => "%"@,
        TokenType::Equal => "=="@,
        TokenType::NotEqual => "!="@,
        TokenType::GreaterThan => ">"@,
        TokenType::LesserThan => "<"@,
        TokenType::GreaterThanOrEqual => ">="@,
        TokenType::LesserThanOrEqual => "<="@,
        TokenType::Comma => ","@,
        TokenType::Colon => ":"@,
        TokenType::LeftParen => "("@,
        TokenType::RightParen => ")"@,
        TokenType::LeftBrace => "{"@,
        TokenType::RightBrace => "}"@,
        TokenType::LeftBracket => "["@,
        TokenType::RightBracket => "]"@,
        TokenType::Comment => "//"@,
        TokenType::Def => "def"@,
        TokenType::Defp => "defp"@,
        TokenType::Let => "let"@,
        TokenType::Var => "var"@,
        TokenType::Module => "module"@,
        TokenType::If => "if"@,
        TokenType::Else => "else"@,
        TokenType::ElsIf => "elsif"@,
        TokenType::For => "for"@,
        TokenType::Case => "case"@,
        TokenType::True => "true"@,
        TokenType::False => "false"@,
        TokenType::Or => "||"@,
        TokenType::And => "&&"@,
        TokenType::Nil => "none"@,
        TokenType::Continue => "continue"@,
        TokenType::Break => "break"@,
        TokenType::Error => "error"@,
        TokenType::Handle => "handle"@,
        TokenType::Raise => "raise"@,
    }
}

/// A lexical unit: its kind, the text it was scanned from (a string
/// literal without its quotes), and the 1-based line and column of its first
/// character.
#[derive(Debug, PartialEq, Eq)]
pub struct Token {
    pub token_type: TokenType,
    pub val: String,
    pub line: usize,
    pub col: usize,
}

/// What a token holds, as mathematical values.
pub struct TokenView {
    pub kind: TokenType,
    pub text: Seq<char>,
    pub line: nat,
    pub col: nat,
}

impl View for Token {
    type V = TokenView;

    open spec fn view(&self) -> TokenView {
        TokenView { kind: self.token_type, text: self.val@, line: self.line as nat, col: self.col as nat }
    }
}

impl Clone for Token {
    fn clone(&self) -> (r: Token)
        ensures
            r == *self,
    {
        Token { token_type: self.token_type, val: self.val.clone(), line: self.line, col: self.col }
    }
}

/// The keyword table: the reserved words and the kinds they stand for.
pub open spec fn keyword_kind(w: Seq<char>) -> Option<TokenType> {
    if w == "let"@ {
        Some(TokenType::Let)
    } else if w == "var"@ {
        Some(TokenType::Var)
    } else if w == "def"@ {
        Some(TokenType::Def)
    } else if w == "defp"@ {
        Some(TokenType::Defp)
    } else if w == "module"@ {
        Some(TokenType::Module)
    } else if w == "for"@ {
        Some(TokenType::For)
    } else if w == "if"@ {
        Some(TokenType::If)
    } else if w == "else"@ {
        Some(TokenType::Else)
    } else if w == "elsif"@ {
        Some(TokenType::ElsIf)
    } else if w == "case"@ {
        Some(TokenType::Case)
    } else if w == "none"@ {
        Some(TokenType::Nil)
    } else if w == "continue"@ {
        Some(TokenType::Continue)
    } else if w == "break"@ {
        Some(TokenType::Break)
    } else if w == "true"@ {
        Some(TokenType::True)
    } else if w == "false"@ {
        Some(TokenType::False)
    } else if w == "or"@ {
        Some(TokenType::Or)
    } else if w == "and"@ {
        Some(TokenType::And)
    } else if w == "error"@ {
        Some(TokenType::Error)
    } else if w == "handle"@ {
        Some(TokenType::Handle)
    } else if w == "raise"@ {
        Some(TokenType::Raise)
    } else {
        None
    }
}

/// Looks the word `chars[from..to]` up in the keyword table.
pub fn lookup_keyword(chars: &Vec<char>, from: usize, to: usize) -> (r: Option<TokenType>)
    requires
        from <= to <= chars@.len(),
    ensures
        r == keyword_kind(chars@.subrange(from as int, to as int)),
{
    if spells(chars, from, to, "let") {
        Some(TokenType::Let)
    } else if spells(chars, from, to, "var") {
        Some(TokenType::Var)
    } else if spells(chars, from, to, "def") {
        Some(TokenType::Def)
    } else if spells(chars, from, to, "defp") {
        Some(TokenType::Defp)
    } else if spells(chars, from, to, "module") {
        Some(TokenType::Module)
    } else if spells(chars, from, to, "for") {
        Some(TokenType::For)
    } else if spells(chars, from, to, "if") {
        Some(TokenType::If)
    } else if spells(chars, from, to, "else") {
        Some(TokenType::Else)
    } else if spells(chars, from, to, "elsif") {
        Some(TokenType::ElsIf)
    } else if spells(chars, from, to, "case") {
        Some(TokenType::Case)
    } else if spells(chars, from, to, "none") {
        Some(TokenType::Nil)
    } else if spells(chars, from, to, "continue") {
        Some(TokenType::Continue)
    } else if spells(chars, from, to, "break") {
        Some(TokenType::Break)
    } else if spells(chars, from, to, "true") {
        Some(TokenType::True)
    } else if spells(chars, from, to, "false") {
        Some(TokenType::False)
    } else if spells(chars, from, to, "or") {
        Some(TokenType::Or)
    } else if spells(chars, from, to, "and") {
        Some(TokenType::And)
    } else if spells(chars, from, to, "error") {
        Some(TokenType::Error)
    } else if spells(chars, from, to, "handle") {
        Some(TokenType::Handle)
    } else if spells(chars, from, to, "raise") {
        Some(TokenType::Raise)
    } else {
        None
    }
}

impl TokenType {
    /// The canonical textual form of this kind.
    pub fn as_str(&self) -> (r: &'static str)
        ensures
            r@ == canonical(*self),
    {
        match self {
            TokenType::EndOfFile => "EOF",
            TokenType::Identifier => "IDENT",
            TokenType::Number => "NUMBER",
            TokenType::String => "STRING",
            TokenType::Assign => "=",
            TokenType::Plus => "+",
            TokenType::Minus => "-",
            TokenType::Multiply => "*",
            TokenType::Divide => "/",
            TokenType::Modulo => "%",
            TokenType::Equal => "==",
            TokenType::NotEqual => "!=",
            TokenType::GreaterThan => ">",
            TokenType::LesserThan => "<",
            TokenType::GreaterThanOrEqual => ">=",
            TokenType::LesserThanOrEqual => "<=",
            TokenType::Comma => ",",
            TokenType::Colon => ":",
            TokenType::LeftParen => "(",
            TokenType::RightParen => ")",
            TokenType::LeftBrace => "{",
            TokenType::RightBrace => "}",
            TokenType::LeftBracket => "[",
            TokenType::RightBracket => "]",
            TokenType::Comment => "//",
            TokenType::Def => "def",
            TokenType::Defp => "defp",
            TokenType::Let => "let",
            TokenType::Var => "var",
            TokenType::Module => "module",
            TokenType::If => "if",
            TokenType::Else => "else",
            TokenType::ElsIf => "elsif",
            TokenType::For => "for",
            TokenType::Case => "case",
            TokenType::True => "true",
            TokenType::False => "false",
            TokenType::Or => "||",
            TokenType::And => "&&",
            TokenType::Nil => "none",
            TokenType::Continue => "continue",
            TokenType::Break => "break",
            TokenType::Error => "error",
            TokenType::Handle => "handle",
            TokenType::Raise => "raise",
        }
    }
}

} // verus!
