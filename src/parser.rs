//! Recursive descent over the tokens, one procedure per precedence level:
//!
//! ```text
//! expression  → equality
//! equality    → comparison ( ("==" | "!=") comparison )*
//! comparison  → term ( (">" | ">=" | "<" | "<=") term )*
//! term        → factor ( ("+" | "-") factor )*
//! factor      → unary ( ("*" | "/") unary )*
//! unary       → "-" unary | primary
//! primary     → NUMBER | STRING | "true" | "false" | IDENTIFIER | "(" expression ")"
//! ```
use vstd::prelude::*;

use crate::text::push_char;
use crate::token::{canonical, Token, TokenType, TokenView};
use vstd::string::StringExecFns;

verus! {

/// A literal or a name: one number, string, boolean or identifier token.
#[derive(Debug, PartialEq, Eq)]
pub struct LiteralExpression {
    pub token: Token,
}

/// An operator applied to one operand.
#[derive(Debug, PartialEq, Eq)]
pub struct UnaryExpression {
    pub token: Token,
    pub expr: Box<Expression>,
}

/// An operator applied to two operands.
#[derive(Debug, PartialEq, Eq)]
pub struct BinaryExpression {
    pub left: Box<Expression>,
    pub token: Token,
    pub right: Box<Expression>,
}

/// An expression tree; each node owns its children.
#[derive(Debug, PartialEq, Eq)]
pub enum Expression {
    Literal(LiteralExpression),
    Unary(UnaryExpression),
    Binary(BinaryExpression),
}

/// The text of an expression: a literal is its token's text, a unary node
/// its operand then its operator, a binary node its left operand, its
/// operator and its right operand, separated by single spaces.
pub open spec fn rendering(e: Expression) -> Seq<char>
    decreases e,
{
    match e {
        Expression::Literal(l) => l.token.val@,
        Expression::Unary(u) => rendering(*u.expr) + seq![' '] + u.token.val@,
        Expression::Binary(b) => rendering(*b.left) + seq![' '] + b.token.val@ + seq![' '] + rendering(
            *b.right,
        ),
    }
}

impl Expression {
    /// The name of this node's variant.
    pub fn name(&self) -> (r: String)
        ensures
            r@ == match self {
                Expression::Literal(_) => "literal"@,
                Expression::Unary(_) => "unary"@,
                Expression::Binary(_) => "binary"@,
            },
    {
        match self {
            Expression::Literal(_) => "literal".to_owned(),
            Expression::Unary(_) => "unary".to_owned(),
            Expression::Binary(_) => "binary".to_owned(),
        }
    }

    /// The text of this expression.
    pub fn value(&self) -> (r: String)
        ensures
            r@ == rendering(*self),
        decreases self,
    {
        match self {
            Expression::Literal(l) => l.token.val.clone(),
            Expression::Unary(u) => {
                let mut s = u.expr.value();
                push_char(&mut s, ' ');
                s.append(u.token.val.as_str());
                s
            },
            Expression::Binary(b) => {
                let mut s = b.left.value();
                push_char(&mut s, ' ');
                s.append(b.token.val.as_str());
                push_char(&mut s, ' ');
                let right = b.right.value();
                s.append(right.as_str());
                s
            },
        }
    }
}

/// A parse error.
#[derive(Clone, Copy, Debug, PartialEq, Eq, Structural)]
pub enum ParseError {
    /// A token, at the given line and column, that cannot start an operand.
    /// At the end of the input the kind is `EndOfFile` and the position that
    /// of the last token (line 1, column 1 when there is none).
    UnexpectedToken { found: TokenType, line: usize, column: usize },
    /// A `(`, at the given line and column, with no matching `)`.
    UnclosedGroup { line: usize, column: usize },
    /// Tokens left over after a complete expression.
    TrailingInput { remaining_count: usize },
}

/// What a parse step gives: the tree and the index of the first token after
/// it, or an error.
pub type Parsed = Result<(Expression, int), ParseError>;

/// Binary precedence level of `*` and `/`, the tightest.
pub const FACTOR: u8 = 1;

/// Binary precedence level of `+` and `-`.
pub const TERM: u8 = 2;

/// Binary precedence level of `>`, `>=`, `<` and `<=`.
pub const COMPARISON: u8 = 3;

/// Binary precedence level of `==` and `!=`, the loosest.
pub const EQUALITY: u8 = 4;

/// The kind of the token at `i`, or `EndOfFile` past the last one.
pub open spec fn kind_at(toks: Seq<Token>, i: int) -> TokenType {
    if 0 <= i < toks.len() {
        toks[i].token_type
    } else {
        TokenType::EndOfFile
    }
}

/// Whether `k` is an operator of the binary level `level`.
pub open spec fn is_level_op(level: nat, k: TokenType) -> bool {
    ||| level == FACTOR && (k == TokenType::Multiply || k == TokenType::Divide)
    ||| level == TERM && (k == TokenType::Plus || k == TokenType::Minus)
    ||| level == COMPARISON && (k == TokenType::GreaterThan || k == TokenType::GreaterThanOrEqual
        || k == TokenType::LesserThan || k == TokenType::LesserThanOrEqual)
    ||| level == EQUALITY && (k == TokenType::Equal || k == TokenType::NotEqual)
}

/// Whether a token of kind `k` is an operand by itself.
pub open spec fn is_literal_kind(k: TokenType) -> bool {
    k == TokenType::Number || k == TokenType::String || k == TokenType::True || k
        == TokenType::False || k == TokenType::Identifier
}

/// The line reported for the end of the input: that of the last token, or 1
/// when there is none.
pub open spec fn end_line(toks: Seq<Token>) -> usize {
    if toks.len() > 0 {
        toks.last().line
    } else {
        1
    }
}

/// The column reported for the end of the input: that of the last token, or
/// 1 when there is none.
pub open spec fn end_col(toks: Seq<Token>) -> usize {
    if toks.len() > 0 {
        toks.last().col
    } else {
        1
    }
}

/// The end-of-input token that reads past the last token give.
pub open spec fn end_of_input(toks: Seq<Token>) -> TokenView {
    TokenView {
        kind: TokenType::EndOfFile,
        text: canonical(TokenType::EndOfFile),
        line: end_line(toks) as nat,
        col: end_col(toks) as nat,
    }
}

/// The number of tokens before the end of the input: all of them, less a
/// final end-of-input token.
pub open spec fn content_len(toks: Seq<Token>) -> int {
    if toks.len() > 0 && toks.last().token_type == TokenType::EndOfFile {
        toks.len() - 1
    } else {
        toks.len() as int
    }
}

/// The error for a token at `i` that cannot start an operand.
pub open spec fn unexpected_at(toks: Seq<Token>, i: int) -> ParseError {
    if 0 <= i < toks.len() {
        ParseError::UnexpectedToken {
            found: toks[i].token_type,
            line: toks[i].line,
            column: toks[i].col,
        }
    } else {
        ParseError::UnexpectedToken {
            found: TokenType::EndOfFile,
            line: end_line(toks),
            column: end_col(toks),
        }
    }
}

/// The binary node `left op right`.
pub open spec fn binary(left: Expression, op: Token, right: Expression) -> Expression {
    Expression::Binary(BinaryExpression { left: Box::new(left), token: op, right: Box::new(right) })
}

/// The expression of binary level `level` (0: a unary operand) at `i`.
pub open spec fn parse_level(toks: Seq<Token>, level: nat, i: int) -> Parsed
    decreases toks.len() - i, level, 2int,
{
    if level == 0 {
        unary_at(toks, i)
    } else {
        match parse_level(toks, (level - 1) as nat, i) {
            Err(e) => Err(e),
            Ok((left, j)) => {
                if i < j <= toks.len() {
                    binary_tail(toks, level, left, j)
                } else {
                    Ok((left, j))
                }
            },
        }
    }
}

/// After `left`, at `i`: folds each further operator of `level` and its right
/// operand into a new node whose left child is all that came before.
pub open spec fn binary_tail(toks: Seq<Token>, level: nat, left: Expression, i: int) -> Parsed
    decreases toks.len() - i, level, 1int,
{
    if 0 <= i < toks.len() && level > 0 && is_level_op(level, toks[i].token_type) {
        match parse_level(toks, (level - 1) as nat, i + 1) {
            Err(e) => Err(e),
            Ok((right, j)) => {
                if i < j <= toks.len() {
                    binary_tail(toks, level, binary(left, toks[i], right), j)
                } else {
                    Ok((left, i))
                }
            },
        }
    } else {
        Ok((left, i))
    }
}

/// A unary operand at `i`: a `-` applied to a unary operand, or a primary.
pub open spec fn unary_at(toks: Seq<Token>, i: int) -> Parsed
    decreases toks.len() - i, 0int, 1int,
{
    if 0 <= i < toks.len() && toks[i].token_type == TokenType::Minus {
        match unary_at(toks, i + 1) {
            Err(e) => Err(e),
            Ok((operand, j)) => Ok(
                (Expression::Unary(UnaryExpression { token: toks[i], expr: Box::new(operand) }), j),
            ),
        }
    } else {
        primary_at(toks, i)
    }
}

/// A primary at `i`: a literal, or an expression in parentheses.
pub open spec fn primary_at(toks: Seq<Token>, i: int) -> Parsed
    decreases toks.len() - i, 0int, 0int,
{
    if 0 <= i < toks.len() && is_literal_kind(toks[i].token_type) {
        Ok((Expression::Literal(LiteralExpression { token: toks[i] }), i + 1))
    } else if 0 <= i < toks.len() && toks[i].token_type == TokenType::LeftParen {
        match parse_level(toks, EQUALITY as nat, i + 1) {
            Err(e) => Err(e),
            Ok((inner, j)) => {
                if kind_at(toks, j) == TokenType::RightParen {
                    Ok((inner, j + 1))
                } else {
                    Err(ParseError::UnclosedGroup { line: toks[i].line, column: toks[i].col })
                }
            },
        }
    } else {
        Err(unexpected_at(toks, i))
    }
}

/// The expression that the tokens from `i` on make up, which must use all of
/// them but a final end-of-input token.
pub open spec fn parse_from(toks: Seq<Token>, i: int) -> Result<Expression, ParseError> {
    match parse_level(toks, EQUALITY as nat, i) {
        Err(e) => Err(e),
        Ok((e, j)) => {
            if j < content_len(toks) {
                Err(ParseError::TrailingInput { remaining_count: (content_len(toks) - j) as usize })
            } else {
                Ok(e)
            }
        },
    }
}

/// The expression that the whole token sequence `toks` makes up.
pub open spec fn parse_tokens(toks: Seq<Token>) -> Result<Expression, ParseError> {
    parse_from(toks, 0)
}

/// `r`, with the cursor left at `end`, is the outcome `expected` of a parse
/// step.
pub open spec fn stepped(r: Result<Expression, ParseError>, end: int, expected: Parsed) -> bool {
    match expected {
        Ok((e, j)) => r == Ok::<Expression, ParseError>(e) && end == j,
        Err(err) => r == Err::<Expression, ParseError>(err),
    }
}

/// The parser: the token sequence it owns, a cursor into it, and the
/// end-of-input token that reads past the last token give.
pub struct Parser {
    tokens: Vec<Token>,
    current_index: usize,
    end: Token,
}

/// Makes a parser that stands at the first of `tokens`.
pub fn new(tokens: Vec<Token>) -> (r: Parser)
    ensures
        r.wf(),
        r.tokens() == tokens@,
        r.index() == 0,
{
    let n = tokens.len();
    let (line, col) = if n > 0 {
        (tokens[n - 1].line, tokens[n - 1].col)
    } else {
        (1, 1)
    };
    let end = Token { token_type: TokenType::EndOfFile, val: TokenType::EndOfFile.as_str().to_owned(), line, col };
    Parser { tokens, current_index: 0, end }
}

impl Parser {
    /// The tokens being parsed.
    pub closed spec fn tokens(&self) -> Seq<Token> {
        self.tokens@
    }

    /// Where the cursor stands.
    pub closed spec fn index(&self) -> int {
        self.current_index as int
    }

    /// The token that reads past the last token give.
    pub closed spec fn end_token(&self) -> Token {
        self.end
    }

    /// The cursor stands within the tokens or just past them, and the
    /// end-of-input token stands where the input ends.
    pub closed spec fn wf(&self) -> bool {
        &&& self.current_index <= self.tokens.len()
        &&& self.end@ == end_of_input(self.tokens@)
    }

    /// Parses one expression from the cursor on, which must use every token
    /// that is left but a final end-of-input token.
    pub fn parse(&mut self) -> (r: Result<Expression, ParseError>)
        requires
            old(self).wf(),
        ensures
            final(self).wf(),
            final(self).tokens() == old(self).tokens(),
            r == parse_from(old(self).tokens(), old(self).index()),
    {
        let e = match self.expression() {
            Ok(e) => e,
            Err(err) => return Err(err),
        };
        let mut content = self.tokens.len();
        if content > 0 && self.tokens[content - 1].token_type == TokenType::EndOfFile {
            content = content - 1;
        }
        if self.current_index < content {
            Err(ParseError::TrailingInput { remaining_count: content - self.current_index })
        } else {
            Ok(e)
        }
    }

    /// expression → equality
    fn expression(&mut self) -> (r: Result<Expression, ParseError>)
        requires
            old(self).wf(),
        ensures
            final(self).wf(),
            final(self).tokens() == old(self).tokens(),
            stepped(r, final(self).index(), parse_level(old(self).tokens(), EQUALITY as nat, old(self).index())),
            r is Ok ==> old(self).index() < final(self).index(),
        decreases self.tokens@.len() - self.current_index, EQUALITY as nat, 3nat,
    {
        self.equality()
    }

    /// equality → comparison ( ("==" | "!=") comparison )*
    fn equality(&mut self) -> (r: Result<Expression, ParseError>)
        requires
            old(self).wf(),
        ensures
            final(self).wf(),
            final(self).tokens() == old(self).tokens(),
            stepped(r, final(self).index(), parse_level(old(self).tokens(), EQUALITY as nat, old(self).index())),
            r is Ok ==> old(self).index() < final(self).index(),
        decreases self.tokens@.len() - self.current_index, EQUALITY as nat, 2nat,
    {
        let expr = match self.comparision() {
            Ok(e) => e,
            Err(err) => return Err(err),
        };
        self.build_expression(expr, EQUALITY)
    }

    /// comparison → term ( (">" | ">=" | "<" | "<=") term )*
    fn comparision(&mut self) -> (r: Result<Expression, ParseError>)
        requires
            old(self).wf(),
        ensures
            final(self).wf(),
            final(self).tokens() == old(self).tokens(),
            stepped(r, final(self).index(), parse_level(old(self).tokens(), COMPARISON as nat, old(self).index())),
            r is Ok ==> old(self).index() < final(self).index(),
        decreases self.tokens@.len() - self.current_index, COMPARISON as nat, 2nat,
    {
        let expr = match self.term() {
            Ok(e) => e,
            Err(err) => return Err(err),
        };
        self.build_expression(expr, COMPARISON)
    }

    /// term → factor ( ("+" | "-") factor )*
    fn term(&mut self) -> (r: Result<Expression, ParseError>)
        requires
            old(self).wf(),
        ensures
            final(self).wf(),
            final(self).tokens() == old(self).tokens(),
            stepped(r, final(self).index(), parse_level(old(self).tokens(), TERM as nat, old(self).index())),
            r is Ok ==> old(self).index() < final(self).index(),
        decreases self.tokens@.len() - self.current_index, TERM as nat, 2nat,
    {
        let expr = match self.factor() {
            Ok(e) => e,
            Err(err) => return Err(err),
        };
        self.build_expression(expr, TERM)
    }

    /// factor → unary ( ("*" | "/") unary )*
    fn factor(&mut self) -> (r: Result<Expression, ParseError>)
        requires
            old(self).wf(),
        ensures
            final(self).wf(),
            final(self).tokens() == old(self).tokens(),
            stepped(r, final(self).index(), parse_level(old(self).tokens(), FACTOR as nat, old(self).index())),
            r is Ok ==> old(self).index() < final(self).index(),
        decreases self.tokens@.len() - self.current_index, FACTOR as nat, 2nat,
    {
        proof {
            reveal_with_fuel(parse_level, 2);
        }
        let expr = match self.unary() {
            Ok(e) => e,
            Err(err) => return Err(err),
        };
        self.build_expression(expr, FACTOR)
    }

    /// The operand of a binary operator of `level`: an expression of the
    /// next tighter level.
    fn operand(&mut self, level: u8) -> (r: Result<Expression, ParseError>)
        requires
            old(self).wf(),
            FACTOR <= level <= EQUALITY,
        ensures
            final(self).wf(),
            final(self).tokens() == old(self).tokens(),
            stepped(r, final(self).index(), parse_level(old(self).tokens(), (level - 1) as nat, old(self).index())),
            r is Ok ==> old(self).index() < final(self).index(),
        decreases self.tokens@.len() - self.current_index, (level - 1) as nat, 3nat,
    {
        if level == EQUALITY {
            self.comparision()
        } else if level == COMPARISON {
            self.term()
        } else if level == TERM {
            self.factor()
        } else {
            self.unary()
        }
    }

    /// After `expr`: while the current token is an operator of `level`,
    /// consumes it and the right operand and makes them, with all that came
    /// before as the left child, a new node.
    fn build_expression(&mut self, expr: Expression, level: u8) -> (r: Result<Expression, ParseError>)
        requires
            old(self).wf(),
            FACTOR <= level <= EQUALITY,
        ensures
            final(self).wf(),
            final(self).tokens() == old(self).tokens(),
            stepped(r, final(self).index(), binary_tail(old(self).tokens(), level as nat, expr, old(self).index())),
            r is Ok ==> old(self).index() <= final(self).index(),
        decreases self.tokens@.len() - self.current_index, level as nat, 1nat,
    {
        let ghost toks = self.tokens@;
        let ghost i0 = self.current_index as int;
        let ghost goal = binary_tail(toks, level as nat, expr, i0);
        let mut final_expr = expr;
        loop
            invariant
                self.wf(),
                self.tokens@ == toks,
                toks == old(self).tokens(),
                i0 == old(self).index(),
                FACTOR <= level <= EQUALITY,
                i0 <= self.current_index,
                goal == binary_tail(old(self).tokens(), level as nat, expr, old(self).index()),
                binary_tail(toks, level as nat, final_expr, self.current_index as int) == goal,
            decreases toks.len() - self.current_index,
        {
            if !self.match_next_token(level) {
                return Ok(final_expr);
            }
            let operator = self.next_token();
            self.advance_token();
            let right = match self.operand(level) {
                Ok(e) => e,
                Err(err) => return Err(err),
            };
            final_expr = Expression::Binary(
                BinaryExpression { left: Box::new(final_expr), token: operator, right: Box::new(right) },
            );
        }
    }

    /// unary → "-" unary | primary
    fn unary(&mut self) -> (r: Result<Expression, ParseError>)
        requires
            old(self).wf(),
        ensures
            final(self).wf(),
            final(self).tokens() == old(self).tokens(),
            stepped(r, final(self).index(), unary_at(old(self).tokens(), old(self).index())),
            r is Ok ==> old(self).index() < final(self).index(),
        decreases self.tokens@.len() - self.current_index, 0nat, 1nat,
    {
        if self.check_token(TokenType::Minus) {
            let operator = self.next_token();
            self.advance_token();
            let operand = match self.unary() {
                Ok(e) => e,
                Err(err) => return Err(err),
            };
            return Ok(Expression::Unary(UnaryExpression { token: operator, expr: Box::new(operand) }));
        }
        self.primary()
    }

    /// primary → NUMBER | STRING | "true" | "false" | IDENTIFIER | "(" expression ")"
    fn primary(&mut self) -> (r: Result<Expression, ParseError>)
        requires
            old(self).wf(),
        ensures
            final(self).wf(),
            final(self).tokens() == old(self).tokens(),
            stepped(r, final(self).index(), primary_at(old(self).tokens(), old(self).index())),
            r is Ok ==> old(self).index() < final(self).index(),
        decreases self.tokens@.len() - self.current_index, 0nat, 0nat,
    {
        if self.check_token(TokenType::Number) || self.check_token(TokenType::String)
            || self.check_token(TokenType::True) || self.check_token(TokenType::False)
            || self.check_token(TokenType::Identifier) {
            let token = self.next_token();
            self.advance_token();
            return Ok(Expression::Literal(LiteralExpression { token }));
        }
        if self.check_token(TokenType::LeftParen) {
            let open = self.next_token();
            self.advance_token();
            let inner = match self.expression() {
                Ok(e) => e,
                Err(err) => return Err(err),
            };
            if self.check_token(TokenType::RightParen) {
                self.advance_token();
                return Ok(inner);
            }
            return Err(ParseError::UnclosedGroup { line: open.line, column: open.col });
        }
        Err(self.unexpected_token())
    }

    /// The error for the current token, which cannot start an operand.
    fn unexpected_token(&self) -> (e: ParseError)
        requires
            self.wf(),
        ensures
            e == unexpected_at(self.tokens(), self.index()),
    {
        let t = self.next_token();
        ParseError::UnexpectedToken { found: t.token_type, line: t.line, column: t.col }
    }

    /// Moves the cursor past the current token.
    fn advance_token(&mut self)
        requires
            old(self).wf(),
            old(self).index() < old(self).tokens().len(),
        ensures
            final(self).wf(),
            final(self).tokens() == old(self).tokens(),
            final(self).index() == old(self).index() + 1,
    {
        self.current_index = self.current_index + 1;
    }

    /// A copy of the current token; past the last one, the end-of-input
    /// token.
    fn next_token(&self) -> (t: Token)
        requires
            self.wf(),
        ensures
            t == if self.index() < self.tokens().len() {
                self.tokens()[self.index()]
            } else {
                self.end_token()
            },
            self.index() >= self.tokens().len() ==> t@ == end_of_input(self.tokens()),
    {
        if self.current_index < self.tokens.len() {
            self.tokens[self.current_index].clone()
        } else {
            self.end.clone()
        }
    }

    /// Whether the current token is an operator of the binary level `level`.
    fn match_next_token(&self, level: u8) -> (r: bool)
        requires
            self.wf(),
        ensures
            r == (self.index() < self.tokens().len() && is_level_op(
                level as nat,
                self.tokens()[self.index()].token_type,
            )),
    {
        if level == FACTOR {
            self.check_token(TokenType::Multiply) || self.check_token(TokenType::Divide)
        } else if level == TERM {
            self.check_token(TokenType::Plus) || self.check_token(TokenType::Minus)
        } else if level == COMPARISON {
            self.check_token(TokenType::GreaterThan) || self.check_token(TokenType::GreaterThanOrEqual)
                || self.check_token(TokenType::LesserThan) || self.check_token(
                TokenType::LesserThanOrEqual,
            )
        } else if level == EQUALITY {
            self.check_token(TokenType::Equal) || self.check_token(TokenType::NotEqual)
        } else {
            false
        }
    }

    /// Whether the current token is of kind `kind` (past the last token, the
    /// kind is `EndOfFile`).
    fn check_token(&self, kind: TokenType) -> (r: bool)
        requires
            self.wf(),
        ensures
            r == (kind_at(self.tokens(), self.index()) == kind),
    {
        if self.current_index < self.tokens.len() {
            self.tokens[self.current_index].token_type == kind
        } else {
            kind == TokenType::EndOfFile
        }
    }
}

} // verus!
