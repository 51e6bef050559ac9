//! The scanner: a single forward pass over the characters of the source that
//! yields tokens or fails at the first lexical error.
use vstd::prelude::*;

use crate::text::{
    alphabetic, alphanumeric, char_is_alphabetic, char_is_alphanumeric, char_is_digit, is_digit, text_of,
};
use crate::token::{keyword_kind, lookup_keyword, Token, TokenType, TokenView};

verus! {

/// How many characters of an unterminated string an error carries.
pub const PREVIEW_LEN: usize = 30;

/// A lexical error, with the 1-based line and column where it was found.
#[derive(Debug, PartialEq, Eq)]
pub enum LexError {
    /// A character that no lexical rule accepts.
    IllegalCharacter { character: char, line: usize, column: usize },
    /// A string literal that the input ends inside of; the position is that
    /// of its opening quote, the text what follows it (at most
    /// `PREVIEW_LEN` characters).
    UnterminatedString { partial_text: String, line: usize, column: usize },
    /// A number followed by a decimal point with no digit after it; the text
    /// runs from the first digit through the point.
    InvalidNumber { partial_text: String, line: usize, column: usize },
}

/// What a lexical error holds, as mathematical values.
pub enum LexErrorView {
    IllegalCharacter { character: char, line: nat, column: nat },
    UnterminatedString { partial_text: Seq<char>, line: nat, column: nat },
    InvalidNumber { partial_text: Seq<char>, line: nat, column: nat },
}

impl View for LexError {
    type V = LexErrorView;

    open spec fn view(&self) -> LexErrorView {
        match self {
            LexError::IllegalCharacter { character, line, column } => LexErrorView::IllegalCharacter {
                character: *character,
                line: *line as nat,
                column: *column as nat,
            },
            LexError::UnterminatedString { partial_text, line, column } =>
                LexErrorView::UnterminatedString {
                partial_text: partial_text@,
                line: *line as nat,
                column: *column as nat,
            },
            LexError::InvalidNumber { partial_text, line, column } => LexErrorView::InvalidNumber {
                partial_text: partial_text@,
                line: *line as nat,
                column: *column as nat,
            },
        }
    }
}

/// Blank characters: discarded between tokens.
pub open spec fn is_blank(c: char) -> bool {
    c == ' ' || c == '\t' || c == '\r'
}

/// The end of the run of blanks, newlines and `//` comments that starts at `p`.
pub open spec fn trivia_end(s: Seq<char>, p: int) -> int
    decreases s.len() - p, 0int,
{
    if p < s.len() && (is_blank(s[p]) || s[p] == '\n') {
        trivia_end(s, p + 1)
    } else if p + 1 < s.len() && s[p] == '/' && s[p + 1] == '/' {
        after_comment(s, p + 2)
    } else {
        p
    }
}

/// Inside a comment at `p`: skips to the next newline (or the end of the
/// input), then goes on as `trivia_end`.
pub open spec fn after_comment(s: Seq<char>, p: int) -> int
    decreases s.len() - p, 1int,
{
    if p < s.len() && s[p] != '\n' {
        after_comment(s, p + 1)
    } else {
        trivia_end(s, p)
    }
}

/// The end of the run of ASCII digits that starts at `p`.
pub open spec fn digits_end(s: Seq<char>, p: int) -> int
    decreases s.len() - p,
{
    if p < s.len() && is_digit(s[p]) {
        digits_end(s, p + 1)
    } else {
        p
    }
}

/// A character that may continue an identifier.
pub open spec fn is_word_char(c: char) -> bool {
    alphanumeric(c) || c == '_'
}

/// The end of the run of identifier characters that starts at `p`.
pub open spec fn word_end(s: Seq<char>, p: int) -> int
    decreases s.len() - p,
{
    if p < s.len() && is_word_char(s[p]) {
        word_end(s, p + 1)
    } else {
        p
    }
}

/// The index of the first `"` at or after `p`, or the end of the input.
pub open spec fn quote_end(s: Seq<char>, p: int) -> int
    decreases s.len() - p,
{
    if p < s.len() && s[p] != '"' {
        quote_end(s, p + 1)
    } else {
        p
    }
}

/// The 1-based line of position `p`.
pub open spec fn line_at(s: Seq<char>, p: int) -> nat
    decreases p,
{
    if p <= 0 {
        1
    } else if s[p - 1] == '\n' {
        line_at(s, p - 1) + 1
    } else {
        line_at(s, p - 1)
    }
}

/// The 1-based column of position `p`, counted in characters.
pub open spec fn col_at(s: Seq<char>, p: int) -> nat
    decreases p,
{
    if p <= 0 {
        1
    } else if s[p - 1] == '\n' {
        1
    } else {
        col_at(s, p - 1) + 1
    }
}

/// Whether the character after `p` is `c`.
pub open spec fn next_is(s: Seq<char>, p: int, c: char) -> bool {
    p + 1 < s.len() && s[p + 1] == c
}

/// The illegal-character error for the character at `p`.
pub open spec fn illegal_at(s: Seq<char>, p: int) -> LexErrorView {
    LexErrorView::IllegalCharacter { character: s[p], line: line_at(s, p), column: col_at(s, p) }
}

/// An operator or delimiter at `p` (maximal munch with one character of
/// lookahead): its kind and end, or an error when the character has no
/// meaning on its own.
pub open spec fn operator_at(s: Seq<char>, p: int) -> Result<(TokenType, int), LexErrorView> {
    let c = s[p];
    if c == '+' {
        Ok((TokenType::Plus, p + 1))
    } else if c == '-' {
        Ok((TokenType::Minus, p + 1))
    } else if c == '*' {
        Ok((TokenType::Multiply, p + 1))
    } else if c == '/' {
        Ok((TokenType::Divide, p + 1))
    } else if c == '%' {
        Ok((TokenType::Modulo, p + 1))
    } else if c == '(' {
        Ok((TokenType::LeftParen, p + 1))
    } else if c == ')' {
        Ok((TokenType::RightParen, p + 1))
    } else if c == '{' {
        Ok((TokenType::LeftBrace, p + 1))
    } else if c == '}' {
        Ok((TokenType::RightBrace, p + 1))
    } else if c == '[' {
        Ok((TokenType::LeftBracket, p + 1))
    } else if c == ']' {
        Ok((TokenType::RightBracket, p + 1))
    } else if c == ',' {
        Ok((TokenType::Comma, p + 1))
    } else if c == ':' {
        Ok((TokenType::Colon, p + 1))
    } else if c == '=' {
        if next_is(s, p, '=') {
            Ok((TokenType::Equal, p + 2))
        } else {
            Ok((TokenType::Assign, p + 1))
        }
    } else if c == '>' {
        if next_is(s, p, '=') {
            Ok((TokenType::GreaterThanOrEqual, p + 2))
        } else {
            Ok((TokenType::GreaterThan, p + 1))
        }
    } else if c == '<' {
        if next_is(s, p, '=') {
            Ok((TokenType::LesserThanOrEqual, p + 2))
        } else {
            Ok((TokenType::LesserThan, p + 1))
        }
    } else if c == '!' && next_is(s, p, '=') {
        Ok((TokenType::NotEqual, p + 2))
    } else if c == '&' && next_is(s, p, '&') {
        Ok((TokenType::And, p + 2))
    } else if c == '|' && next_is(s, p, '|') {
        Ok((TokenType::Or, p + 2))
    } else {
        Err(illegal_at(s, p))
    }
}

/// Whether `c` starts an operator or a delimiter.
pub open spec fn is_operator_start(c: char) -> bool {
    c == '+' || c == '-' || c == '*' || c == '/' || c == '%' || c == '(' || c == ')' || c == '{'
        || c == '}' || c == '[' || c == ']' || c == ',' || c == ':' || c == '=' || c == '>' || c
        == '<' || c == '!' || c == '&' || c == '|'
}

/// A string literal whose opening quote is at `p`.
pub open spec fn string_at(s: Seq<char>, p: int) -> Result<(TokenType, int), LexErrorView> {
    let q = quote_end(s, p + 1);
    if q < s.len() {
        Ok((TokenType::String, q + 1))
    } else {
        let stop = if s.len() < p + 1 + PREVIEW_LEN {
            s.len() as int
        } else {
            p + 1 + PREVIEW_LEN
        };
        Err(
            LexErrorView::UnterminatedString {
                partial_text: s.subrange(p + 1, stop),
                line: line_at(s, p),
                column: col_at(s, p),
            },
        )
    }
}

/// A number whose first digit is at `p`: digits, then optionally a decimal
/// point and at least one more digit.
pub open spec fn number_at(s: Seq<char>, p: int) -> Result<(TokenType, int), LexErrorView> {
    let d = digits_end(s, p + 1);
    if d < s.len() && s[d] == '.' {
        if d + 1 < s.len() && is_digit(s[d + 1]) {
            Ok((TokenType::Number, digits_end(s, d + 2)))
        } else {
            Err(
                LexErrorView::InvalidNumber {
                    partial_text: s.subrange(p, d + 1),
                    line: line_at(s, p),
                    column: col_at(s, p),
                },
            )
        }
    } else {
        Ok((TokenType::Number, d))
    }
}

/// An identifier or keyword whose first letter is at `p`.
pub open spec fn word_at(s: Seq<char>, p: int) -> (TokenType, int) {
    let e = word_end(s, p + 1);
    match keyword_kind(s.subrange(p, e)) {
        Some(k) => (k, e),
        None => (TokenType::Identifier, e),
    }
}

/// The token that starts at `p`: its kind and end, or the error found there.
pub open spec fn scan_at(s: Seq<char>, p: int) -> Result<(TokenType, int), LexErrorView> {
    let c = s[p];
    if is_operator_start(c) {
        operator_at(s, p)
    } else if c == '"' {
        string_at(s, p)
    } else if is_digit(c) {
        number_at(s, p)
    } else if alphabetic(c) {
        Ok(word_at(s, p))
    } else {
        Err(illegal_at(s, p))
    }
}

/// The token of kind `k` that spans `s[p..e]`.
pub open spec fn token_at(s: Seq<char>, p: int, k: TokenType, e: int) -> TokenView {
    TokenView {
        kind: k,
        text: if k == TokenType::String {
            s.subrange(p + 1, e - 1)
        } else {
            s.subrange(p, e)
        },
        line: line_at(s, p),
        col: col_at(s, p),
    }
}

/// Where the cursor stands after the scan step at `p` failed with `err`:
/// just past an illegal character, at the end of the input inside an
/// unterminated string, on the decimal point of an invalid number.
pub open spec fn error_stop(s: Seq<char>, p: int, err: LexErrorView) -> int {
    match err {
        LexErrorView::IllegalCharacter { .. } => p + 1,
        LexErrorView::UnterminatedString { .. } => s.len() as int,
        LexErrorView::InvalidNumber { partial_text, .. } => p + partial_text.len() - 1,
    }
}

/// `r`, with the cursor left at `end`, is the outcome `expected` of scanning
/// one token at `p`.
pub open spec fn scanned(
    r: Result<Token, LexError>,
    s: Seq<char>,
    p: int,
    end: int,
    expected: Result<(TokenType, int), LexErrorView>,
) -> bool {
    match expected {
        Ok((k, e)) => r is Ok && r->Ok_0@ == token_at(s, p, k, e) && end == e,
        Err(err) => r is Err && r->Err_0@ == err && end == error_stop(s, p, err),
    }
}

/// The tokens of `s` from position `p` on, or the first error.
pub open spec fn lex_from(s: Seq<char>, p: int) -> Result<Seq<TokenView>, LexErrorView>
    decreases s.len() - p,
{
    if p < 0 || p > s.len() {
        Ok(Seq::empty())
    } else {
        let t = trivia_end(s, p);
        if t >= s.len() {
            Ok(Seq::empty())
        } else {
            match scan_at(s, t) {
                Err(e) => Err(e),
                Ok((k, e)) => {
                    proof {
                        lemma_trivia_end_bounds(s, p);
                        lemma_scan_at_end(s, t);
                    }
                    match lex_from(s, e) {
                        Ok(rest) => Ok(seq![token_at(s, t, k, e)] + rest),
                        Err(err) => Err(err),
                    }
                },
            }
        }
    }
}

/// The tokens `ts` followed by the outcome `r` of scanning what comes after
/// them.
pub open spec fn prepend(ts: Seq<TokenView>, r: Result<Seq<TokenView>, LexErrorView>) -> Result<
    Seq<TokenView>,
    LexErrorView,
> {
    match r {
        Ok(rest) => Ok(ts + rest),
        Err(e) => Err(e),
    }
}

/// The exec outcome `r` is the outcome `expected` of a scan.
pub open spec fn lexed(
    r: Result<Vec<Token>, LexError>,
    expected: Result<Seq<TokenView>, LexErrorView>,
) -> bool {
    match expected {
        Ok(ts) => r is Ok && r->Ok_0@.map_values(|t: Token| t@) == ts,
        Err(e) => r is Err && r->Err_0@ == e,
    }
}

/// The tokens of the whole source `s`, or its first lexical error.
pub open spec fn scan(s: Seq<char>) -> Result<Seq<TokenView>, LexErrorView> {
    lex_from(s, 0)
}

pub proof fn lemma_trivia_end_bounds(s: Seq<char>, p: int)
    requires
        0 <= p <= s.len(),
    ensures
        p <= trivia_end(s, p) <= s.len(),
    decreases s.len() - p, 0int,
{
    if p < s.len() && (is_blank(s[p]) || s[p] == '\n') {
        lemma_trivia_end_bounds(s, p + 1);
    } else if p + 1 < s.len() && s[p] == '/' && s[p + 1] == '/' {
        lemma_after_comment_bounds(s, p + 2);
    }
}

pub proof fn lemma_after_comment_bounds(s: Seq<char>, p: int)
    requires
        0 <= p <= s.len(),
    ensures
        p <= after_comment(s, p) <= s.len(),
    decreases s.len() - p, 1int,
{
    if p < s.len() && s[p] != '\n' {
        lemma_after_comment_bounds(s, p + 1);
    } else {
        lemma_trivia_end_bounds(s, p);
    }
}

pub proof fn lemma_run_ends(s: Seq<char>, p: int)
    requires
        0 <= p <= s.len(),
    ensures
        p <= digits_end(s, p) <= s.len(),
        p <= word_end(s, p) <= s.len(),
        p <= quote_end(s, p) <= s.len(),
    decreases s.len() - p,
{
    if p < s.len() {
        lemma_run_ends(s, p + 1);
    }
}

/// A token scanned at `p` ends after `p` and within the input.
pub proof fn lemma_scan_at_end(s: Seq<char>, p: int)
    requires
        0 <= p < s.len(),
    ensures
        scan_at(s, p) matches Ok((k, e)) ==> p < e <= s.len(),
{
    lemma_run_ends(s, p + 1);
    let d = digits_end(s, p + 1);
    if d + 2 <= s.len() {
        lemma_run_ends(s, d + 2);
    }
}

/// The 1-based line and column of a position never exceed the position plus one.
pub proof fn lemma_position_bounds(s: Seq<char>, p: int)
    requires
        0 <= p,
    ensures
        line_at(s, p) <= p + 1,
        col_at(s, p) <= p + 1,
    decreases p,
{
    if p > 0 {
        lemma_position_bounds(s, p - 1);
    }
}

/// A position in the source, with the 1-based line and column there.
#[derive(Clone, Copy, Debug, PartialEq, Eq, Structural)]
pub struct Cursor {
    pub position: usize,
    pub line: usize,
    pub column: usize,
}

impl Cursor {
    /// This cursor stands at a position of `s`, with its line and column.
    pub open spec fn within(self, s: Seq<char>) -> bool {
        &&& self.position <= s.len()
        &&& self.line == line_at(s, self.position as int)
        &&& self.column == col_at(s, self.position as int)
    }
}

/// The scanner: the source, as characters, and a cursor that only moves
/// forward.
pub struct Lexer {
    input: Vec<char>,
    cursor: Cursor,
}

/// Makes a scanner that stands at the start of `input`.
pub fn new(input: String) -> (r: Lexer)
    requires
        input@.len() < usize::MAX,
    ensures
        r.wf(),
        r.source() == input@,
        r.position() == 0,
{
    let mut chars: Vec<char> = Vec::new();
    for c in it: input.as_str().chars()
        invariant
            chars@ == it.seq().subrange(0, it.index()),
    {
        chars.push(c);
    }
    assert(chars@ == input@);
    Lexer { input: chars, cursor: Cursor { position: 0, line: 1, column: 1 } }
}

/// The name of this module.
pub fn mod_name() -> (r: String)
    ensures
        r@ == "lexer"@,
{
    "lexer".to_owned()
}

impl Lexer {
    /// The characters being scanned.
    pub closed spec fn source(&self) -> Seq<char> {
        self.input@
    }

    /// Where the cursor stands.
    pub closed spec fn position(&self) -> int {
        self.cursor.position as int
    }

    /// The cursor stands within the source, with the right line and column,
    /// and every line and column fits in a `usize`.
    pub closed spec fn wf(&self) -> bool {
        &&& self.input@.len() < usize::MAX
        &&& self.cursor.within(self.input@)
    }

    /// Whether any character is left under the cursor.
    fn has_more_token(&self) -> (r: bool)
        requires
            self.wf(),
        ensures
            r == (self.position() < self.source().len()),
    {
        self.cursor.position < self.input.len()
    }

    /// The character under the cursor, if any.
    fn peek_char(&self) -> (r: Option<char>)
        requires
            self.wf(),
        ensures
            r == if self.position() < self.source().len() {
                Some(self.source()[self.position()])
            } else {
                None::<char>
            },
    {
        if self.cursor.position < self.input.len() {
            Some(self.input[self.cursor.position])
        } else {
            None
        }
    }

    /// The character after the one under the cursor, if any.
    fn peek_next_char(&self) -> (r: Option<char>)
        requires
            self.wf(),
        ensures
            r == if self.position() + 1 < self.source().len() {
                Some(self.source()[self.position() + 1])
            } else {
                None::<char>
            },
    {
        if self.cursor.position + 1 < self.input.len() {
            Some(self.input[self.cursor.position + 1])
        } else {
            None
        }
    }

    /// Whether the character under the cursor is `expected`.
    fn match_next_char(&self, expected: char) -> (r: bool)
        requires
            self.wf(),
        ensures
            r == (self.position() < self.source().len() && self.source()[self.position()] == expected),
    {
        self.cursor.position < self.input.len() && self.input[self.cursor.position] == expected
    }

    /// Whether the character `ahead` places past the cursor is an ASCII digit.
    fn digit_ahead(&self, ahead: usize) -> (r: bool)
        requires
            self.wf(),
            ahead <= 1,
        ensures
            r == (self.position() + ahead < self.source().len() && is_digit(
                self.source()[self.position() + ahead],
            )),
    {
        let i = self.cursor.position + ahead;
        i < self.input.len() && char_is_digit(self.input[i])
    }

    /// Whether the character under the cursor may continue an identifier.
    fn word_char_next(&self) -> (r: bool)
        requires
            self.wf(),
        ensures
            r == (self.position() < self.source().len() && is_word_char(
                self.source()[self.position()],
            )),
    {
        if self.cursor.position < self.input.len() {
            let c = self.input[self.cursor.position];
            char_is_alphanumeric(c) || c == '_'
        } else {
            false
        }
    }

    /// Moves the cursor one character on, keeping line and column.
    fn increment_position(&mut self)
        requires
            old(self).wf(),
            old(self).position() < old(self).source().len(),
        ensures
            final(self).wf(),
            final(self).source() == old(self).source(),
            final(self).position() == old(self).position() + 1,
    {
        proof {
            lemma_position_bounds(self.input@, self.cursor.position as int);
        }
        if self.input[self.cursor.position] == '\n' {
            self.cursor.line = self.cursor.line + 1;
            self.cursor.column = 1;
        } else {
            self.cursor.column = self.cursor.column + 1;
        }
        self.cursor.position = self.cursor.position + 1;
    }

    /// Skips blanks, newlines and `//` comments.
    fn skip_trivia(&mut self)
        requires
            old(self).wf(),
        ensures
            final(self).wf(),
            final(self).source() == old(self).source(),
            final(self).position() == trivia_end(old(self).source(), old(self).position()),
    {
        let ghost src = self.input@;
        let ghost target = trivia_end(src, self.cursor.position as int);
        loop
            invariant
                self.wf(),
                self.input@ == src,
                trivia_end(src, self.cursor.position as int) == target,
            ensures
                self.wf(),
                self.input@ == src,
                self.cursor.position == target,
            decreases src.len() - self.cursor.position,
        {
            let ghost entry = self.cursor.position;
            let c = match self.peek_char() {
                Some(c) => c,
                None => break,
            };
            if c == ' ' || c == '\t' || c == '\r' || c == '\n' {
                self.increment_position();
            } else if c == '/' && self.peek_next_char() == Some('/') {
                self.increment_position();
                self.increment_position();
                while self.has_more_token() && !self.match_next_char('\n')
                    invariant
                        self.wf(),
                        self.input@ == src,
                        after_comment(src, self.cursor.position as int) == target,
                        self.cursor.position > entry,
                    decreases src.len() - self.cursor.position,
                {
                    self.increment_position();
                }
            } else {
                break;
            }
        }
    }

    /// The token of kind `kind` that runs from `start` to the cursor.
    fn get_token_with_val(&self, kind: TokenType, start: Cursor) -> (t: Token)
        requires
            self.wf(),
            start.within(self.source()),
            start.position < self.position(),
            kind == TokenType::String ==> start.position + 2 <= self.position(),
        ensures
            t@ == token_at(self.source(), start.position as int, kind, self.position()),
    {
        let val = if kind == TokenType::String {
            text_of(&self.input, start.position + 1, self.cursor.position - 1)
        } else {
            text_of(&self.input, start.position, self.cursor.position)
        };
        Token { token_type: kind, val, line: start.line, col: start.column }
    }

    /// The error for the illegal character `c` found at `start`.
    fn illegal_character(c: char, start: Cursor) -> (e: LexError)
        ensures
            e@ == (LexErrorView::IllegalCharacter {
                character: c,
                line: start.line as nat,
                column: start.column as nat,
            }),
    {
        LexError::IllegalCharacter { character: c, line: start.line, column: start.column }
    }

    /// After the character `c` at `start`: the two-character kind `pair` when
    /// `second` follows, else the one-character kind `single`, or an
    /// illegal-character error where there is none.
    fn multi_char_token(
        &mut self,
        c: char,
        start: Cursor,
        second: char,
        pair: TokenType,
        single: Option<TokenType>,
    ) -> (r: Result<Token, LexError>)
        requires
            old(self).wf(),
            start.within(old(self).source()),
            start.position + 1 == old(self).position(),
            old(self).source()[start.position as int] == c,
            pair != TokenType::String,
            single != Some(TokenType::String),
        ensures
            final(self).wf(),
            final(self).source() == old(self).source(),
            scanned(
                r,
                old(self).source(),
                start.position as int,
                final(self).position(),
                if next_is(old(self).source(), start.position as int, second) {
                    Ok((pair, start.position + 2))
                } else {
                    match single {
                        Some(k) => Ok((k, start.position + 1)),
                        None => Err(illegal_at(old(self).source(), start.position as int)),
                    }
                },
            ),
    {
        if self.match_next_char(second) {
            self.increment_position();
            Ok(self.get_token_with_val(pair, start))
        } else {
            match single {
                Some(kind) => Ok(self.get_token_with_val(kind, start)),
                None => Err(Self::illegal_character(c, start)),
            }
        }
    }

    /// A string literal whose opening quote, at `start`, was just read.
    fn get_string_token(&mut self, start: Cursor) -> (r: Result<Token, LexError>)
        requires
            old(self).wf(),
            start.within(old(self).source()),
            start.position + 1 == old(self).position(),
            old(self).source()[start.position as int] == '"',
        ensures
            final(self).wf(),
            final(self).source() == old(self).source(),
            scanned(
                r,
                old(self).source(),
                start.position as int,
                final(self).position(),
                string_at(old(self).source(), start.position as int),
            ),
    {
        let ghost src = self.input@;
        let ghost p = start.position as int;
        while self.has_more_token() && !self.match_next_char('"')
            invariant
                self.wf(),
                self.input@ == src,
                p < self.cursor.position,
                quote_end(src, self.cursor.position as int) == quote_end(src, p + 1),
            decreases src.len() - self.cursor.position,
        {
            self.increment_position();
        }
        if !self.has_more_token() {
            let first = start.position + 1;
            let stop = if self.input.len() - first < PREVIEW_LEN {
                self.input.len()
            } else {
                first + PREVIEW_LEN
            };
            let partial_text = text_of(&self.input, first, stop);
            return Err(
                LexError::UnterminatedString { partial_text, line: start.line, column: start.column },
            );
        }
        self.increment_position();
        Ok(self.get_token_with_val(TokenType::String, start))
    }

    /// A number or a word whose first character `c`, at `start`, was just
    /// read; any other character there is illegal.
    fn get_complex_token(&mut self, c: char, start: Cursor) -> (r: Result<Token, LexError>)
        requires
            old(self).wf(),
            start.within(old(self).source()),
            start.position + 1 == old(self).position(),
            old(self).source()[start.position as int] == c,
        ensures
            final(self).wf(),
            final(self).source() == old(self).source(),
            scanned(
                r,
                old(self).source(),
                start.position as int,
                final(self).position(),
                if is_digit(c) {
                    number_at(old(self).source(), start.position as int)
                } else if alphabetic(c) {
                    Ok(word_at(old(self).source(), start.position as int))
                } else {
                    Err(illegal_at(old(self).source(), start.position as int))
                },
            ),
    {
        let ghost src = self.input@;
        let ghost p = start.position as int;
        if char_is_digit(c) {
            while self.digit_ahead(0)
                invariant
                    self.wf(),
                    self.input@ == src,
                    p < self.cursor.position,
                    digits_end(src, self.cursor.position as int) == digits_end(src, p + 1),
                decreases src.len() - self.cursor.position,
            {
                self.increment_position();
            }
            if self.match_next_char('.') {
                if !self.digit_ahead(1) {
                    let partial_text = text_of(&self.input, start.position, self.cursor.position + 1);
                    return Err(
                        LexError::InvalidNumber { partial_text, line: start.line, column: start.column },
                    );
                }
                let ghost fraction = self.cursor.position + 2;
                self.increment_position();
                self.increment_position();
                while self.digit_ahead(0)
                    invariant
                        self.wf(),
                        self.input@ == src,
                        p < self.cursor.position,
                        digits_end(src, self.cursor.position as int) == digits_end(src, fraction),
                    decreases src.len() - self.cursor.position,
                {
                    self.increment_position();
                }
            }
            Ok(self.get_token_with_val(TokenType::Number, start))
        } else if char_is_alphabetic(c) {
            while self.word_char_next()
                invariant
                    self.wf(),
                    self.input@ == src,
                    p < self.cursor.position,
                    word_end(src, self.cursor.position as int) == word_end(src, p + 1),
                decreases src.len() - self.cursor.position,
            {
                self.increment_position();
            }
            let kind = match lookup_keyword(&self.input, start.position, self.cursor.position) {
                Some(k) => k,
                None => TokenType::Identifier,
            };
            Ok(self.get_token_with_val(kind, start))
        } else {
            Err(Self::illegal_character(c, start))
        }
    }

    /// Scans the token under the cursor.
    fn next_token(&mut self) -> (r: Result<Token, LexError>)
        requires
            old(self).wf(),
            old(self).position() < old(self).source().len(),
        ensures
            final(self).wf(),
            final(self).source() == old(self).source(),
            scanned(
                r,
                old(self).source(),
                old(self).position(),
                final(self).position(),
                scan_at(old(self).source(), old(self).position()),
            ),
            old(self).position() < final(self).position() <= final(self).source().len(),
    {
        proof {
            lemma_scan_at_end(self.input@, self.cursor.position as int);
            lemma_run_ends(self.input@, self.cursor.position + 1);
        }
        let start = self.cursor;
        let c = self.read_char();
        if c == '+' {
            Ok(self.get_token_with_val(TokenType::Plus, start))
        } else if c == '-' {
            Ok(self.get_token_with_val(TokenType::Minus, start))
        } else if c == '*' {
            Ok(self.get_token_with_val(TokenType::Multiply, start))
        } else if c == '/' {
            Ok(self.get_token_with_val(TokenType::Divide, start))
        } else if c == '%' {
            Ok(self.get_token_with_val(TokenType::Modulo, start))
        } else if c == '(' {
            Ok(self.get_token_with_val(TokenType::LeftParen, start))
        } else if c == ')' {
            Ok(self.get_token_with_val(TokenType::RightParen, start))
        } else if c == '{' {
            Ok(self.get_token_with_val(TokenType::LeftBrace, start))
        } else if c == '}' {
            Ok(self.get_token_with_val(TokenType::RightBrace, start))
        } else if c == '[' {
            Ok(self.get_token_with_val(TokenType::LeftBracket, start))
        } else if c == ']' {
            Ok(self.get_token_with_val(TokenType::RightBracket, start))
        } else if c == ',' {
            Ok(self.get_token_with_val(TokenType::Comma, start))
        } else if c == ':' {
            Ok(self.get_token_with_val(TokenType::Colon, start))
        } else if c == '=' {
            self.multi_char_token(c, start, '=', TokenType::Equal, Some(TokenType::Assign))
        } else if c == '>' {
            self.multi_char_token(c, start, '=', TokenType::GreaterThanOrEqual, Some(TokenType::GreaterThan))
        } else if c == '<' {
            self.multi_char_token(c, start, '=', TokenType::LesserThanOrEqual, Some(TokenType::LesserThan))
        } else if c == '!' {
            self.multi_char_token(c, start, '=', TokenType::NotEqual, None)
        } else if c == '&' {
            self.multi_char_token(c, start, '&', TokenType::And, None)
        } else if c == '|' {
            self.multi_char_token(c, start, '|', TokenType::Or, None)
        } else if c == '"' {
            self.get_string_token(start)
        } else {
            self.get_complex_token(c, start)
        }
    }

    /// Scans from the cursor to the end of the input: the tokens, in order,
    /// without blanks, newlines and comments and without an end-of-input
    /// token; or the first lexical error.
    pub fn parse(&mut self) -> (r: Result<Vec<Token>, LexError>)
        requires
            old(self).wf(),
        ensures
            final(self).wf(),
            final(self).source() == old(self).source(),
            lexed(r, lex_from(old(self).source(), old(self).position())),
            r is Ok ==> final(self).position() == final(self).source().len(),
    {
        let ghost src = self.input@;
        let ghost p0 = self.cursor.position as int;
        let mut tokens: Vec<Token> = Vec::new();
        loop
            invariant
                self.wf(),
                self.input@ == src,
                src == old(self).source(),
                p0 == old(self).position(),
                lex_from(src, p0) == prepend(
                    tokens@.map_values(|t: Token| t@),
                    lex_from(src, self.cursor.position as int),
                ),
            decreases src.len() - self.cursor.position,
        {
            let ghost before = self.cursor.position as int;
            proof {
                lemma_trivia_end_bounds(src, before);
            }
            self.skip_trivia();
            if !self.has_more_token() {
                proof {
                    assert(tokens@.map_values(|t: Token| t@) + Seq::empty() =~= tokens@.map_values(
                        |t: Token| t@,
                    ));
                }
                return Ok(tokens);
            }
            let ghost here = self.cursor.position as int;
            proof {
                lemma_scan_at_end(src, here);
            }
            match self.next_token() {
                Ok(token) => {
                    let ghost ts = tokens@.map_values(|t: Token| t@);
                    tokens.push(token);
                    proof {
                        assert(tokens@.map_values(|t: Token| t@) =~= ts + seq![token@]);
                        match lex_from(src, self.cursor.position as int) {
                            Ok(rest) => {
                                assert(ts + (seq![token@] + rest) =~= (ts + seq![token@]) + rest);
                            },
                            Err(_) => {},
                        }
                    }
                },
                Err(e) => {
                    return Err(e);
                },
            }
        }
    }

    /// Returns the character under the cursor and moves past it.
    fn read_char(&mut self) -> (c: char)
        requires
            old(self).wf(),
            old(self).position() < old(self).source().len(),
        ensures
            final(self).wf(),
            final(self).source() == old(self).source(),
            final(self).position() == old(self).position() + 1,
            c == old(self).source()[old(self).position()],
    {
        let c = self.input[self.cursor.position];
        self.increment_position();
        c
    }
}

} // verus!
