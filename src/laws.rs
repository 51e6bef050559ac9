//! Properties that relate the scanner's output to its source, several scans
//! to each other, and a parse tree to its tokens.
use vstd::prelude::*;

use crate::lexer::{
    after_comment, digits_end, is_blank, lemma_after_comment_bounds, lemma_run_ends,
    lemma_scan_at_end, lemma_trivia_end_bounds, lex_from, quote_end, scan, scan_at, token_at,
    trivia_end, word_end,
};
use crate::parser::{
    binary, binary_tail, is_level_op, kind_at, parse_level, parse_tokens, primary_at, unary_at,
    Expression, EQUALITY,
};
use crate::token::{Token, TokenType, TokenView};

verus! {

/// A span that the scanner skips whole: blanks, newlines and `//` comments.
pub open spec fn is_trivia(g: Seq<char>) -> bool {
    trivia_end(g, 0) == g.len()
}

/// The source text a token was scanned from: its text, and for a string
/// literal its quotes around it.
pub open spec fn source_text(t: TokenView) -> Seq<char> {
    if t.kind == TokenType::String {
        seq!['"'] + t.text + seq!['"']
    } else {
        t.text
    }
}

/// `gaps[0]`, the source text of `toks[0]`, `gaps[1]`, ..., the source text
/// of the last token, then the last gap.
pub open spec fn weave(gaps: Seq<Seq<char>>, toks: Seq<TokenView>) -> Seq<char>
    decreases toks.len(),
{
    if toks.len() == 0 {
        if gaps.len() > 0 {
            gaps[0]
        } else {
            Seq::empty()
        }
    } else {
        gaps[0] + source_text(toks[0]) + weave(gaps.drop_first(), toks.drop_first())
    }
}

/// A token can start at `p`: nothing there is skipped.
pub open spec fn at_token_start(s: Seq<char>, p: int) -> bool {
    &&& 0 <= p < s.len()
    &&& !is_blank(s[p])
    &&& s[p] != '\n'
    &&& !(p + 1 < s.len() && s[p] == '/' && s[p + 1] == '/')
}

proof fn lemma_trivia_end_stops(s: Seq<char>, p: int)
    requires
        0 <= p <= s.len(),
    ensures
        trivia_end(s, p) < s.len() ==> at_token_start(s, trivia_end(s, p)),
    decreases s.len() - p, 0int,
{
    lemma_trivia_end_bounds(s, p);
    if p < s.len() && (is_blank(s[p]) || s[p] == '\n') {
        lemma_trivia_end_stops(s, p + 1);
    } else if p + 1 < s.len() && s[p] == '/' && s[p + 1] == '/' {
        lemma_after_comment_stops(s, p + 2);
    }
}

proof fn lemma_after_comment_stops(s: Seq<char>, p: int)
    requires
        0 <= p <= s.len(),
    ensures
        after_comment(s, p) < s.len() ==> at_token_start(s, after_comment(s, p)),
    decreases s.len() - p, 1int,
{
    if p < s.len() && s[p] != '\n' {
        lemma_after_comment_stops(s, p + 1);
    } else {
        lemma_trivia_end_stops(s, p);
    }
}

/// Within `g = s[q..t]`, where `t` ends the trivia run at `q`, the scanner
/// skips from `x - q` to the end of `g`.
proof fn lemma_trivia_in_span(s: Seq<char>, q: int, t: int, x: int)
    requires
        0 <= q <= x <= t <= s.len(),
        t == trivia_end(s, q),
        trivia_end(s, x) == t,
    ensures
        trivia_end(s.subrange(q, t), x - q) == t - q,
    decreases t - x, 0int,
{
    let g = s.subrange(q, t);
    if x < s.len() && (is_blank(s[x]) || s[x] == '\n') {
        lemma_trivia_end_bounds(s, x + 1);
        lemma_trivia_in_span(s, q, t, x + 1);
        assert(g[x - q] == s[x]);
    } else if x + 1 < s.len() && s[x] == '/' && s[x + 1] == '/' {
        lemma_after_comment_bounds(s, x + 2);
        lemma_comment_in_span(s, q, t, x + 2);
        assert(g[x - q] == s[x]);
        assert(g[x - q + 1] == s[x + 1]);
    }
}

proof fn lemma_comment_in_span(s: Seq<char>, q: int, t: int, x: int)
    requires
        0 <= q <= x <= t <= s.len(),
        t == trivia_end(s, q),
        after_comment(s, x) == t,
    ensures
        after_comment(s.subrange(q, t), x - q) == t - q,
    decreases t - x, 1int,
{
    let g = s.subrange(q, t);
    if x < s.len() && s[x] != '\n' {
        lemma_after_comment_bounds(s, x + 1);
        lemma_comment_in_span(s, q, t, x + 1);
        assert(g[x - q] == s[x]);
    } else {
        assert(after_comment(s, x) == trivia_end(s, x));
        if x < s.len() {
            lemma_trivia_end_bounds(s, x + 1);
            assert(trivia_end(s, x) == trivia_end(s, x + 1));
            assert(g[x - q] == s[x]);
        }
        lemma_trivia_in_span(s, q, t, x);
    }
}

/// The span that the scanner skips at `q` is skipped whole on its own too.
proof fn lemma_skipped_span_is_trivia(s: Seq<char>, q: int)
    requires
        0 <= q <= s.len(),
    ensures
        is_trivia(s.subrange(q, trivia_end(s, q))),
{
    lemma_trivia_end_bounds(s, q);
    lemma_trivia_in_span(s, q, trivia_end(s, q), q);
}

/// Scanning runs end at the same place in `s[p..e]` as in `s`, or at the end
/// of the slice.
proof fn lemma_runs_in_slice(s: Seq<char>, p: int, e: int, q: int)
    requires
        0 <= p <= q <= e <= s.len(),
    ensures
        digits_end(s.subrange(p, e), q - p) == (if digits_end(s, q) < e {
            digits_end(s, q)
        } else {
            e
        }) - p,
        word_end(s.subrange(p, e), q - p) == (if word_end(s, q) < e {
            word_end(s, q)
        } else {
            e
        }) - p,
        quote_end(s.subrange(p, e), q - p) == (if quote_end(s, q) < e {
            quote_end(s, q)
        } else {
            e
        }) - p,
    decreases e - q,
{
    lemma_run_ends(s, q);
    if q < e {
        lemma_runs_in_slice(s, p, e, q + 1);
        assert(s.subrange(p, e)[q - p] == s[q]);
    }
}

proof fn lemma_quote_end_stops(s: Seq<char>, p: int)
    requires
        0 <= p <= s.len(),
    ensures
        quote_end(s, p) < s.len() ==> s[quote_end(s, p)] == '"',
    decreases s.len() - p,
{
    if p < s.len() {
        lemma_quote_end_stops(s, p + 1);
    }
}

/// The span `s[p..e]` of a token scanned at `p` is its source text.
proof fn lemma_span_is_source_text(s: Seq<char>, p: int, k: TokenType, e: int)
    requires
        0 <= p < s.len(),
        scan_at(s, p) == Ok::<(TokenType, int), crate::lexer::LexErrorView>((k, e)),
    ensures
        s.subrange(p, e) == source_text(token_at(s, p, k, e)),
{
    lemma_scan_at_end(s, p);
    if k == TokenType::String {
        lemma_run_ends(s, p + 1);
        lemma_quote_end_stops(s, p + 1);
        assert(s.subrange(p, e) =~= seq!['"'] + s.subrange(p + 1, e - 1) + seq!['"']);
    }
}

/// The one scan step at `p` gives the same token on the slice `s[p..e]` that
/// it spans.
proof fn lemma_scan_slice(s: Seq<char>, p: int, k: TokenType, e: int)
    requires
        0 <= p < s.len(),
        scan_at(s, p) == Ok::<(TokenType, int), crate::lexer::LexErrorView>((k, e)),
    ensures
        scan_at(s.subrange(p, e), 0) == Ok::<(TokenType, int), crate::lexer::LexErrorView>(
            (k, e - p),
        ),
{
    lemma_scan_at_end(s, p);
    let t = s.subrange(p, e);
    assert(t[0] == s[p]);
    if p + 1 < e {
        assert(t[1] == s[p + 1]);
    }
    lemma_run_ends(s, p + 1);
    let c = s[p];
    if crate::lexer::is_operator_start(c) {
    } else if c == '"' {
        lemma_runs_in_slice(s, p, e, p + 1);
    } else if crate::text::is_digit(c) {
        lemma_runs_in_slice(s, p, e, p + 1);
        let d = digits_end(s, p + 1);
        if d < s.len() && s[d] == '.' {
            lemma_run_ends(s, d + 2);
            assert(t[d - p] == s[d]);
            assert(t[d - p + 1] == s[d + 1]);
            lemma_runs_in_slice(s, p, e, d + 2);
        }
    } else if crate::text::alphabetic(c) {
        lemma_runs_in_slice(s, p, e, p + 1);
        assert(t.subrange(0, e - p) =~= s.subrange(p, e));
    }
}

/// The start, kind and end of the `j`-th token that the scan from `q`
/// yields.
proof fn lemma_token_origin(s: Seq<char>, q: int, j: int) -> (r: (int, TokenType, int))
    requires
        0 <= q <= s.len(),
        lex_from(s, q) is Ok,
        0 <= j < lex_from(s, q)->Ok_0.len(),
    ensures
        at_token_start(s, r.0),
        r.0 < r.2 <= s.len(),
        scan_at(s, r.0) == Ok::<(TokenType, int), crate::lexer::LexErrorView>((r.1, r.2)),
        lex_from(s, q)->Ok_0[j] == token_at(s, r.0, r.1, r.2),
    decreases s.len() - q,
{
    let t = trivia_end(s, q);
    lemma_trivia_end_bounds(s, q);
    lemma_trivia_end_stops(s, q);
    lemma_scan_at_end(s, t);
    let (k, e) = scan_at(s, t)->Ok_0;
    if j == 0 {
        (t, k, e)
    } else {
        lemma_token_origin(s, e, j - 1)
    }
}

/// Scanning the source text of any token on its own gives back exactly that
/// token, at line 1, column 1.
pub proof fn lemma_relex_token(src: Seq<char>, i: int)
    requires
        scan(src) is Ok,
        0 <= i < scan(src)->Ok_0.len(),
    ensures
        scan(source_text(scan(src)->Ok_0[i])) == Ok::<Seq<TokenView>, crate::lexer::LexErrorView>(
            seq![TokenView { kind: scan(src)->Ok_0[i].kind, text: scan(src)->Ok_0[i].text, line: 1, col: 1 }],
        ),
{
    let (p, k, e) = lemma_token_origin(src, 0, i);
    let t = src.subrange(p, e);
    lemma_span_is_source_text(src, p, k, e);
    assert(source_text(scan(src)->Ok_0[i]) == t);
    lemma_scan_slice(src, p, k, e);
    assert(t[0] == src[p]);
    if 1 < t.len() {
        assert(t[1] == src[p + 1]);
    }
    assert(trivia_end(t, 0) == 0);
    assert(trivia_end(t, t.len() as int) == t.len());
    assert(lex_from(t, t.len() as int) == Ok::<Seq<TokenView>, crate::lexer::LexErrorView>(
        Seq::empty(),
    ));
    assert(t.subrange(0, t.len() as int) =~= t);
    if k == TokenType::String {
        assert(t.subrange(1, t.len() - 1) =~= src.subrange(p + 1, e - 1));
    }
    assert(token_at(t, 0, k, t.len() as int).text == scan(src)->Ok_0[i].text);
    assert(seq![token_at(t, 0, k, t.len() as int)] + Seq::<TokenView>::empty() =~= seq![
        token_at(t, 0, k, t.len() as int),
    ]);
}

/// The gaps that the scan from `q` skips: laid between the source texts of
/// the tokens they give back `s[q..]`.
proof fn lemma_cover_from(s: Seq<char>, q: int) -> (gaps: Seq<Seq<char>>)
    requires
        0 <= q <= s.len(),
        lex_from(s, q) is Ok,
    ensures
        gaps.len() == lex_from(s, q)->Ok_0.len() + 1,
        forall|i: int| 0 <= i < gaps.len() ==> is_trivia(#[trigger] gaps[i]),
        weave(gaps, lex_from(s, q)->Ok_0) == s.subrange(q, s.len() as int),
    decreases s.len() - q,
{
    let t = trivia_end(s, q);
    lemma_trivia_end_bounds(s, q);
    lemma_skipped_span_is_trivia(s, q);
    let gap = s.subrange(q, t);
    if t >= s.len() {
        seq![gap]
    } else {
        lemma_scan_at_end(s, t);
        let (k, e) = scan_at(s, t)->Ok_0;
        let toks = lex_from(s, q)->Ok_0;
        let rest = lex_from(s, e)->Ok_0;
        assert(toks == seq![token_at(s, t, k, e)] + rest);
        lemma_span_is_source_text(s, t, k, e);
        let more = lemma_cover_from(s, e);
        let gaps = seq![gap] + more;
        assert(gaps.drop_first() =~= more);
        assert(toks.drop_first() =~= rest);
        assert(s.subrange(q, s.len() as int) =~= gap + s.subrange(t, e) + s.subrange(
            e,
            s.len() as int,
        ));
        assert forall|i: int| 0 <= i < gaps.len() implies is_trivia(#[trigger] gaps[i]) by {
            if i > 0 {
                assert(gaps[i] == more[i - 1]);
            }
        }
        gaps
    }
}

/// For a source that scans, the token texts (string literals with their
/// quotes put back) with the skipped spans (blanks, newlines and comments)
/// put back between them give back the source exactly.
pub proof fn lemma_scan_covers_source(src: Seq<char>)
    requires
        scan(src) is Ok,
    ensures
        exists|gaps: Seq<Seq<char>>|
            {
                &&& gaps.len() == scan(src)->Ok_0.len() + 1
                &&& forall|i: int| 0 <= i < gaps.len() ==> is_trivia(#[trigger] gaps[i])
                &&& weave(gaps, scan(src)->Ok_0) == src
            },
{
    let gaps = lemma_cover_from(src, 0);
    assert(src.subrange(0, src.len() as int) =~= src);
}

/// The tokens of a tree in reading order: a unary operator before its
/// operand, a binary operator between its operands.
pub open spec fn flatten(e: Expression) -> Seq<Token>
    decreases e,
{
    match e {
        Expression::Literal(l) => seq![l.token],
        Expression::Unary(u) => seq![u.token] + flatten(*u.expr),
        Expression::Binary(b) => flatten(*b.left) + seq![b.token] + flatten(*b.right),
    }
}

/// Whether a token can stand in a tree: any but a parenthesis or an
/// end-of-input token.
pub open spec fn in_tree(t: Token) -> bool {
    t.token_type != TokenType::LeftParen && t.token_type != TokenType::RightParen && t.token_type
        != TokenType::EndOfFile
}

/// `toks` without its parentheses and end-of-input tokens.
pub open spec fn ungrouped(toks: Seq<Token>) -> Seq<Token> {
    toks.filter(|t: Token| in_tree(t))
}

proof fn lemma_ungrouped_split(toks: Seq<Token>, i: int, k: int, j: int)
    requires
        0 <= i <= k <= j <= toks.len(),
    ensures
        ungrouped(toks.subrange(i, j)) == ungrouped(toks.subrange(i, k)) + ungrouped(
            toks.subrange(k, j),
        ),
{
    assert(toks.subrange(i, j) =~= toks.subrange(i, k) + toks.subrange(k, j));
    Seq::filter_distributes_over_add(
        toks.subrange(i, k),
        toks.subrange(k, j),
        |t: Token| in_tree(t),
    );
}

proof fn lemma_ungrouped_one(toks: Seq<Token>, i: int)
    requires
        0 <= i < toks.len(),
    ensures
        ungrouped(toks.subrange(i, i + 1)) == if in_tree(toks[i]) {
            seq![toks[i]]
        } else {
            Seq::<Token>::empty()
        },
{
    let one = toks.subrange(i, i + 1);
    assert(one.drop_last() =~= Seq::<Token>::empty());
    assert(one.last() == toks[i]);
    reveal_with_fuel(Seq::filter, 2);
}

proof fn lemma_level_flattens(toks: Seq<Token>, level: nat, i: int)
    requires
        0 <= i <= toks.len(),
    ensures
        parse_level(toks, level, i) matches Ok((e, j)) ==> i < j <= toks.len() && flatten(e)
            == ungrouped(toks.subrange(i, j)),
    decreases toks.len() - i, level, 2int,
{
    if level == 0 {
        lemma_unary_flattens(toks, i);
    } else {
        lemma_level_flattens(toks, (level - 1) as nat, i);
        if let Ok((left, j)) = parse_level(toks, (level - 1) as nat, i) {
            if i < j <= toks.len() {
                lemma_tail_flattens(toks, level, left, j);
                if let Ok((e, k)) = binary_tail(toks, level, left, j) {
                    lemma_ungrouped_split(toks, i, j, k);
                }
            }
        }
    }
}

proof fn lemma_tail_flattens(toks: Seq<Token>, level: nat, left: Expression, i: int)
    requires
        0 <= i <= toks.len(),
    ensures
        binary_tail(toks, level, left, i) matches Ok((e, j)) ==> i <= j <= toks.len() && flatten(e)
            == flatten(left) + ungrouped(toks.subrange(i, j)),
    decreases toks.len() - i, level, 1int,
{
    if 0 <= i < toks.len() && level > 0 && is_level_op(level, toks[i].token_type) {
        lemma_level_flattens(toks, (level - 1) as nat, i + 1);
        if let Ok((right, j)) = parse_level(toks, (level - 1) as nat, i + 1) {
            if i < j <= toks.len() {
                let node = binary(left, toks[i], right);
                lemma_tail_flattens(toks, level, node, j);
                lemma_ungrouped_one(toks, i);
                lemma_ungrouped_split(toks, i, i + 1, j);
                if let Ok((e, k)) = binary_tail(toks, level, node, j) {
                    lemma_ungrouped_split(toks, i, j, k);
                    assert(flatten(node) == flatten(left) + seq![toks[i]] + flatten(right));
                    assert(flatten(e) =~= flatten(left) + ungrouped(toks.subrange(i, k)));
                }
            }
        }
    } else {
        assert(ungrouped(toks.subrange(i, i)) =~= Seq::<Token>::empty()) by {
            assert(toks.subrange(i, i) =~= Seq::<Token>::empty());
        }
        assert(flatten(left) + Seq::<Token>::empty() =~= flatten(left));
    }
}

proof fn lemma_unary_flattens(toks: Seq<Token>, i: int)
    requires
        0 <= i <= toks.len(),
    ensures
        unary_at(toks, i) matches Ok((e, j)) ==> i < j <= toks.len() && flatten(e) == ungrouped(
            toks.subrange(i, j),
        ),
    decreases toks.len() - i, 0int, 1int,
{
    if 0 <= i < toks.len() && toks[i].token_type == TokenType::Minus {
        lemma_unary_flattens(toks, i + 1);
        if let Ok((operand, j)) = unary_at(toks, i + 1) {
            lemma_ungrouped_one(toks, i);
            lemma_ungrouped_split(toks, i, i + 1, j);
        }
    } else {
        lemma_primary_flattens(toks, i);
    }
}

proof fn lemma_primary_flattens(toks: Seq<Token>, i: int)
    requires
        0 <= i <= toks.len(),
    ensures
        primary_at(toks, i) matches Ok((e, j)) ==> i < j <= toks.len() && flatten(e) == ungrouped(
            toks.subrange(i, j),
        ),
    decreases toks.len() - i, 0int, 0int,
{
    if 0 <= i < toks.len() {
        lemma_ungrouped_one(toks, i);
        if toks[i].token_type == TokenType::LeftParen {
            lemma_level_flattens(toks, EQUALITY as nat, i + 1);
            if let Ok((inner, j)) = parse_level(toks, EQUALITY as nat, i + 1) {
                if kind_at(toks, j) == TokenType::RightParen {
                    lemma_ungrouped_one(toks, j);
                    lemma_ungrouped_split(toks, i, i + 1, j);
                    lemma_ungrouped_split(toks, i, j, j + 1);
                    assert(ungrouped(toks.subrange(i, j + 1)) =~= ungrouped(toks.subrange(i + 1, j)));
                }
            }
        }
    }
}

/// A parsed expression, read in order, is the whole token sequence less its
/// parentheses and a final end-of-input token: each other token stands in
/// the tree once, in its place.
pub proof fn lemma_parse_uses_every_token(toks: Seq<Token>)
    requires
        parse_tokens(toks) is Ok,
    ensures
        flatten(parse_tokens(toks)->Ok_0) == ungrouped(toks),
{
    lemma_level_flattens(toks, EQUALITY as nat, 0);
    let (e, j) = parse_level(toks, EQUALITY as nat, 0)->Ok_0;
    assert(toks.subrange(0, toks.len() as int) =~= toks);
    if j < toks.len() {
        lemma_ungrouped_split(toks, 0, j, toks.len() as int);
        lemma_ungrouped_one(toks, j);
        assert(toks.subrange(j, j + 1) =~= toks.subrange(j, toks.len() as int));
        assert(ungrouped(toks.subrange(0, j)) + Seq::<Token>::empty() =~= ungrouped(
            toks.subrange(0, j),
        ));
    }
}

} // verus!
