//! The static type discipline of queries, and the proof that the parser
//! enforces it: every syntax tree that the grammar yields is well-typed.

use crate::ast::{ExprView, JsonPathView, LogicalOp, SegmentView, SelectorView};
use crate::lexer::{lex, TokenKindView};
use crate::number::MAX_EXACT_INTEGER;
use crate::parser::{arguments, atom, bracket_selectors, comparison, comparison_error,
    comparison_operator, conjunction, disjunction, expression, filter_error, function_call,
    function_error, index_number, index_or_slice, kind_at, logical_rest, parse_text, parse_tokens,
    path_or_node, path_segments, query_segments, segment, selector, selectors_after_dot,
    starts_segment, unary, Tokens};
use crate::text::byte_offset;
use vstd::prelude::*;

verus! {

/// An integer that an index or a slice bound may hold.
pub open spec fn is_exact_integer(i: int) -> bool {
    -MAX_EXACT_INTEGER <= i <= MAX_EXACT_INTEGER
}

pub open spec fn is_exact_bound(bound: Option<int>) -> bool {
    match bound {
        Some(i) => is_exact_integer(i),
        None => true,
    }
}

/// A selector is valid when its integers are exact and its filter
/// expression, if it has one, is a well-typed test.
pub open spec fn valid_selector(selector: SelectorView) -> bool
    decreases selector,
{
    match selector {
        SelectorView::Index(i) => is_exact_integer(i),
        SelectorView::Slice { start, end, step } => is_exact_bound(start) && is_exact_bound(end)
            && is_exact_bound(step),
        SelectorView::Filter(expr) => well_typed(*expr) && filter_error(*expr) is None,
        _ => true,
    }
}

pub open spec fn valid_selectors(selectors: Seq<SelectorView>) -> bool
    decreases selectors,
{
    forall|i: int| 0 <= i < selectors.len() ==> valid_selector(#[trigger] selectors[i])
}

/// A segment is valid when it has at least one selector and all are valid.
pub open spec fn valid_segment(segment: SegmentView) -> bool
    decreases segment,
{
    match segment {
        SegmentView::Child(selectors) => selectors.len() > 0 && valid_selectors(selectors),
        SegmentView::Descendant(selectors) => selectors.len() > 0 && valid_selectors(selectors),
    }
}

pub open spec fn valid_segments(segments: Seq<SegmentView>) -> bool
    decreases segments,
{
    forall|i: int| 0 <= i < segments.len() ==> valid_segment(#[trigger] segments[i])
}

pub open spec fn well_typed_all(exprs: Seq<ExprView>) -> bool
    decreases exprs,
{
    forall|i: int| 0 <= i < exprs.len() ==> well_typed(#[trigger] exprs[i])
}

/// An expression is well-typed when
/// - a path starts at `@` or `$` and has at least one segment, all valid;
/// - both sides of a comparison are singular queries, literals or calls of
///   functions that return a value;
/// - no operand of `&&` and `||` is a bare literal;
/// - a call names one of the five functions, with the number and the kinds
///   of arguments of its signature;
/// and its parts are well-typed.
pub open spec fn well_typed(expr: ExprView) -> bool
    decreases expr,
{
    match expr {
        ExprView::CurrentNode => true,
        ExprView::RootNode => true,
        ExprView::Path { start, segments } => (*start is CurrentNode || *start is RootNode)
            && segments.len() > 0 && valid_segments(segments),
        ExprView::Literal(_) => true,
        ExprView::Comparison { left, op, right } => well_typed(*left) && well_typed(*right)
            && comparison_error(*left, *right) is None,
        ExprView::Logical { left, op, right } => well_typed(*left) && well_typed(*right) && !(*left
            is Literal) && !(*right is Literal),
        ExprView::Not(inner) => well_typed(*inner),
        ExprView::FunctionCall { name, args } => function_error(name, args) is None
            && well_typed_all(args),
    }
}

/// A query is valid when all its segments are.
pub open spec fn valid_query(path: JsonPathView) -> bool {
    valid_segments(path.segments)
}

proof fn lemma_index_number(tokens: Tokens, i: int)
    requires
        0 <= i <= tokens.len(),
    ensures
        index_number(tokens, i) matches Ok((bound, next)) ==> is_exact_bound(bound) && i <= next
            <= tokens.len() && (kind_at(tokens, i) matches Some(TokenKindView::Number(_, _))
            ==> i < next),
{
}

proof fn lemma_index_or_slice(tokens: Tokens, i: int)
    requires
        0 <= i,
        kind_at(tokens, i) matches Some(TokenKindView::Number(_, _)) || kind_at(tokens, i)
            == Some(TokenKindView::Colon),
    ensures
        index_or_slice(tokens, i) matches Ok((found, next)) ==> valid_selector(found) && i < next
            <= tokens.len(),
{
    lemma_index_number(tokens, i);
    if let Ok((start, j)) = index_number(tokens, i) {
        if kind_at(tokens, j) == Some(TokenKindView::Colon) {
            lemma_index_number(tokens, j + 1);
            if let Ok((end, k)) = index_number(tokens, j + 1) {
                if kind_at(tokens, k) == Some(TokenKindView::Colon) {
                    lemma_index_number(tokens, k + 1);
                }
            }
        }
    }
}

proof fn lemma_push_selector(acc: Seq<SelectorView>, item: SelectorView)
    requires
        valid_selectors(acc),
        valid_selector(item),
    ensures
        valid_selectors(acc.push(item)),
        acc.push(item).len() > 0,
{
    let all = acc.push(item);
    assert forall|i: int| 0 <= i < all.len() implies valid_selector(#[trigger] all[i]) by {
        if i < acc.len() {
            assert(all[i] == acc[i]);
        }
    }
}

proof fn lemma_push_segment(acc: Seq<SegmentView>, item: SegmentView)
    requires
        valid_segments(acc),
        valid_segment(item),
    ensures
        valid_segments(acc.push(item)),
        acc.push(item).len() > 0,
{
    let all = acc.push(item);
    assert forall|i: int| 0 <= i < all.len() implies valid_segment(#[trigger] all[i]) by {
        if i < acc.len() {
            assert(all[i] == acc[i]);
        }
    }
}

proof fn lemma_push_expr(acc: Seq<ExprView>, item: ExprView)
    requires
        well_typed_all(acc),
        well_typed(item),
    ensures
        well_typed_all(acc.push(item)),
{
    let all = acc.push(item);
    assert forall|i: int| 0 <= i < all.len() implies well_typed(#[trigger] all[i]) by {
        if i < acc.len() {
            assert(all[i] == acc[i]);
        }
    }
}

proof fn lemma_selector(tokens: Tokens, i: int)
    requires
        0 <= i <= tokens.len(),
    ensures
        selector(tokens, i) matches Ok((found, next)) ==> valid_selector(found)
            && i < next <= tokens.len(),
    decreases tokens.len() - i, 0nat,
{
    match kind_at(tokens, i) {
        Some(TokenKindView::Number(_, _)) => {
            lemma_index_or_slice(tokens, i);
        },
        Some(TokenKindView::Colon) => {
            lemma_index_or_slice(tokens, i);
        },
        Some(TokenKindView::Question) => {
            lemma_expression(tokens, i + 1);
        },
        _ => {},
    }
}

proof fn lemma_bracket_selectors(tokens: Tokens, i: int, acc: Seq<SelectorView>)
    requires
        0 <= i <= tokens.len(),
        valid_selectors(acc),
    ensures
        bracket_selectors(tokens, i, acc) matches Ok((found, next)) ==> found.len() > 0
            && valid_selectors(found) && i < next <= tokens.len(),
    decreases tokens.len() - i, 1nat,
{
    lemma_selector(tokens, i);
    if let Ok((item, j)) = selector(tokens, i) {
        lemma_push_selector(acc, item);
        if kind_at(tokens, j) == Some(TokenKindView::Comma) && i < j {
            lemma_bracket_selectors(tokens, j + 1, acc.push(item));
        }
    }
}

proof fn lemma_selectors_after_dot(tokens: Tokens, i: int)
    requires
        0 <= i <= tokens.len(),
    ensures
        selectors_after_dot(tokens, i) matches Ok((found, next)) ==> found.len() > 0
            && valid_selectors(found) && i < next <= tokens.len(),
    decreases tokens.len() - i, 0nat,
{
    if kind_at(tokens, i) == Some(TokenKindView::BracketOpen) {
        lemma_bracket_selectors(tokens, i + 1, Seq::empty());
    }
}

proof fn lemma_segment(tokens: Tokens, i: int)
    requires
        0 <= i <= tokens.len(),
    ensures
        segment(tokens, i) matches Ok((found, next)) ==> valid_segment(found)
            && i < next <= tokens.len(),
    decreases tokens.len() - i, 0nat,
{
    match kind_at(tokens, i) {
        Some(TokenKindView::DotDot) => {
            lemma_selectors_after_dot(tokens, i + 1);
        },
        Some(TokenKindView::Dot) => {
            lemma_selectors_after_dot(tokens, i + 1);
        },
        Some(TokenKindView::BracketOpen) => {
            lemma_bracket_selectors(tokens, i + 1, Seq::empty());
        },
        _ => {},
    }
}

proof fn lemma_path_segments(tokens: Tokens, i: int, acc: Seq<SegmentView>)
    requires
        0 <= i <= tokens.len(),
        valid_segments(acc),
        acc.len() > 0 || starts_segment(kind_at(tokens, i)),
    ensures
        path_segments(tokens, i, acc) matches Ok((found, next)) ==> found.len() > 0
            && valid_segments(found) && i <= next <= tokens.len(),
    decreases tokens.len() - i, 1nat,
{
    if starts_segment(kind_at(tokens, i)) {
        lemma_segment(tokens, i);
        if let Ok((item, j)) = segment(tokens, i) {
            if i < j <= tokens.len() {
                lemma_push_segment(acc, item);
                lemma_path_segments(tokens, j, acc.push(item));
            }
        }
    }
}

proof fn lemma_path_or_node(tokens: Tokens, i: int, start: ExprView)
    requires
        0 <= i <= tokens.len(),
        start is CurrentNode || start is RootNode,
    ensures
        path_or_node(tokens, i, start) matches Ok((found, next)) ==> well_typed(found)
            && i <= next <= tokens.len(),
    decreases tokens.len() - i, 2nat,
{
    if starts_segment(kind_at(tokens, i)) {
        lemma_path_segments(tokens, i, Seq::empty());
    }
}

proof fn lemma_arguments(tokens: Tokens, i: int, acc: Seq<ExprView>)
    requires
        0 <= i <= tokens.len(),
        well_typed_all(acc),
    ensures
        arguments(tokens, i, acc) matches Ok((found, next)) ==> well_typed_all(found)
            && i < next <= tokens.len(),
    decreases tokens.len() - i, 6nat,
{
    lemma_expression(tokens, i);
    if let Ok((item, j)) = expression(tokens, i) {
        lemma_push_expr(acc, item);
        if kind_at(tokens, j) == Some(TokenKindView::Comma) && i < j {
            lemma_arguments(tokens, j + 1, acc.push(item));
        }
    }
}

proof fn lemma_function_call(tokens: Tokens, i: int, name: Seq<char>)
    requires
        0 <= i <= tokens.len(),
    ensures
        function_call(tokens, i, name) matches Ok((found, next)) ==> well_typed(found)
            && i < next <= tokens.len(),
    decreases tokens.len() - i, 0nat,
{
    if !(kind_at(tokens, i + 1) == Some(TokenKindView::ParenClose) || !(0 <= i < tokens.len())) {
        lemma_arguments(tokens, i + 1, Seq::empty());
    }
    assert(well_typed_all(Seq::<ExprView>::empty()));
}

proof fn lemma_atom(tokens: Tokens, i: int)
    requires
        0 <= i <= tokens.len(),
    ensures
        atom(tokens, i) matches Ok((found, next)) ==> well_typed(found) && i < next <= tokens.len(),
    decreases tokens.len() - i, 0nat,
{
    match kind_at(tokens, i) {
        Some(TokenKindView::At) => {
            lemma_path_or_node(tokens, i + 1, ExprView::CurrentNode);
        },
        Some(TokenKindView::Root) => {
            lemma_path_or_node(tokens, i + 1, ExprView::RootNode);
        },
        Some(TokenKindView::Ident(name)) => {
            lemma_function_call(tokens, i + 1, name);
        },
        Some(TokenKindView::ParenOpen) => {
            lemma_expression(tokens, i + 1);
        },
        _ => {},
    }
}

proof fn lemma_unary(tokens: Tokens, i: int)
    requires
        0 <= i <= tokens.len(),
    ensures
        unary(tokens, i) matches Ok((found, next)) ==> well_typed(found)
            && i < next <= tokens.len(),
    decreases tokens.len() - i, 1nat,
{
    if kind_at(tokens, i) == Some(TokenKindView::Not) {
        lemma_unary(tokens, i + 1);
    } else {
        lemma_atom(tokens, i);
    }
}

proof fn lemma_comparison(tokens: Tokens, i: int)
    requires
        0 <= i <= tokens.len(),
    ensures
        comparison(tokens, i) matches Ok((found, next)) ==> well_typed(found)
            && i < next <= tokens.len(),
    decreases tokens.len() - i, 2nat,
{
    lemma_unary(tokens, i);
    if let Ok((left, j)) = unary(tokens, i) {
        if comparison_operator(kind_at(tokens, j)) is Some {
            lemma_unary(tokens, j + 1);
        }
    }
}

proof fn lemma_logical_rest(
    tokens: Tokens,
    i: int,
    left: ExprView,
    op: LogicalOp,
)
    requires
        0 <= i <= tokens.len(),
        well_typed(left),
    ensures
        logical_rest(tokens, i, left, op) matches Ok((found, next)) ==> well_typed(found)
            && i <= next <= tokens.len(),
    decreases tokens.len() - i, 0nat,
{
    let operator = match op {
        LogicalOp::And => TokenKindView::And,
        LogicalOp::Or => TokenKindView::Or,
    };
    if kind_at(tokens, i) == Some(operator) {
        let operand = match op {
            LogicalOp::And => {
                lemma_comparison(tokens, i + 1);
                comparison(tokens, i + 1)
            },
            LogicalOp::Or => {
                lemma_conjunction(tokens, i + 1);
                conjunction(tokens, i + 1)
            },
        };
        if let Ok((right, j)) = operand {
            if !(left is Literal || right is Literal) && i < j <= tokens.len() {
                lemma_logical_rest(
                    tokens,
                    j,
                    ExprView::Logical { left: Box::new(left), op, right: Box::new(right) },
                    op,
                );
            }
        }
    }
}

proof fn lemma_conjunction(tokens: Tokens, i: int)
    requires
        0 <= i <= tokens.len(),
    ensures
        conjunction(tokens, i) matches Ok((found, next)) ==> well_typed(found)
            && i < next <= tokens.len(),
    decreases tokens.len() - i, 3nat,
{
    lemma_comparison(tokens, i);
    if let Ok((left, j)) = comparison(tokens, i) {
        if i < j <= tokens.len() {
            lemma_logical_rest(tokens, j, left, LogicalOp::And);
        }
    }
}

proof fn lemma_disjunction(tokens: Tokens, i: int)
    requires
        0 <= i <= tokens.len(),
    ensures
        disjunction(tokens, i) matches Ok((found, next)) ==> well_typed(found)
            && i < next <= tokens.len(),
    decreases tokens.len() - i, 4nat,
{
    lemma_conjunction(tokens, i);
    if let Ok((left, j)) = conjunction(tokens, i) {
        if i < j <= tokens.len() {
            lemma_logical_rest(tokens, j, left, LogicalOp::Or);
        }
    }
}

proof fn lemma_expression(tokens: Tokens, i: int)
    requires
        0 <= i <= tokens.len(),
    ensures
        expression(tokens, i) matches Ok((found, next)) ==> well_typed(found)
            && i < next <= tokens.len(),
    decreases tokens.len() - i, 5nat,
{
    lemma_disjunction(tokens, i);
}

proof fn lemma_query_segments(tokens: Tokens, i: int, acc: Seq<SegmentView>)
    requires
        0 <= i,
        valid_segments(acc),
    ensures
        query_segments(tokens, i, acc) matches Ok(found) ==> valid_segments(found),
    decreases tokens.len() - i, 1nat,
{
    if 0 <= i < tokens.len() {
        lemma_segment(tokens, i);
        if let Ok((item, j)) = segment(tokens, i) {
            if i < j <= tokens.len() {
                lemma_push_segment(acc, item);
                lemma_query_segments(tokens, j, acc.push(item));
            }
        }
    }
}

/// Every query that the grammar yields from tokens is valid: the parser
/// enforces the static type discipline.
pub proof fn law_parsed_queries_are_valid(tokens: Tokens)
    ensures
        parse_tokens(tokens) matches Ok(path) ==> valid_query(path),
{
    lemma_query_segments(tokens, 1, Seq::empty());
}

/// Every query that is parsed from a text is valid.
pub proof fn law_parsed_texts_are_valid(text: Seq<char>)
    ensures
        parse_text(text) matches Ok(path) ==> valid_query(path),
{
    if let Ok(list) = lex(text) {
        law_parsed_queries_are_valid(
            Tokens { list, end: byte_offset(text, text.len() as int) },
        );
    }
}

} // verus!
