//! Parser for JSONPath queries: from tokens to a type-checked syntax tree.
//!
//! The grammar is given as specification functions over the views of the
//! tokens; each parsing method of [`Parser`] is proved to compute the
//! specification function of its construct.

use crate::ast::{bound_view, expr_views, segment_views, selector_views, CachedLiteral, CompOp, Expr,
    ExprView, JsonPath, JsonPathView, Literal, LiteralView, LogicalOp, Segment, SegmentView,
    Selector, SelectorView};
use crate::lexer::{is_blank, lex, token_views, Lexer, LexerError, Token, TokenKind,
    TokenKindView, TokenView};
use crate::text::{byte_length, byte_offset, decimal_text, push_decimal, same_text};
use crate::typing::{law_parsed_texts_are_valid, valid_query};
use vstd::prelude::*;
use vstd::string::StringExecFns;

verus! {

/// Parser error.
#[derive(Debug, PartialEq)]
pub struct ParseError {
    pub message: String,
    /// Byte offset of the offending token, or of the end of the input.
    pub position: usize,
}

/// Mathematical model of a [`ParseError`].
pub ghost struct ParseErrorView {
    pub message: Seq<char>,
    pub position: nat,
}

impl View for ParseError {
    type V = ParseErrorView;

    open spec fn view(&self) -> ParseErrorView {
        ParseErrorView { message: self.message@, position: self.position as nat }
    }
}

impl ParseErrorView {
    /// The error as a line of text: the position, then the message.
    pub open spec fn text(self) -> Seq<char> {
        "at position "@ + decimal_text(self.position) + ", "@ + self.message
    }
}

impl ParseError {
    /// The error as a line of text.
    pub fn to_text(&self) -> (r: String)
        ensures
            r@ == self@.text(),
    {
        let mut out: String = "at position ".to_owned();
        push_decimal(&mut out, self.position);
        out.append(", ");
        out.append(self.message.as_str());
        out
    }
}

pub open spec fn parse_error(message: Seq<char>, position: nat) -> ParseErrorView {
    ParseErrorView { message, position }
}

/// What parsing something at an index gives: the thing and the index after
/// it, or an error.
pub type Parsed<T> = Result<(T, int), ParseErrorView>;

/// The tokens of a query, with the byte offset of the end of its text.
pub ghost struct Tokens {
    pub list: Seq<TokenView>,
    pub end: nat,
}

impl Tokens {
    /// Number of tokens.
    pub open spec fn len(self) -> nat {
        self.list.len()
    }
}

/// The kind of the token at index `i`, if there is one.
pub open spec fn kind_at(tokens: Tokens, i: int) -> Option<TokenKindView> {
    if 0 <= i < tokens.len() {
        Some(tokens.list[i].kind)
    } else {
        None
    }
}

/// The position of the token at index `i`; past the last token, the end of
/// the text.
pub open spec fn position_at(tokens: Tokens, i: int) -> nat {
    if 0 <= i < tokens.len() {
        tokens.list[i].position
    } else {
        tokens.end
    }
}

/// Whether a path segment starts with this token.
pub open spec fn starts_segment(kind: Option<TokenKindView>) -> bool {
    kind == Some(TokenKindView::Dot) || kind == Some(TokenKindView::DotDot) || kind == Some(
        TokenKindView::BracketOpen,
    )
}

/// The comparison operator that the token is, if it is one.
pub open spec fn comparison_operator(kind: Option<TokenKindView>) -> Option<CompOp> {
    match kind {
        Some(TokenKindView::Equal) => Some(CompOp::Eq),
        Some(TokenKindView::NotEqual) => Some(CompOp::Ne),
        Some(TokenKindView::LessThan) => Some(CompOp::Lt),
        Some(TokenKindView::GreaterThan) => Some(CompOp::Gt),
        Some(TokenKindView::LessEq) => Some(CompOp::Le),
        Some(TokenKindView::GreaterEq) => Some(CompOp::Ge),
        _ => None,
    }
}

/// A selector that selects at most one node: a name or an index.
pub open spec fn is_singular_selector(selector: SelectorView) -> bool {
    selector is Name || selector is Index
}

/// The first `k` segments are child segments with one singular selector each.
pub open spec fn singular_segments(segments: Seq<SegmentView>, k: nat) -> bool
    decreases k,
{
    if k == 0 || k > segments.len() {
        k == 0
    } else {
        &&& singular_segments(segments, (k - 1) as nat)
        &&& segments[k - 1] matches SegmentView::Child(selectors)
        &&& selectors.len() == 1
        &&& is_singular_selector(selectors[0])
    }
}

/// Whether the expression may stand on one side of a comparison as far as its
/// shape goes: a singular query, a literal, or a function call.
pub open spec fn is_singular_query(expr: ExprView) -> bool {
    match expr {
        ExprView::Path { start, segments } => singular_segments(segments, segments.len()),
        ExprView::CurrentNode => true,
        ExprView::RootNode => true,
        ExprView::Literal(_) => true,
        ExprView::FunctionCall { .. } => true,
        _ => false,
    }
}

/// The functions whose result is a value, which must be compared.
pub open spec fn is_value_function(name: Seq<char>) -> bool {
    name == "count"@ || name == "length"@ || name == "value"@
}

/// The functions whose result is a logical value, which cannot be compared.
pub open spec fn is_logical_function(name: Seq<char>) -> bool {
    name == "match"@ || name == "search"@
}

/// NodesType: a query.
pub open spec fn is_nodes_type(expr: ExprView) -> bool {
    expr is CurrentNode || expr is RootNode || expr is Path
}

/// ValueType: a literal, a singular query, or a call of a function whose
/// result is a value.
pub open spec fn is_value_type(expr: ExprView) -> bool {
    match expr {
        ExprView::Literal(_) => true,
        ExprView::CurrentNode => true,
        ExprView::RootNode => true,
        ExprView::Path { start, segments } => singular_segments(segments, segments.len()),
        ExprView::FunctionCall { name, args } => is_value_function(name),
        _ => false,
    }
}

/// The text `prefix name suffix`.
pub open spec fn quoted(prefix: Seq<char>, name: Seq<char>, suffix: Seq<char>) -> Seq<char> {
    prefix + name + suffix
}

/// The error in a call of the function `name` with the arguments `args`, if
/// there is one: the function is unknown, or the number or the kinds of the
/// arguments are not those of its signature.
pub open spec fn function_error(name: Seq<char>, args: Seq<ExprView>) -> Option<Seq<char>> {
    if name == "count"@ {
        if args.len() != 1 {
            Some("function 'count' requires exactly 1 argument"@)
        } else if !is_nodes_type(args[0]) {
            Some("function 'count' requires a query argument (NodesType)"@)
        } else {
            None
        }
    } else if name == "length"@ {
        if args.len() != 1 {
            Some("function 'length' requires exactly 1 argument"@)
        } else if !is_value_type(args[0]) {
            Some("function 'length' requires a singular query or literal argument"@)
        } else {
            None
        }
    } else if name == "match"@ {
        if args.len() != 2 {
            Some("function 'match' requires exactly 2 arguments"@)
        } else if !is_value_type(args[0]) {
            Some("function 'match' first argument must be a singular query or literal"@)
        } else if !is_value_type(args[1]) {
            Some("function 'match' second argument must be a singular query or literal"@)
        } else {
            None
        }
    } else if name == "search"@ {
        if args.len() != 2 {
            Some("function 'search' requires exactly 2 arguments"@)
        } else if !is_value_type(args[0]) {
            Some("function 'search' first argument must be a singular query or literal"@)
        } else if !is_value_type(args[1]) {
            Some("function 'search' second argument must be a singular query or literal"@)
        } else {
            None
        }
    } else if name == "value"@ {
        if args.len() != 1 {
            Some("function 'value' requires exactly 1 argument"@)
        } else if !is_nodes_type(args[0]) {
            Some("function 'value' requires a query argument (NodesType)"@)
        } else {
            None
        }
    } else {
        Some(quoted("unknown function '"@, name, "'"@))
    }
}

/// An integer in index position: `Some` and the index after it where a
/// number stands at `i`, `None` and `i` where none does.
pub open spec fn index_number(tokens: Tokens, i: int) -> Parsed<Option<int>> {
    match kind_at(tokens, i) {
        Some(TokenKindView::Number(value, fractional)) => if fractional {
            Err(parse_error("index must be an integer, not a decimal"@, position_at(tokens, i)))
        } else {
            match value.exact_integer() {
                Some(v) => Ok((Some(v), i + 1)),
                None => Err(
                    parse_error(
                        "index out of range (must be between -(2^53-1) and 2^53-1)"@,
                        position_at(tokens, i),
                    ),
                ),
            }
        },
        _ => Ok((None, i)),
    }
}

/// `int` or `int? ':' int? (':' int?)?`.
pub open spec fn index_or_slice(tokens: Tokens, i: int) -> Parsed<SelectorView> {
    match index_number(tokens, i) {
        Err(e) => Err(e),
        Ok((start, j)) => if kind_at(tokens, j) != Some(TokenKindView::Colon) {
            match start {
                Some(n) => Ok((SelectorView::Index(n), j)),
                None => Err(parse_error("expected number"@, position_at(tokens, j))),
            }
        } else {
            match index_number(tokens, j + 1) {
                Err(e) => Err(e),
                Ok((end, k)) => if kind_at(tokens, k) == Some(TokenKindView::Colon) {
                    match index_number(tokens, k + 1) {
                        Err(e) => Err(e),
                        Ok((step, m)) => Ok((SelectorView::Slice { start, end, step }, m)),
                    }
                } else {
                    Ok((SelectorView::Slice { start, end, step: None }, k))
                },
            }
        },
    }
}

/// The error in taking `expr` as the expression of a filter, if there is one:
/// it is a literal alone, or a call of a function whose result must be
/// compared.
pub open spec fn filter_error(expr: ExprView) -> Option<Seq<char>> {
    match expr {
        ExprView::Literal(_) => Some("filter expression cannot be a literal alone"@),
        ExprView::FunctionCall { name, args } => if is_value_function(name) {
            Some(quoted("function '"@, name, "' returns a value that must be compared"@))
        } else {
            None
        },
        _ => None,
    }
}

/// The name of the function, where `expr` is a call of a function whose
/// result is logical.
pub open spec fn logical_function_name(expr: ExprView) -> Option<Seq<char>> {
    match expr {
        ExprView::FunctionCall { name, args } => if is_logical_function(name) {
            Some(name)
        } else {
            None
        },
        _ => None,
    }
}

/// The error in comparing `left` with `right`, if there is one: a side is a
/// query that is not singular, or a call of a function whose result is
/// logical.
pub open spec fn comparison_error(left: ExprView, right: ExprView) -> Option<Seq<char>> {
    if !is_singular_query(left) || !is_singular_query(right) {
        Some("non-singular query not allowed in comparison"@)
    } else {
        match logical_function_name(left) {
            Some(name) => Some(
                quoted("function '"@, name, "' returns LogicalType and cannot be compared"@),
            ),
            None => match logical_function_name(right) {
                Some(name) => Some(
                    quoted("function '"@, name, "' returns LogicalType and cannot be compared"@),
                ),
                None => None,
            },
        }
    }
}

/// `selector := name-string | int | slice | '*' | '?' expr`.
pub open spec fn selector(tokens: Tokens, i: int) -> Parsed<SelectorView>
    decreases tokens.len() - i, 0nat,
{
    match kind_at(tokens, i) {
        Some(TokenKindView::Wildcard) => Ok((SelectorView::Wildcard, i + 1)),
        Some(TokenKindView::String(name)) => Ok((SelectorView::Name(name), i + 1)),
        Some(TokenKindView::Number(_, _)) => index_or_slice(tokens, i),
        Some(TokenKindView::Colon) => index_or_slice(tokens, i),
        Some(TokenKindView::Question) => match expression(tokens, i + 1) {
            Err(e) => Err(e),
            Ok((expr, j)) => match filter_error(expr) {
                Some(message) => Err(parse_error(message, position_at(tokens, j))),
                None => Ok((SelectorView::Filter(Box::new(expr)), j)),
            },
        },
        Some(_) => Err(parse_error("unexpected token in selector"@, position_at(tokens, i))),
        None => Err(parse_error("unexpected end of input in selector"@, position_at(tokens, i))),
    }
}

/// `selector (',' selector)* ']'` from `i` on, after the selectors `acc`.
pub open spec fn bracket_selectors(tokens: Tokens, i: int, acc: Seq<SelectorView>)
    -> Parsed<Seq<SelectorView>>
    decreases tokens.len() - i, 1nat,
{
    match selector(tokens, i) {
        Err(e) => Err(e),
        Ok((item, j)) => match kind_at(tokens, j) {
            Some(TokenKindView::Comma) => if i < j {
                bracket_selectors(tokens, j + 1, acc.push(item))
            } else {
                Err(parse_error("expected ',' or ']'"@, position_at(tokens, j)))
            },
            Some(TokenKindView::BracketClose) => Ok((acc.push(item), j + 1)),
            Some(_) => Err(parse_error("expected ',' or ']'"@, position_at(tokens, j))),
            None => Err(parse_error("unclosed bracket"@, position_at(tokens, j))),
        },
    }
}

/// What may follow `.` or `..`: a name, a keyword taken as a name, `*`, or a
/// bracketed list of selectors.
pub open spec fn selectors_after_dot(tokens: Tokens, i: int) -> Parsed<Seq<SelectorView>>
    decreases tokens.len() - i, 0nat,
{
    match kind_at(tokens, i) {
        Some(TokenKindView::True) => Ok((seq![SelectorView::Name("true"@)], i + 1)),
        Some(TokenKindView::False) => Ok((seq![SelectorView::Name("false"@)], i + 1)),
        Some(TokenKindView::Null) => Ok((seq![SelectorView::Name("null"@)], i + 1)),
        Some(TokenKindView::Ident(name)) => Ok((seq![SelectorView::Name(name)], i + 1)),
        Some(TokenKindView::Wildcard) => Ok((seq![SelectorView::Wildcard], i + 1)),
        Some(TokenKindView::BracketOpen) => bracket_selectors(tokens, i + 1, Seq::empty()),
        _ => Err(
            parse_error("expected identifier or wildcard after '.'"@, position_at(tokens, i)),
        ),
    }
}

/// `segment := '.' child | '..' descendant | '[' selector (',' selector)* ']'`,
/// with no whitespace after `.` and `..`.
pub open spec fn segment(tokens: Tokens, i: int) -> Parsed<SegmentView>
    decreases tokens.len() - i, 0nat,
{
    match kind_at(tokens, i) {
        Some(TokenKindView::DotDot) => if position_at(tokens, i + 1) != tokens.list[i].position
            + 2 {
            Err(parse_error("whitespace not allowed after '..'"@, position_at(tokens, i + 1)))
        } else {
            match selectors_after_dot(tokens, i + 1) {
                Err(e) => Err(e),
                Ok((selectors, j)) => Ok((SegmentView::Descendant(selectors), j)),
            }
        },
        Some(TokenKindView::Dot) => if position_at(tokens, i + 1) != tokens.list[i].position + 1 {
            Err(parse_error("whitespace not allowed after '.'"@, position_at(tokens, i + 1)))
        } else {
            match selectors_after_dot(tokens, i + 1) {
                Err(e) => Err(e),
                Ok((selectors, j)) => Ok((SegmentView::Child(selectors), j)),
            }
        },
        Some(TokenKindView::BracketOpen) => match bracket_selectors(tokens, i + 1, Seq::empty()) {
            Err(e) => Err(e),
            Ok((selectors, j)) => Ok((SegmentView::Child(selectors), j)),
        },
        Some(_) => Err(parse_error("unexpected token"@, position_at(tokens, i))),
        None => Err(parse_error("unexpected end of input"@, position_at(tokens, i))),
    }
}

/// The segments of a query inside a filter, from `i` on and after the
/// segments `acc`: as many as there are.
pub open spec fn path_segments(tokens: Tokens, i: int, acc: Seq<SegmentView>) -> Parsed<
    Seq<SegmentView>,
>
    decreases tokens.len() - i, 1nat,
{
    if !starts_segment(kind_at(tokens, i)) {
        Ok((acc, i))
    } else {
        match segment(tokens, i) {
            Err(e) => Err(e),
            Ok((item, j)) => if i < j <= tokens.len() {
                path_segments(tokens, j, acc.push(item))
            } else {
                Ok((acc, i))
            },
        }
    }
}

/// `@` or `$` alone, or followed by segments.
pub open spec fn path_or_node(tokens: Tokens, i: int, start: ExprView) -> Parsed<ExprView>
    decreases tokens.len() - i, 2nat,
{
    if !starts_segment(kind_at(tokens, i)) {
        Ok((start, i))
    } else {
        match path_segments(tokens, i, Seq::empty()) {
            Err(e) => Err(e),
            Ok((segments, j)) => Ok((ExprView::Path { start: Box::new(start), segments }, j)),
        }
    }
}

/// The arguments of a call from `i` on, after the arguments `acc`:
/// `expr (',' expr)*`.
pub open spec fn arguments(tokens: Tokens, i: int, acc: Seq<ExprView>) -> Parsed<
    Seq<ExprView>,
>
    decreases tokens.len() - i, 6nat,
{
    match expression(tokens, i) {
        Err(e) => Err(e),
        Ok((item, j)) => if kind_at(tokens, j) == Some(TokenKindView::Comma) && i < j {
            arguments(tokens, j + 1, acc.push(item))
        } else {
            Ok((acc.push(item), j))
        },
    }
}

/// The call of the function `name`, whose `(` stands at `i`.
pub open spec fn function_call(tokens: Tokens, i: int, name: Seq<char>) -> Parsed<ExprView>
    decreases tokens.len() - i, 0nat,
{
    let listed = if kind_at(tokens, i + 1) == Some(TokenKindView::ParenClose) || !(0 <= i
        < tokens.len()) {
        Ok((Seq::empty(), i + 1))
    } else {
        arguments(tokens, i + 1, Seq::empty())
    };
    match listed {
        Err(e) => Err(e),
        Ok((args, j)) => if kind_at(tokens, j) != Some(TokenKindView::ParenClose) {
            Err(parse_error("expected ')' after function arguments"@, position_at(tokens, j)))
        } else {
            match function_error(name, args) {
                Some(message) => Err(parse_error(message, position_at(tokens, i))),
                None => Ok((ExprView::FunctionCall { name, args }, j + 1)),
            }
        },
    }
}

/// `atom := '@' segments | '$' segments | literal | name '(' args ')' | '(' expr ')'`.
pub open spec fn atom(tokens: Tokens, i: int) -> Parsed<ExprView>
    decreases tokens.len() - i, 0nat,
{
    match kind_at(tokens, i) {
        Some(TokenKindView::At) => path_or_node(tokens, i + 1, ExprView::CurrentNode),
        Some(TokenKindView::Root) => path_or_node(tokens, i + 1, ExprView::RootNode),
        Some(TokenKindView::True) => Ok((ExprView::Literal(LiteralView::Bool(true)), i + 1)),
        Some(TokenKindView::False) => Ok((ExprView::Literal(LiteralView::Bool(false)), i + 1)),
        Some(TokenKindView::Null) => Ok((ExprView::Literal(LiteralView::Null), i + 1)),
        Some(TokenKindView::Number(value, _)) => Ok(
            (ExprView::Literal(LiteralView::Number(value)), i + 1),
        ),
        Some(TokenKindView::String(value)) => Ok(
            (ExprView::Literal(LiteralView::String(value)), i + 1),
        ),
        Some(TokenKindView::Ident(name)) => if kind_at(tokens, i + 1) == Some(
            TokenKindView::ParenOpen,
        ) {
            let after = tokens.list[i].position + byte_offset(name, name.len() as int);
            if position_at(tokens, i + 1) != after {
                Err(
                    parse_error(
                        "whitespace not allowed between function name and '('"@,
                        position_at(tokens, i + 1),
                    ),
                )
            } else {
                function_call(tokens, i + 1, name)
            }
        } else {
            Err(
                parse_error(
                    quoted("unexpected identifier '"@, name, "' in expression"@),
                    position_at(tokens, i + 1),
                ),
            )
        },
        Some(TokenKindView::ParenOpen) => match expression(tokens, i + 1) {
            Err(e) => Err(e),
            Ok((inner, j)) => if kind_at(tokens, j) != Some(TokenKindView::ParenClose) {
                Err(parse_error("expected ')' after expression"@, position_at(tokens, j)))
            } else {
                Ok((inner, j + 1))
            },
        },
        Some(_) => Err(parse_error("unexpected token in expression"@, position_at(tokens, i))),
        None => Err(
            parse_error("unexpected end of input in expression"@, position_at(tokens, i)),
        ),
    }
}

/// `unary := '!' unary | atom`.
pub open spec fn unary(tokens: Tokens, i: int) -> Parsed<ExprView>
    decreases tokens.len() - i, 1nat,
{
    if kind_at(tokens, i) == Some(TokenKindView::Not) {
        match unary(tokens, i + 1) {
            Err(e) => Err(e),
            Ok((inner, j)) => Ok((ExprView::Not(Box::new(inner)), j)),
        }
    } else {
        atom(tokens, i)
    }
}

/// `comparison := unary (op unary)?`, both sides singular and neither a
/// call of a logical function.
pub open spec fn comparison(tokens: Tokens, i: int) -> Parsed<ExprView>
    decreases tokens.len() - i, 2nat,
{
    match unary(tokens, i) {
        Err(e) => Err(e),
        Ok((left, j)) => match comparison_operator(kind_at(tokens, j)) {
            None => Ok((left, j)),
            Some(op) => if i < j {
                match unary(tokens, j + 1) {
                    Err(e) => Err(e),
                    Ok((right, k)) => match comparison_error(left, right) {
                        Some(message) => Err(parse_error(message, position_at(tokens, j))),
                        None => Ok(
                            (
                                ExprView::Comparison {
                                    left: Box::new(left),
                                    op,
                                    right: Box::new(right),
                                },
                                k,
                            ),
                        ),
                    },
                }
            } else {
                Ok((left, j))
            },
        },
    }
}

/// The rest of a chain of `operator`, after the operand `left` that ends at
/// `i`: `(operator operand)*`. The operands are comparisons in a chain of
/// `&&` and such chains in a chain of `||`; none may be a literal.
pub open spec fn logical_rest(tokens: Tokens, i: int, left: ExprView, op: LogicalOp)
    -> Parsed<ExprView>
    decreases tokens.len() - i, 0nat,
{
    let operator = match op {
        LogicalOp::And => TokenKindView::And,
        LogicalOp::Or => TokenKindView::Or,
    };
    if kind_at(tokens, i) != Some(operator) {
        Ok((left, i))
    } else {
        let operand = match op {
            LogicalOp::And => comparison(tokens, i + 1),
            LogicalOp::Or => conjunction(tokens, i + 1),
        };
        match operand {
            Err(e) => Err(e),
            Ok((right, j)) => if left is Literal || right is Literal {
                Err(
                    parse_error(
                        "literal cannot be used as operand of logical operator"@,
                        position_at(tokens, i),
                    ),
                )
            } else if i < j <= tokens.len() {
                logical_rest(
                    tokens,
                    j,
                    ExprView::Logical { left: Box::new(left), op, right: Box::new(right) },
                    op,
                )
            } else {
                Ok((left, i))
            },
        }
    }
}

/// `and := comparison ('&&' comparison)*`.
pub open spec fn conjunction(tokens: Tokens, i: int) -> Parsed<ExprView>
    decreases tokens.len() - i, 3nat,
{
    match comparison(tokens, i) {
        Err(e) => Err(e),
        Ok((left, j)) => if i < j <= tokens.len() {
            logical_rest(tokens, j, left, LogicalOp::And)
        } else {
            Ok((left, j))
        },
    }
}

/// `or := and ('||' and)*`.
pub open spec fn disjunction(tokens: Tokens, i: int) -> Parsed<ExprView>
    decreases tokens.len() - i, 4nat,
{
    match conjunction(tokens, i) {
        Err(e) => Err(e),
        Ok((left, j)) => if i < j <= tokens.len() {
            logical_rest(tokens, j, left, LogicalOp::Or)
        } else {
            Ok((left, j))
        },
    }
}

/// A filter expression. Precedence, low to high: `||`, `&&`, comparison,
/// `!`, atom.
pub open spec fn expression(tokens: Tokens, i: int) -> Parsed<ExprView>
    decreases tokens.len() - i, 5nat,
{
    disjunction(tokens, i)
}

/// The segments of the query from `i` to the end of the tokens, after the
/// segments `acc`.
pub open spec fn query_segments(tokens: Tokens, i: int, acc: Seq<SegmentView>) -> Result<
    Seq<SegmentView>,
    ParseErrorView,
>
    decreases tokens.len() - i, 1nat,
{
    if !(0 <= i < tokens.len()) {
        Ok(acc)
    } else {
        match segment(tokens, i) {
            Err(e) => Err(e),
            Ok((item, j)) => if i < j <= tokens.len() {
                query_segments(tokens, j, acc.push(item))
            } else {
                Ok(acc)
            },
        }
    }
}

/// `query := '$' segment*`.
pub open spec fn parse_tokens(tokens: Tokens) -> Result<JsonPathView, ParseErrorView> {
    if kind_at(tokens, 0) != Some(TokenKindView::Root) {
        Err(parse_error("JSONPath must start with '$'"@, 0))
    } else {
        match query_segments(tokens, 1, Seq::empty()) {
            Err(e) => Err(e),
            Ok(segments) => Ok(JsonPathView { segments }),
        }
    }
}

/// The query that the text `s` is, or why it is none: what [`Parser::parse`]
/// returns. The text may not begin or end with whitespace.
pub open spec fn parse_text(s: Seq<char>) -> Result<JsonPathView, ParseErrorView> {
    if s.len() > 0 && is_blank(s[0]) {
        Err(parse_error("leading whitespace is not allowed"@, 0))
    } else if s.len() > 0 && is_blank(s.last()) {
        Err(parse_error("trailing whitespace is not allowed"@, byte_offset(s, s.len() - 1)))
    } else {
        match lex(s) {
            Err(e) => Err(parse_error(e.message, e.position)),
            Ok(list) => parse_tokens(Tokens { list, end: byte_offset(s, s.len() as int) }),
        }
    }
}

impl From<LexerError> for ParseError {
    fn from(e: LexerError) -> (r: ParseError) {
        ParseError { message: e.message, position: e.position }
    }
}

impl vstd::std_specs::convert::FromSpecImpl<LexerError> for ParseError {
    open spec fn obeys_from_spec() -> bool {
        true
    }

    open spec fn from_spec(e: LexerError) -> ParseError {
        ParseError { message: e.message, position: e.position }
    }
}

fn error_at(message: &str, position: usize) -> (r: ParseError)
    ensures
        r@ == parse_error(message@, position as nat),
{
    ParseError { message: message.to_owned(), position }
}

fn error_quoting(prefix: &str, name: &str, suffix: &str, position: usize) -> (r: ParseError)
    ensures
        r@ == parse_error(quoted(prefix@, name@, suffix@), position as nat),
{
    let mut message = prefix.to_owned();
    message.append(name);
    message.append(suffix);
    ParseError { message, position }
}

fn singular_selector(selector: &Selector) -> (r: bool)
    ensures
        r == is_singular_selector(selector@),
{
    match selector {
        Selector::Name(_) => true,
        Selector::Index(_) => true,
        _ => false,
    }
}

/// Whether all the segments are child segments with one name or index each.
fn all_singular(segments: &Vec<Segment>) -> (r: bool)
    ensures
        r == singular_segments(segment_views(segments@), segments.len() as nat),
{
    let ghost views = segment_views(segments@);
    let mut i: usize = 0;
    while i < segments.len()
        invariant
            i <= segments.len(),
            views == segment_views(segments@),
            singular_segments(views, i as nat),
        decreases segments.len() - i,
    {
        let single: bool = match &segments[i] {
            Segment::Child(selectors) => selectors.len() == 1 && singular_selector(&selectors[0]),
            Segment::Descendant(_) => false,
        };
        if !single {
            proof {
                assert(!singular_segments(views, (i + 1) as nat));
                lemma_singular_prefix(views, (i + 1) as nat, segments.len() as nat);
            }
            return false;
        }
        i += 1;
    }
    true
}

/// If the first `n` segments are singular, so are the first `k <= n`.
pub proof fn lemma_singular_prefix(segments: Seq<SegmentView>, k: nat, n: nat)
    requires
        k <= n <= segments.len(),
    ensures
        singular_segments(segments, n) ==> singular_segments(segments, k),
    decreases n,
{
    if k < n {
        lemma_singular_prefix(segments, k, (n - 1) as nat);
    }
}

fn value_function(name: &str) -> (r: bool)
    ensures
        r == is_value_function(name@),
{
    same_text(name, "count") || same_text(name, "length") || same_text(name, "value")
}

fn logical_function(name: &str) -> (r: bool)
    ensures
        r == is_logical_function(name@),
{
    same_text(name, "match") || same_text(name, "search")
}

/// Parser for JSONPath queries.
pub struct Parser {
    tokens: Vec<Token>,
    index: usize,
    end: usize,
}

impl Parser {
    /// The tokens that the parser reads, and the end of their text.
    pub closed spec fn tokens(&self) -> Tokens {
        Tokens { list: token_views(self.tokens@), end: self.end as nat }
    }

    /// Index of the next token to read.
    pub closed spec fn cursor(&self) -> int {
        self.index as int
    }

    /// The cursor lies within the tokens.
    pub closed spec fn wf(&self) -> bool {
        self.index <= self.tokens.len()
    }

    /// A parser of `tokens`, which were read from a text that ends at the
    /// byte offset `end`: the position of errors that stand past the last
    /// token.
    pub fn new(tokens: Vec<Token>, end: usize) -> (r: Parser)
        ensures
            r.wf(),
            r.tokens() == (Tokens { list: token_views(tokens@), end: end as nat }),
            r.cursor() == 0,
    {
        Parser { tokens, index: 0, end }
    }

    /// Parse a JSONPath query string. The query that is returned is well-typed.
    pub fn parse(input: &str) -> (r: Result<JsonPath, ParseError>)
        ensures
            r is Ok <==> parse_text(input@) is Ok,
            match parse_text(input@) {
                Ok(path) => r matches Ok(p) && p@ == path,
                Err(e) => r matches Err(x) && x@ == e,
            },
            r matches Ok(p) ==> valid_query(p@),
    {
        proof {
            law_parsed_texts_are_valid(input@);
        }
        let lexer: Lexer = Lexer::new(input);
        // The query must start with '$': no leading whitespace
        if let Some(first) = lexer.first() {
            if is_blank_char(first) {
                return Err(error_at("leading whitespace is not allowed", 0));
            }
        }
        // No trailing whitespace
        if let Some(last) = lexer.last() {
            if is_blank_char(last) {
                let ghost n = input@.len() as int;
                assert(byte_offset(input@, n) == byte_offset(input@, n - 1) + 1);
                return Err(
                    error_at("trailing whitespace is not allowed", lexer.end_position() - 1),
                );
            }
        }
        let end: usize = lexer.end_position();
        let tokens: Vec<Token> = match lexer.tokenize() {
            Ok(tokens) => tokens,
            Err(e) => {
                return Err(ParseError::from(e));
            },
        };
        let mut parser: Parser = Parser::new(tokens, end);
        parser.parse_jsonpath()
    }

    fn parse_jsonpath(&mut self) -> (r: Result<JsonPath, ParseError>)
        requires
            old(self).wf(),
            old(self).index == 0,
        ensures
            match parse_tokens(old(self).tokens()) {
                Ok(path) => r matches Ok(p) && p@ == path,
                Err(e) => r matches Err(x) && x@ == e,
            },
    {
        let ghost tokens = self.tokens();
        // Expect root identifier
        match self.current_kind() {
            Some(TokenKind::Root) => {},
            _ => {
                return Err(error_at("JSONPath must start with '$'", 0));
            },
        }
        self.advance();
        let mut segments: Vec<Segment> = Vec::new();
        assert(segment_views(segments@) =~= Seq::empty());
        while self.index < self.tokens.len()
            invariant
                self.wf(),
                self.tokens() == tokens,
                tokens == old(self).tokens(),
                kind_at(tokens, 0) == Some(TokenKindView::Root),
                query_segments(tokens, 1, Seq::empty()) == query_segments(
                    tokens,
                    self.index as int,
                    segment_views(segments@),
                ),
            decreases self.tokens.len() - self.index,
        {
            let ghost before = segment_views(segments@);
            let segment: Segment = self.parse_segment()?;
            segments.push(segment);
            assert(segment_views(segments@) =~= before.push(segment@));
        }
        Ok(JsonPath::new(segments))
    }

    #[verifier::rlimit(40)]
    fn parse_segment(&mut self) -> (r: Result<Segment, ParseError>)
        requires
            old(self).wf(),
        ensures
            final(self).wf(),
            final(self).tokens() == old(self).tokens(),
            match segment(old(self).tokens(), old(self).index as int) {
                Ok((v, next)) => r matches Ok(x) && x@ == v && final(self).index == next
                    && old(self).index < next,
                Err(e) => r matches Err(x) && x@ == e,
            },
        decreases old(self).tokens.len() - old(self).index, 0nat,
    {
        let dots: usize = match self.current_kind() {
            Some(TokenKind::DotDot) => 2,
            Some(TokenKind::Dot) => 1,
            Some(TokenKind::BracketOpen) => {
                self.advance();
                let selectors: Vec<Selector> = self.parse_bracket_selectors()?;
                return Ok(Segment::Child(selectors));
            },
            Some(_) => {
                return Err(error_at("unexpected token", self.current_position()));
            },
            None => {
                return Err(error_at("unexpected end of input", self.current_position()));
            },
        };
        let dot_pos: usize = self.current_position();
        self.advance();
        // No whitespace allowed after '.' or '..'
        let next_pos: usize = self.current_position();
        if next_pos < dots || next_pos - dots != dot_pos {
            if dots == 2 {
                return Err(error_at("whitespace not allowed after '..'", next_pos));
            } else {
                return Err(error_at("whitespace not allowed after '.'", next_pos));
            }
        }
        let selectors: Vec<Selector> = self.parse_selectors_after_dot()?;
        if dots == 2 {
            Ok(Segment::Descendant(selectors))
        } else {
            Ok(Segment::Child(selectors))
        }
    }

    #[verifier::rlimit(40)]
    fn parse_selectors_after_dot(&mut self) -> (r: Result<Vec<Selector>, ParseError>)
        requires
            old(self).wf(),
        ensures
            final(self).wf(),
            final(self).tokens() == old(self).tokens(),
            match selectors_after_dot(old(self).tokens(), old(self).index as int) {
                Ok((v, next)) => r matches Ok(x) && selector_views(x@) == v && final(self).index
                    == next && old(self).index < next,
                Err(e) => r matches Err(x) && x@ == e,
            },
        decreases old(self).tokens.len() - old(self).index, 0nat,
    {
        // Keywords are valid as property names in dot notation
        let keyword: Option<&'static str> = match self.current_kind() {
            Some(kind) => Parser::keyword_to_property_name(kind),
            None => None,
        };
        if let Some(name) = keyword {
            self.advance();
            let mut selectors: Vec<Selector> = Vec::new();
            let single: Selector = Selector::Name(name.to_owned());
            selectors.push(single);
            assert(selector_views(selectors@) =~= seq![single@]);
            return Ok(selectors);
        }
        let single: Selector = match self.current_kind() {
            Some(TokenKind::Ident(name)) => Selector::Name(name.clone()),
            Some(TokenKind::Wildcard) => Selector::Wildcard,
            Some(TokenKind::BracketOpen) => {
                self.advance();
                return self.parse_bracket_selectors();
            },
            _ => {
                return Err(
                    error_at("expected identifier or wildcard after '.'", self.current_position()),
                );
            },
        };
        self.advance();
        let mut selectors: Vec<Selector> = Vec::new();
        selectors.push(single);
        assert(selector_views(selectors@) =~= seq![single@]);
        Ok(selectors)
    }

    /// Parses the selectors of a bracketed segment, whose `[` is read.
    #[verifier::rlimit(40)]
    fn parse_bracket_selectors(&mut self) -> (r: Result<Vec<Selector>, ParseError>)
        requires
            old(self).wf(),
        ensures
            final(self).wf(),
            final(self).tokens() == old(self).tokens(),
            match bracket_selectors(old(self).tokens(), old(self).index as int, Seq::empty()) {
                Ok((v, next)) => r matches Ok(x) && selector_views(x@) == v && final(self).index
                    == next && old(self).index < next,
                Err(e) => r matches Err(x) && x@ == e,
            },
        decreases old(self).tokens.len() - old(self).index, 1nat,
    {
        let ghost tokens = self.tokens();
        let ghost start = self.index as int;
        let mut selectors: Vec<Selector> = Vec::new();
        assert(selector_views(selectors@) =~= Seq::empty());
        loop
            invariant
                self.wf(),
                self.tokens() == tokens,
                tokens == old(self).tokens(),
                start == old(self).index,
                start <= self.index,
                bracket_selectors(tokens, start, Seq::empty()) == bracket_selectors(
                    tokens,
                    self.index as int,
                    selector_views(selectors@),
                ),
            decreases self.tokens.len() - self.index,
        {
            let ghost before = selector_views(selectors@);
            let selector: Selector = self.parse_selector()?;
            selectors.push(selector);
            assert(selector_views(selectors@) =~= before.push(selector@));
            match self.current_kind() {
                Some(TokenKind::Comma) => {
                    self.advance();
                },
                Some(TokenKind::BracketClose) => {
                    self.advance();
                    return Ok(selectors);
                },
                Some(_) => {
                    return Err(error_at("expected ',' or ']'", self.current_position()));
                },
                None => {
                    return Err(error_at("unclosed bracket", self.current_position()));
                },
            }
        }
    }

    #[verifier::rlimit(40)]
    fn parse_selector(&mut self) -> (r: Result<Selector, ParseError>)
        requires
            old(self).wf(),
        ensures
            final(self).wf(),
            final(self).tokens() == old(self).tokens(),
            match selector(old(self).tokens(), old(self).index as int) {
                Ok((v, next)) => r matches Ok(x) && x@ == v && final(self).index == next
                    && old(self).index < next,
                Err(e) => r matches Err(x) && x@ == e,
            },
        decreases old(self).tokens.len() - old(self).index, 0nat,
    {
        match self.current_kind() {
            Some(TokenKind::Wildcard) => {
                self.advance();
                Ok(Selector::Wildcard)
            },
            Some(TokenKind::String(s)) => {
                let name: String = s.clone();
                self.advance();
                Ok(Selector::Name(name))
            },
            Some(TokenKind::Number(_, _)) => self.parse_index_or_slice(),
            Some(TokenKind::Colon) => self.parse_index_or_slice(),
            Some(TokenKind::Question) => {
                self.advance();  // consume '?'
                let expr: Expr = self.parse_expression()?;
                Parser::validate_filter(&expr, self.current_position())?;
                Ok(Selector::Filter(Box::new(expr)))
            },
            Some(_) => Err(error_at("unexpected token in selector", self.current_position())),
            None => Err(error_at("unexpected end of input in selector", self.current_position())),
        }
    }

    /// Validate that an expression may be the expression of a filter: not a
    /// literal alone, nor a call of a function that returns a value.
    fn validate_filter(expr: &Expr, pos: usize) -> (r: Result<(), ParseError>)
        ensures
            match filter_error(expr@) {
                Some(message) => r matches Err(e) && e@ == parse_error(message, pos as nat),
                None => r is Ok,
            },
    {
        // A literal alone is not allowed as filter expression
        if let Expr::Literal(_) = expr {
            return Err(error_at("filter expression cannot be a literal alone", pos));
        }
        // Functions that return a value must be compared: they cannot be
        // used as existence tests
        if let Expr::FunctionCall { name, .. } = expr {
            if value_function(name.as_str()) {
                return Err(
                    error_quoting(
                        "function '",
                        name.as_str(),
                        "' returns a value that must be compared",
                        pos,
                    ),
                );
            }
        }
        Ok(())
    }

    #[verifier::rlimit(40)]
    fn parse_index_or_slice(&mut self) -> (r: Result<Selector, ParseError>)
        requires
            old(self).wf(),
            kind_at(old(self).tokens(), old(self).index as int) is Some,
            kind_at(old(self).tokens(), old(self).index as int)->0 is Number || kind_at(
                old(self).tokens(),
                old(self).index as int,
            )->0 is Colon,
        ensures
            final(self).wf(),
            final(self).tokens() == old(self).tokens(),
            match index_or_slice(old(self).tokens(), old(self).index as int) {
                Ok((v, next)) => r matches Ok(x) && x@ == v && final(self).index == next
                    && old(self).index < next,
                Err(e) => r matches Err(x) && x@ == e,
            },
    {
        // Parse: number, :, number:, :number, number:number, number:number:number, etc.
        let start: Option<i64> = self.try_parse_index_number()?;
        match self.current_kind() {
            Some(TokenKind::Colon) => {},
            _ => {
                // Just an index
                return match start {
                    Some(n) => Ok(Selector::Index(n)),
                    None => Err(error_at("expected number", self.current_position())),
                };
            },
        }
        // It's a slice
        self.advance();  // consume first ':'
        let end: Option<i64> = self.try_parse_index_number()?;
        let second: bool = match self.current_kind() {
            Some(TokenKind::Colon) => true,
            _ => false,
        };
        let step: Option<i64> = if second {
            self.advance();  // consume second ':'
            self.try_parse_index_number()?
        } else {
            None
        };
        Ok(Selector::Slice { start, end, step })
    }

    /// Try to parse a number for index/slice selector.
    /// Returns Ok(Some(n)) if valid integer, Ok(None) if no number token, Err if invalid.
    fn try_parse_index_number(&mut self) -> (r: Result<Option<i64>, ParseError>)
        requires
            old(self).wf(),
        ensures
            final(self).wf(),
            final(self).tokens() == old(self).tokens(),
            match index_number(old(self).tokens(), old(self).index as int) {
                Ok((v, next)) => r matches Ok(x) && bound_view(x) == v
                    && final(self).index == next && old(self).index <= next,
                Err(e) => r matches Err(x) && x@ == e,
            },
    {
        let pos: usize = self.current_position();
        let value: Option<i64> = match self.current_kind() {
            Some(TokenKind::Number(n, has_fraction_or_exp)) => {
                // Index must be written as integer (no decimal point or exponent)
                if *has_fraction_or_exp {
                    return Err(error_at("index must be an integer, not a decimal", pos));
                }
                // Check the exact integer range
                match n.to_integer() {
                    Some(v) => Some(v),
                    None => {
                        return Err(
                            error_at(
                                "index out of range (must be between -(2^53-1) and 2^53-1)",
                                pos,
                            ),
                        );
                    },
                }
            },
            _ => {
                return Ok(None);
            },
        };
        self.advance();
        Ok(value)
    }

    fn current_kind(&self) -> (r: Option<&TokenKind>)
        requires
            self.wf(),
        ensures
            match kind_at(self.tokens(), self.index as int) {
                Some(kind) => r matches Some(k) && k@ == kind && self.index < self.tokens.len()
                    && *k == self.tokens@[self.index as int].kind,
                None => r is None && self.index == self.tokens.len(),
            },
    {
        if self.index < self.tokens.len() {
            Some(&self.tokens[self.index].kind)
        } else {
            None
        }
    }

    fn current_position(&self) -> (r: usize)
        requires
            self.wf(),
        ensures
            r == position_at(self.tokens(), self.index as int),
    {
        if self.index < self.tokens.len() {
            self.tokens[self.index].position
        } else {
            // Past the last token: the end of the text
            self.end
        }
    }

    fn advance(&mut self)
        requires
            old(self).wf(),
            old(self).index < old(self).tokens.len(),
        ensures
            final(self).wf(),
            final(self).tokens == old(self).tokens,
            final(self).end == old(self).end,
            final(self).index == old(self).index + 1,
    {
        self.index += 1;
    }

    /// Convert keyword TokenKind to property name string:
    /// keywords (true, false, null) are valid as property names.
    fn keyword_to_property_name(kind: &TokenKind) -> (r: Option<&'static str>)
        ensures
            kind@ is True ==> (r matches Some(name) && name@ == "true"@),
            kind@ is False ==> (r matches Some(name) && name@ == "false"@),
            kind@ is Null ==> (r matches Some(name) && name@ == "null"@),
            !(kind@ is True || kind@ is False || kind@ is Null) ==> r is None,
    {
        match kind {
            TokenKind::True => Some("true"),
            TokenKind::False => Some("false"),
            TokenKind::Null => Some("null"),
            _ => None,
        }
    }

    // ========== Expression Parsing ==========
    /// Parse an expression (entry point): logical OR has the lowest precedence.
    fn parse_expression(&mut self) -> (r: Result<Expr, ParseError>)
        requires
            old(self).wf(),
        ensures
            final(self).wf(),
            final(self).tokens() == old(self).tokens(),
            match expression(old(self).tokens(), old(self).index as int) {
                Ok((v, next)) => r matches Ok(x) && x@ == v && final(self).index == next
                    && old(self).index < next,
                Err(e) => r matches Err(x) && x@ == e,
            },
        decreases old(self).tokens.len() - old(self).index, 5nat,
    {
        self.parse_or_expression()
    }

    /// Parse logical OR expression: expr || expr
    #[verifier::rlimit(40)]
    fn parse_or_expression(&mut self) -> (r: Result<Expr, ParseError>)
        requires
            old(self).wf(),
        ensures
            final(self).wf(),
            final(self).tokens() == old(self).tokens(),
            match disjunction(old(self).tokens(), old(self).index as int) {
                Ok((v, next)) => r matches Ok(x) && x@ == v && final(self).index == next
                    && old(self).index < next,
                Err(e) => r matches Err(x) && x@ == e,
            },
        decreases old(self).tokens.len() - old(self).index, 4nat,
    {
        let ghost tokens = self.tokens();
        let mut left: Expr = self.parse_and_expression()?;
        let ghost first = self.index as int;
        let ghost first_left = left@;
        loop
            invariant
                self.wf(),
                self.tokens() == tokens,
                tokens == old(self).tokens(),
                old(self).index < first <= self.index,
                conjunction(tokens, old(self).index as int) matches Ok((l, j))
                    && l == first_left && j
                    == first,
                logical_rest(tokens, first, first_left, LogicalOp::Or) == logical_rest(
                    tokens,
                    self.index as int,
                    left@,
                    LogicalOp::Or,
                ),
            decreases self.tokens.len() - self.index,
        {
            match self.current_kind() {
                Some(TokenKind::Or) => {},
                _ => {
                    return Ok(left);
                },
            }
            let op_pos: usize = self.current_position();
            self.advance();  // consume '||'
            let right: Expr = self.parse_and_expression()?;
            // Logical operators take no bare literal as operand
            Parser::validate_logical_operand(&left, op_pos)?;
            Parser::validate_logical_operand(&right, op_pos)?;
            left =
            Expr::Logical { left: Box::new(left), op: LogicalOp::Or, right: Box::new(right) };
        }
    }

    /// Parse logical AND expression: expr && expr
    #[verifier::rlimit(40)]
    fn parse_and_expression(&mut self) -> (r: Result<Expr, ParseError>)
        requires
            old(self).wf(),
        ensures
            final(self).wf(),
            final(self).tokens() == old(self).tokens(),
            match conjunction(old(self).tokens(), old(self).index as int) {
                Ok((v, next)) => r matches Ok(x) && x@ == v && final(self).index == next
                    && old(self).index < next,
                Err(e) => r matches Err(x) && x@ == e,
            },
        decreases old(self).tokens.len() - old(self).index, 3nat,
    {
        let ghost tokens = self.tokens();
        let mut left: Expr = self.parse_comparison_expression()?;
        let ghost first = self.index as int;
        let ghost first_left = left@;
        loop
            invariant
                self.wf(),
                self.tokens() == tokens,
                tokens == old(self).tokens(),
                old(self).index < first <= self.index,
                comparison(tokens, old(self).index as int) matches Ok((l, j)) && l == first_left
                    && j
                    == first,
                logical_rest(tokens, first, first_left, LogicalOp::And) == logical_rest(
                    tokens,
                    self.index as int,
                    left@,
                    LogicalOp::And,
                ),
            decreases self.tokens.len() - self.index,
        {
            match self.current_kind() {
                Some(TokenKind::And) => {},
                _ => {
                    return Ok(left);
                },
            }
            let op_pos: usize = self.current_position();
            self.advance();  // consume '&&'
            let right: Expr = self.parse_comparison_expression()?;
            // Logical operators take no bare literal as operand
            Parser::validate_logical_operand(&left, op_pos)?;
            Parser::validate_logical_operand(&right, op_pos)?;
            left =
            Expr::Logical { left: Box::new(left), op: LogicalOp::And, right: Box::new(right) };
        }
    }

    /// Validate that an expression may be an operand of && or ||:
    /// bare literals are not allowed.
    fn validate_logical_operand(expr: &Expr, pos: usize) -> (r: Result<(), ParseError>)
        ensures
            expr@ is Literal ==> (r matches Err(e) && e@ == parse_error(
                "literal cannot be used as operand of logical operator"@,
                pos as nat,
            )),
            !(expr@ is Literal) ==> r is Ok,
    {
        if let Expr::Literal(_) = expr {
            return Err(error_at("literal cannot be used as operand of logical operator", pos));
        }
        Ok(())
    }

    /// Check if an expression is a singular query (returns at most one value):
    /// comparison operands must be.
    fn is_singular_query(expr: &Expr) -> (r: bool)
        ensures
            r == is_singular_query(expr@),
    {
        match expr {
            Expr::Path { segments, .. } => all_singular(segments),
            Expr::CurrentNode => true,
            Expr::RootNode => true,
            Expr::Literal(_) => true,
            Expr::FunctionCall { .. } => true,
            _ => false,
        }
    }

    /// Check if an expression is a call of a function with a logical result
    /// (match, search). Returns the function name if it is, None otherwise.
    fn get_logical_type_function_name(expr: &Expr) -> (r: Option<&str>)
        ensures
            match logical_function_name(expr@) {
                Some(name) => r matches Some(n) && n@ == name,
                None => r is None,
            },
    {
        if let Expr::FunctionCall { name, .. } = expr {
            if logical_function(name.as_str()) {
                return Some(name.as_str());
            }
        }
        None
    }

    /// Parse comparison expression: expr op expr
    #[verifier::rlimit(40)]
    fn parse_comparison_expression(&mut self) -> (r: Result<Expr, ParseError>)
        requires
            old(self).wf(),
        ensures
            final(self).wf(),
            final(self).tokens() == old(self).tokens(),
            match comparison(old(self).tokens(), old(self).index as int) {
                Ok((v, next)) => r matches Ok(x) && x@ == v && final(self).index == next
                    && old(self).index < next,
                Err(e) => r matches Err(x) && x@ == e,
            },
        decreases old(self).tokens.len() - old(self).index, 2nat,
    {
        let left: Expr = self.parse_unary_expression()?;
        let op: CompOp = match self.current_kind() {
            Some(TokenKind::Equal) => CompOp::Eq,
            Some(TokenKind::NotEqual) => CompOp::Ne,
            Some(TokenKind::LessThan) => CompOp::Lt,
            Some(TokenKind::GreaterThan) => CompOp::Gt,
            Some(TokenKind::LessEq) => CompOp::Le,
            Some(TokenKind::GreaterEq) => CompOp::Ge,
            _ => {
                return Ok(left);
            },
        };
        let op_pos: usize = self.current_position();
        self.advance();  // consume operator
        let right: Expr = self.parse_unary_expression()?;
        // Both sides of comparison must be singular queries
        if !Parser::is_singular_query(&left) || !Parser::is_singular_query(&right) {
            return Err(error_at("non-singular query not allowed in comparison", op_pos));
        }
        // Functions with a logical result (match, search) cannot be compared
        if let Some(name) = Parser::get_logical_type_function_name(&left) {
            return Err(
                error_quoting(
                    "function '",
                    name,
                    "' returns LogicalType and cannot be compared",
                    op_pos,
                ),
            );
        }
        if let Some(name) = Parser::get_logical_type_function_name(&right) {
            return Err(
                error_quoting(
                    "function '",
                    name,
                    "' returns LogicalType and cannot be compared",
                    op_pos,
                ),
            );
        }
        Ok(Expr::Comparison { left: Box::new(left), op, right: Box::new(right) })
    }

    /// Parse unary expression: !expr or atom
    fn parse_unary_expression(&mut self) -> (r: Result<Expr, ParseError>)
        requires
            old(self).wf(),
        ensures
            final(self).wf(),
            final(self).tokens() == old(self).tokens(),
            match unary(old(self).tokens(), old(self).index as int) {
                Ok((v, next)) => r matches Ok(x) && x@ == v && final(self).index == next
                    && old(self).index < next,
                Err(e) => r matches Err(x) && x@ == e,
            },
        decreases old(self).tokens.len() - old(self).index, 1nat,
    {
        let negated: bool = match self.current_kind() {
            Some(TokenKind::Not) => true,
            _ => false,
        };
        if negated {
            self.advance();  // consume '!'
            let expr: Expr = self.parse_unary_expression()?;
            Ok(Expr::Not(Box::new(expr)))
        } else {
            self.parse_atom()
        }
    }

    /// Parse atom: @, $, literal, function call, or parenthesized expression
    #[verifier::rlimit(40)]
    fn parse_atom(&mut self) -> (r: Result<Expr, ParseError>)
        requires
            old(self).wf(),
        ensures
            final(self).wf(),
            final(self).tokens() == old(self).tokens(),
            match atom(old(self).tokens(), old(self).index as int) {
                Ok((v, next)) => r matches Ok(x) && x@ == v && final(self).index == next
                    && old(self).index < next,
                Err(e) => r matches Err(x) && x@ == e,
            },
        decreases old(self).tokens.len() - old(self).index, 0nat,
    {
        match self.current_kind() {
            Some(TokenKind::At) => {
                self.advance();  // consume '@'
                self.parse_path_or_node(Expr::CurrentNode)
            },
            Some(TokenKind::Root) => {
                self.advance();  // consume '$'
                self.parse_path_or_node(Expr::RootNode)
            },
            Some(TokenKind::True) => {
                self.advance();
                Ok(Expr::Literal(CachedLiteral::new(Literal::Bool(true))))
            },
            Some(TokenKind::False) => {
                self.advance();
                Ok(Expr::Literal(CachedLiteral::new(Literal::Bool(false))))
            },
            Some(TokenKind::Null) => {
                self.advance();
                Ok(Expr::Literal(CachedLiteral::new(Literal::Null)))
            },
            Some(TokenKind::Number(n, _)) => {
                let value = n.duplicate();
                self.advance();
                Ok(Expr::Literal(CachedLiteral::new(Literal::Number(value))))
            },
            Some(TokenKind::String(s)) => {
                let value: String = s.clone();
                self.advance();
                Ok(Expr::Literal(CachedLiteral::new(Literal::String(value))))
            },
            Some(TokenKind::Ident(ident)) => {
                let name: String = ident.clone();
                let ident_pos: usize = self.current_position();
                let ident_len: usize = byte_length(name.as_str());
                self.advance();
                // Check if this is a function call
                match self.current_kind() {
                    Some(TokenKind::ParenOpen) => {},
                    _ => {
                        return Err(
                            error_quoting(
                                "unexpected identifier '",
                                name.as_str(),
                                "' in expression",
                                self.current_position(),
                            ),
                        );
                    },
                }
                // No whitespace allowed between function name and '('
                let next_pos: usize = self.current_position();
                if next_pos < ident_len || next_pos - ident_len != ident_pos {
                    return Err(
                        error_at("whitespace not allowed between function name and '('", next_pos),
                    );
                }
                self.parse_function_call(name)
            },
            Some(TokenKind::ParenOpen) => {
                self.advance();  // consume '('
                let expr: Expr = self.parse_expression()?;
                match self.current_kind() {
                    Some(TokenKind::ParenClose) => {},
                    _ => {
                        return Err(
                            error_at("expected ')' after expression", self.current_position()),
                        );
                    },
                }
                self.advance();  // consume ')'
                Ok(expr)
            },
            Some(_) => Err(error_at("unexpected token in expression", self.current_position())),
            None => Err(
                error_at("unexpected end of input in expression", self.current_position()),
            ),
        }
    }

    /// Parse path segments after @ or $, or return the node itself
    #[verifier::rlimit(40)]
    fn parse_path_or_node(&mut self, start: Expr) -> (r: Result<Expr, ParseError>)
        requires
            old(self).wf(),
        ensures
            final(self).wf(),
            final(self).tokens() == old(self).tokens(),
            match path_or_node(old(self).tokens(), old(self).index as int, start@) {
                Ok((v, next)) => r matches Ok(x) && x@ == v && final(self).index == next
                    && old(self).index <= next,
                Err(e) => r matches Err(x) && x@ == e,
            },
        decreases old(self).tokens.len() - old(self).index, 2nat,
    {
        let ghost tokens = self.tokens();
        // Check if followed by path segments
        if !self.at_segment() {
            return Ok(start);
        }
        let mut segments: Vec<Segment> = Vec::new();
        assert(segment_views(segments@) =~= Seq::empty());
        while self.at_segment()
            invariant
                self.wf(),
                self.tokens() == tokens,
                tokens == old(self).tokens(),
                old(self).index <= self.index,
                path_segments(tokens, old(self).index as int, Seq::empty()) == path_segments(
                    tokens,
                    self.index as int,
                    segment_views(segments@),
                ),
            decreases self.tokens.len() - self.index,
        {
            let ghost before = segment_views(segments@);
            let segment: Segment = self.parse_segment()?;
            segments.push(segment);
            assert(segment_views(segments@) =~= before.push(segment@));
        }
        Ok(Expr::Path { start: Box::new(start), segments })
    }

    /// Whether a path segment starts at the cursor.
    fn at_segment(&self) -> (r: bool)
        requires
            self.wf(),
        ensures
            r == starts_segment(kind_at(self.tokens(), self.index as int)),
    {
        match self.current_kind() {
            Some(TokenKind::Dot) => true,
            Some(TokenKind::DotDot) => true,
            Some(TokenKind::BracketOpen) => true,
            _ => false,
        }
    }

    /// Parse a function call: name(args...)
    #[verifier::rlimit(40)]
    fn parse_function_call(&mut self, name: String) -> (r: Result<Expr, ParseError>)
        requires
            old(self).wf(),
            kind_at(old(self).tokens(), old(self).index as int) == Some(TokenKindView::ParenOpen),
        ensures
            final(self).wf(),
            final(self).tokens() == old(self).tokens(),
            match function_call(old(self).tokens(), old(self).index as int, name@) {
                Ok((v, next)) => r matches Ok(x) && x@ == v && final(self).index == next
                    && old(self).index < next,
                Err(e) => r matches Err(x) && x@ == e,
            },
        decreases old(self).tokens.len() - old(self).index, 0nat,
    {
        let ghost tokens = self.tokens();
        let func_pos: usize = self.current_position();
        // Consume '('
        self.advance();
        let mut args: Vec<Expr> = Vec::new();
        assert(expr_views(args@) =~= Seq::empty());
        // Check for empty argument list
        let empty: bool = match self.current_kind() {
            Some(TokenKind::ParenClose) => true,
            _ => false,
        };
        if !empty {
            let ghost first = self.index as int;
            loop
                invariant_except_break
                    arguments(tokens, first, Seq::empty()) == arguments(
                        tokens,
                        self.index as int,
                        expr_views(args@),
                    ),
                invariant
                    self.wf(),
                    self.tokens() == tokens,
                    tokens == old(self).tokens(),
                    first == old(self).index + 1,
                    first <= self.index,
                    old(self).index < tokens.len(),
                    kind_at(tokens, first) != Some(TokenKindView::ParenClose),
                ensures
                    self.wf(),
                    self.tokens() == tokens,
                    first < self.index,
                    arguments(tokens, first, Seq::empty()) == Ok::<
                        (Seq<ExprView>, int),
                        ParseErrorView,
                    >((expr_views(args@), self.index as int)),
                decreases self.tokens.len() - self.index,
            {
                let ghost before = expr_views(args@);
                let arg: Expr = self.parse_expression()?;
                args.push(arg);
                assert(expr_views(args@) =~= before.push(arg@));
                match self.current_kind() {
                    Some(TokenKind::Comma) => {
                        self.advance();  // consume ','
                    },
                    _ => {
                        break ;
                    },
                }
            }
        }
        // Consume ')'
        match self.current_kind() {
            Some(TokenKind::ParenClose) => {},
            _ => {
                return Err(
                    error_at("expected ')' after function arguments", self.current_position()),
                );
            },
        }
        self.advance();
        // Validate function parameters
        Parser::validate_function_params(name.as_str(), &args, func_pos)?;
        Ok(Expr::FunctionCall { name, args })
    }

    /// Check if an expression is a query (NodesType): @ or $ based path
    fn is_nodes_type(expr: &Expr) -> (r: bool)
        ensures
            r == is_nodes_type(expr@),
    {
        match expr {
            Expr::CurrentNode => true,
            Expr::RootNode => true,
            Expr::Path { .. } => true,
            _ => false,
        }
    }

    /// Check if an expression is ValueType (singular query, literal, or a
    /// call of a function that returns a value)
    fn is_value_type(expr: &Expr) -> (r: bool)
        ensures
            r == is_value_type(expr@),
    {
        match expr {
            Expr::Literal(_) => true,
            Expr::CurrentNode => true,
            Expr::RootNode => true,
            Expr::Path { segments, .. } => all_singular(segments),
            Expr::FunctionCall { name, .. } => value_function(name.as_str()),
            _ => false,
        }
    }

    /// Validate function parameter count and types
    fn validate_function_params(name: &str, args: &Vec<Expr>, pos: usize) -> (r: Result<
        (),
        ParseError,
    >)
        ensures
            match function_error(name@, expr_views(args@)) {
                Some(message) => r matches Err(e) && e@ == parse_error(message, pos as nat),
                None => r is Ok,
            },
    {
        if same_text(name, "count") {
            // count(NodesType): exactly 1 argument, must be a query (not literal)
            if args.len() != 1 {
                return Err(error_at("function 'count' requires exactly 1 argument", pos));
            }
            if !Parser::is_nodes_type(&args[0]) {
                return Err(error_at("function 'count' requires a query argument (NodesType)", pos));
            }
        } else if same_text(name, "length") {
            // length(ValueType): exactly 1 argument, must be singular query or literal
            if args.len() != 1 {
                return Err(error_at("function 'length' requires exactly 1 argument", pos));
            }
            if !Parser::is_value_type(&args[0]) {
                return Err(
                    error_at(
                        "function 'length' requires a singular query or literal argument",
                        pos,
                    ),
                );
            }
        } else if same_text(name, "match") {
            // match(ValueType, ValueType): exactly 2 arguments
            if args.len() != 2 {
                return Err(error_at("function 'match' requires exactly 2 arguments", pos));
            }
            if !Parser::is_value_type(&args[0]) {
                return Err(
                    error_at(
                        "function 'match' first argument must be a singular query or literal",
                        pos,
                    ),
                );
            }
            if !Parser::is_value_type(&args[1]) {
                return Err(
                    error_at(
                        "function 'match' second argument must be a singular query or literal",
                        pos,
                    ),
                );
            }
        } else if same_text(name, "search") {
            // search(ValueType, ValueType): exactly 2 arguments
            if args.len() != 2 {
                return Err(error_at("function 'search' requires exactly 2 arguments", pos));
            }
            if !Parser::is_value_type(&args[0]) {
                return Err(
                    error_at(
                        "function 'search' first argument must be a singular query or literal",
                        pos,
                    ),
                );
            }
            if !Parser::is_value_type(&args[1]) {
                return Err(
                    error_at(
                        "function 'search' second argument must be a singular query or literal",
                        pos,
                    ),
                );
            }
        } else if same_text(name, "value") {
            // value(NodesType): exactly 1 argument, must be a query (not literal)
            if args.len() != 1 {
                return Err(error_at("function 'value' requires exactly 1 argument", pos));
            }
            if !Parser::is_nodes_type(&args[0]) {
                return Err(error_at("function 'value' requires a query argument (NodesType)", pos));
            }
        } else {
            // Only the 5 defined functions are allowed
            return Err(error_quoting("unknown function '", name, "'", pos));
        }
        Ok(())
    }
}

fn is_blank_char(ch: char) -> (r: bool)
    ensures
        r == is_blank(ch),
{
    ch == ' ' || ch == '\t' || ch == '\n' || ch == '\r'
}

} // verus!
