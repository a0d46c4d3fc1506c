//! The abstract syntax of JSONPath queries, and its mathematical view.

use crate::json::{Json, JsonView};
use crate::number::{Decimal, Number};
use vstd::prelude::*;

verus! {

/// A complete JSONPath query.
#[derive(Debug, PartialEq)]
pub struct JsonPath {
    pub segments: Vec<Segment>,
}

/// A segment in a JSONPath query.
#[derive(Debug, PartialEq)]
pub enum Segment {
    /// Child segment (single dot: `.key` or `[selector]`)
    Child(Vec<Selector>),
    /// Descendant segment (double dot: `..key` or `..[selector]`)
    Descendant(Vec<Selector>),
}

/// A selector within a segment.
#[derive(Debug, PartialEq)]
pub enum Selector {
    /// Name selector: `.key` or `['key']`
    Name(String),
    /// Index selector: `[0]` or `[-1]`
    Index(i64),
    /// Wildcard selector: `*` or `[*]`
    Wildcard,
    /// Array slice selector: `[start:end:step]`
    Slice { start: Option<i64>, end: Option<i64>, step: Option<i64> },
    /// Filter selector: `[?expr]`
    Filter(Box<Expr>),
}

/// An expression in a filter.
#[derive(Debug, PartialEq)]
#[allow(inconsistent_fields)]
pub enum Expr {
    /// Current node reference: `@`
    CurrentNode,
    /// Root node reference: `$` (for absolute paths in filters)
    RootNode,
    /// Path expression relative to current/root node: `@.foo.bar` or `$.foo`
    Path {
        /// Starting point (CurrentNode or RootNode)
        start: Box<Expr>,
        /// Path segments to traverse
        segments: Vec<Segment>,
    },
    /// Literal value (with its JSON value kept beside it)
    Literal(CachedLiteral),
    /// Comparison expression: `@.price < 10`
    Comparison { left: Box<Expr>, op: CompOp, right: Box<Expr> },
    /// Logical AND/OR expression: `@.a && @.b`
    Logical { left: Box<Expr>, op: LogicalOp, right: Box<Expr> },
    /// Logical NOT expression: `!@.archived`
    Not(Box<Expr>),
    /// Function call: `length(@.items)`
    FunctionCall { name: String, args: Vec<Expr> },
}

/// Comparison operators.
#[derive(Debug, Clone, Copy, PartialEq, Eq, Structural)]
pub enum CompOp {
    /// Equal: `==`
    Eq,
    /// Not equal: `!=`
    Ne,
    /// Less than: `<`
    Lt,
    /// Greater than: `>`
    Gt,
    /// Less than or equal: `<=`
    Le,
    /// Greater than or equal: `>=`
    Ge,
}

/// Logical operators.
#[derive(Debug, Clone, Copy, PartialEq, Eq, Structural)]
pub enum LogicalOp {
    /// Logical AND: `&&`
    And,
    /// Logical OR: `||`
    Or,
}

/// Literal values in expressions.
#[derive(Debug, PartialEq)]
pub enum Literal {
    /// Null value
    Null,
    /// Boolean value
    Bool(bool),
    /// Number
    Number(Number),
    /// String value
    String(String),
}

/// Literal with its JSON value computed once, when the query is parsed. The
/// value of a number is that number, or `null` where the number is too large
/// for a double.
#[derive(Debug, PartialEq)]
pub struct CachedLiteral {
    literal: Literal,
    cached_value: Json,
}

/// Mathematical model of a [`Literal`].
pub ghost enum LiteralView {
    Null,
    Bool(bool),
    Number(Decimal),
    String(Seq<char>),
}

/// Mathematical model of a [`Selector`].
pub ghost enum SelectorView {
    Name(Seq<char>),
    Index(int),
    Wildcard,
    Slice { start: Option<int>, end: Option<int>, step: Option<int> },
    Filter(Box<ExprView>),
}

/// Mathematical model of a [`Segment`].
pub ghost enum SegmentView {
    Child(Seq<SelectorView>),
    Descendant(Seq<SelectorView>),
}

/// Mathematical model of an [`Expr`].
#[allow(inconsistent_fields)]
pub ghost enum ExprView {
    CurrentNode,
    RootNode,
    Path { start: Box<ExprView>, segments: Seq<SegmentView> },
    Literal(LiteralView),
    Comparison { left: Box<ExprView>, op: CompOp, right: Box<ExprView> },
    Logical { left: Box<ExprView>, op: LogicalOp, right: Box<ExprView> },
    Not(Box<ExprView>),
    FunctionCall { name: Seq<char>, args: Seq<ExprView> },
}

/// Mathematical model of a [`JsonPath`].
pub ghost struct JsonPathView {
    pub segments: Seq<SegmentView>,
}

impl LiteralView {
    /// The JSON value that the literal denotes. A number that is too large
    /// for a double denotes `null`.
    pub open spec fn value(self) -> JsonView {
        match self {
            LiteralView::Null => JsonView::Null,
            LiteralView::Bool(b) => JsonView::Bool(b),
            LiteralView::Number(n) => if n.exceeds_double() {
                JsonView::Null
            } else {
                JsonView::Number(n)
            },
            LiteralView::String(s) => JsonView::String(s),
        }
    }
}

impl View for Literal {
    type V = LiteralView;

    open spec fn view(&self) -> LiteralView {
        match self {
            Literal::Null => LiteralView::Null,
            Literal::Bool(b) => LiteralView::Bool(*b),
            Literal::Number(n) => LiteralView::Number(n@),
            Literal::String(s) => LiteralView::String(s@),
        }
    }
}

impl View for CachedLiteral {
    type V = LiteralView;

    closed spec fn view(&self) -> LiteralView {
        self.literal@
    }
}

pub open spec fn selector_view(selector: Selector) -> SelectorView
    decreases selector,
{
    match selector {
        Selector::Name(name) => SelectorView::Name(name@),
        Selector::Index(index) => SelectorView::Index(index as int),
        Selector::Wildcard => SelectorView::Wildcard,
        Selector::Slice { start, end, step } => SelectorView::Slice {
            start: bound_view(start),
            end: bound_view(end),
            step: bound_view(step),
        },
        Selector::Filter(expr) => SelectorView::Filter(Box::new(expr_view(*expr))),
    }
}

pub open spec fn bound_view(bound: Option<i64>) -> Option<int> {
    match bound {
        Some(b) => Some(b as int),
        None => None,
    }
}

pub open spec fn selector_views(selectors: Seq<Selector>) -> Seq<SelectorView>
    decreases selectors,
{
    Seq::new(
        selectors.len(),
        |i: int|
            if 0 <= i < selectors.len() {
                selector_view(selectors[i])
            } else {
                SelectorView::Wildcard
            },
    )
}

pub open spec fn segment_view(segment: Segment) -> SegmentView
    decreases segment,
{
    match segment {
        Segment::Child(selectors) => SegmentView::Child(selector_views(selectors@)),
        Segment::Descendant(selectors) => SegmentView::Descendant(selector_views(selectors@)),
    }
}

pub open spec fn segment_views(segments: Seq<Segment>) -> Seq<SegmentView>
    decreases segments,
{
    Seq::new(
        segments.len(),
        |i: int|
            if 0 <= i < segments.len() {
                segment_view(segments[i])
            } else {
                SegmentView::Child(Seq::empty())
            },
    )
}

pub open spec fn expr_views(exprs: Seq<Expr>) -> Seq<ExprView>
    decreases exprs,
{
    Seq::new(
        exprs.len(),
        |i: int|
            if 0 <= i < exprs.len() {
                expr_view(exprs[i])
            } else {
                ExprView::CurrentNode
            },
    )
}

pub open spec fn expr_view(expr: Expr) -> ExprView
    decreases expr,
{
    match expr {
        Expr::CurrentNode => ExprView::CurrentNode,
        Expr::RootNode => ExprView::RootNode,
        Expr::Path { start, segments } => ExprView::Path {
            start: Box::new(expr_view(*start)),
            segments: segment_views(segments@),
        },
        Expr::Literal(literal) => ExprView::Literal(literal@),
        Expr::Comparison { left, op, right } => ExprView::Comparison {
            left: Box::new(expr_view(*left)),
            op,
            right: Box::new(expr_view(*right)),
        },
        Expr::Logical { left, op, right } => ExprView::Logical {
            left: Box::new(expr_view(*left)),
            op,
            right: Box::new(expr_view(*right)),
        },
        Expr::Not(inner) => ExprView::Not(Box::new(expr_view(*inner))),
        Expr::FunctionCall { name, args } => ExprView::FunctionCall {
            name: name@,
            args: expr_views(args@),
        },
    }
}

impl View for Selector {
    type V = SelectorView;

    open spec fn view(&self) -> SelectorView {
        selector_view(*self)
    }
}

impl View for Segment {
    type V = SegmentView;

    open spec fn view(&self) -> SegmentView {
        segment_view(*self)
    }
}

impl View for Expr {
    type V = ExprView;

    open spec fn view(&self) -> ExprView {
        expr_view(*self)
    }
}

impl View for JsonPath {
    type V = JsonPathView;

    open spec fn view(&self) -> JsonPathView {
        JsonPathView { segments: segment_views(self.segments@) }
    }
}

impl CachedLiteral {
    #[verifier::type_invariant]
    spec fn inv(self) -> bool {
        self.cached_value@ == self.literal@.value()
    }

    /// Create a new CachedLiteral with its JSON value computed.
    pub fn new(literal: Literal) -> (r: CachedLiteral)
        ensures
            r@ == literal@,
    {
        let cached_value: Json = match &literal {
            Literal::Null => Json::Null,
            Literal::Bool(b) => Json::Bool(*b),
            Literal::Number(n) => if n.exceeds_double() {
                Json::Null
            } else {
                Json::Number(n.duplicate())
            },
            Literal::String(s) => Json::String(s.clone()),
        };
        CachedLiteral { literal, cached_value }
    }

    /// The literal as it was written.
    pub fn literal(&self) -> (r: &Literal)
        ensures
            r@ == self@,
    {
        &self.literal
    }

    /// The JSON value of the literal.
    pub fn value(&self) -> (r: &Json)
        ensures
            r@ == self@.value(),
    {
        proof {
            use_type_invariant(self);
        }
        &self.cached_value
    }
}

impl JsonPath {
    pub fn new(segments: Vec<Segment>) -> (r: JsonPath)
        ensures
            r.segments == segments,
    {
        JsonPath { segments }
    }
}

} // verus!
