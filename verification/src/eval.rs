//! Evaluator for JSONPath queries: from a syntax tree and a JSON value to the
//! list of nodes that the query selects.
//!
//! The meaning of a query is given by specification functions over the views
//! of the syntax tree and of the document. A selector selects children of a
//! node, and is specified by the indices of the children it selects, in the
//! order in which it selects them; segments, paths and filters are built on
//! that. Each evaluating function is proved to compute the specification
//! function of its construct.

use crate::ast::{bound_view, expr_view, expr_views, segment_views, selector_views, CompOp, Expr,
    ExprView, JsonPath, JsonPathView, LogicalOp, Segment, SegmentView, Selector, SelectorView};
use crate::iregexp::{full_match, matches_fully, matches_partly, partial_match};
use crate::json::{find_member, find_member_exec, Json, JsonView};
use crate::number::{Decimal, Number};
use crate::text::{chars_of, same_text};
use vstd::prelude::*;
use vstd::string::StrSliceExecFns;

verus! {

/// What a filter expression evaluates to.
pub ghost enum Outcome {
    /// A single JSON value
    Value(JsonView),
    /// The nodes that a query selected
    NodeList(Seq<JsonView>),
    /// No result: a query that selected nothing, a function without a result
    Nothing,
}

/// Whether a JSON value counts as true: all but `false`, `null`, zero, and
/// the empty string, array and object.
pub open spec fn value_truthy(v: JsonView) -> bool {
    match v {
        JsonView::Null => false,
        JsonView::Bool(b) => b,
        JsonView::Number(n) => !n.is_zero(),
        JsonView::String(s) => s.len() > 0,
        JsonView::Array(items) => items.len() > 0,
        JsonView::Object(members) => members.len() > 0,
    }
}

/// Lexicographic order of texts by code point; a proper prefix comes first.
pub open spec fn text_lt(a: Seq<char>, b: Seq<char>) -> bool
    decreases a.len(),
{
    if b.len() == 0 {
        false
    } else if a.len() == 0 {
        true
    } else if a[0] != b[0] {
        (a[0] as u32) < (b[0] as u32)
    } else {
        text_lt(a.drop_first(), b.drop_first())
    }
}

/// Whether `left` comes before `right`: numbers by value, strings by code
/// points; values of other types are not ordered.
pub open spec fn value_lt(left: JsonView, right: JsonView) -> bool {
    match (left, right) {
        (JsonView::Number(a), JsonView::Number(b)) => a.lt(b),
        (JsonView::String(a), JsonView::String(b)) => text_lt(a, b),
        _ => false,
    }
}

/// Whether the two values are of a type that has an order: both numbers, or
/// both strings.
pub open spec fn ordered(left: JsonView, right: JsonView) -> bool {
    (left is Number && right is Number) || (left is String && right is String)
}

/// Comparison of two values that are both present. Every value can be
/// tested for equality; only numbers and strings are ordered, so `<`, `>`,
/// `<=` and `>=` are false on values of every other type and on values of
/// two types.
pub open spec fn compare_present(left: JsonView, op: CompOp, right: JsonView) -> bool {
    match op {
        CompOp::Eq => left.same(right),
        CompOp::Ne => !left.same(right),
        CompOp::Lt => value_lt(left, right),
        CompOp::Gt => value_lt(right, left),
        CompOp::Le => value_lt(left, right) || (ordered(left, right) && left.same(right)),
        CompOp::Ge => value_lt(right, left) || (ordered(left, right) && left.same(right)),
    }
}

impl Outcome {
    /// A node list is true when it is not empty, whatever its nodes hold; a
    /// value by [`value_truthy`]; nothing is false.
    pub open spec fn is_truthy(self) -> bool {
        match self {
            Outcome::NodeList(nodes) => nodes.len() > 0,
            Outcome::Value(v) => value_truthy(v),
            Outcome::Nothing => false,
        }
    }

    /// At most one value.
    pub open spec fn is_singular(self) -> bool {
        match self {
            Outcome::Value(_) => true,
            Outcome::NodeList(nodes) => nodes.len() <= 1,
            Outcome::Nothing => true,
        }
    }

    /// The value that a comparison or a function takes from the outcome: the
    /// value, or the first node of the list; none where there is nothing.
    pub open spec fn to_value(self) -> Option<JsonView> {
        match self {
            Outcome::Value(v) => Some(v),
            Outcome::NodeList(nodes) => if nodes.len() > 0 {
                Some(nodes[0])
            } else {
                None
            },
            Outcome::Nothing => None,
        }
    }

    /// Number of nodes that the outcome stands for.
    pub open spec fn count(self) -> nat {
        match self {
            Outcome::NodeList(nodes) => nodes.len(),
            Outcome::Value(_) => 1,
            Outcome::Nothing => 0,
        }
    }
}

/// Comparison of two outcomes. A side with more than one node makes every
/// comparison false. Two absent sides are equal; an absent and a present
/// side are unequal; neither is ordered.
pub open spec fn compare(left: Outcome, op: CompOp, right: Outcome) -> bool {
    if !left.is_singular() || !right.is_singular() {
        false
    } else {
        match (left.to_value(), right.to_value()) {
            (Some(l), Some(r)) => compare_present(l, op, r),
            (None, None) => op == CompOp::Eq,
            _ => op == CompOp::Ne,
        }
    }
}

/// The index that `idx` denotes in an array of `len` elements, counted from
/// the end where it is negative, if it lies in the array.
pub open spec fn normalized_index(idx: int, len: nat) -> Option<int> {
    if idx >= 0 {
        if idx < len {
            Some(idx)
        } else {
            None
        }
    } else if len + idx >= 0 {
        Some(len + idx)
    } else {
        None
    }
}

/// A slice bound counted from the end where it is negative, not below 0.
pub open spec fn slice_bound(bound: int, len: nat) -> int {
    if bound >= 0 {
        bound
    } else if len + bound >= 0 {
        len + bound
    } else {
        0
    }
}

/// The end bound of a slice with a negative step, counted from the end where
/// it is negative, not below -1, so that index 0 can be reached.
pub open spec fn slice_bound_descending(bound: int, len: nat) -> int {
    if bound >= 0 {
        bound
    } else if len + bound >= -1 {
        len + bound
    } else {
        -1
    }
}

/// Where a slice starts, with `step` not 0.
pub open spec fn slice_first(start: Option<int>, step: int, len: nat) -> int {
    if step > 0 {
        let s = match start {
            Some(b) => slice_bound(b, len),
            None => 0,
        };
        if s < 0 { 0 } else { s }
    } else {
        let s = match start {
            Some(b) => slice_bound(b, len),
            None => len - 1,
        };
        if s > len - 1 { len - 1 } else { s }
    }
}

/// Where a slice stops, exclusive, with `step` not 0.
pub open spec fn slice_limit(end: Option<int>, step: int, len: nat) -> int {
    if step > 0 {
        let e = match end {
            Some(b) => slice_bound(b, len),
            None => len as int,
        };
        if e > len { len as int } else { e }
    } else {
        let e = match end {
            Some(b) => slice_bound_descending(b, len),
            None => -1,
        };
        if e < -1 { -1 } else { e }
    }
}

/// The indices `i, i + step, ...` before `limit` (after it, where `step` is
/// negative) that lie in an array of `len` elements.
pub open spec fn slice_run(i: int, limit: int, step: int, len: nat) -> Seq<int>
    decreases
        if step > 0 && limit > i {
            limit - i
        } else if step < 0 && i > limit {
            i - limit
        } else {
            0
        },
{
    if step == 0 || (step > 0 && i >= limit) || (step < 0 && i <= limit) {
        Seq::empty()
    } else if 0 <= i < len {
        seq![i] + slice_run(i + step, limit, step, len)
    } else {
        slice_run(i + step, limit, step, len)
    }
}

/// The indices that the slice `start:end:step` selects in an array of `len`
/// elements; `step` is 1 where it is not given, and 0 selects nothing.
pub open spec fn slice_indices(start: Option<int>, end: Option<int>, step: Option<int>, len: nat)
    -> Seq<int> {
    let step = match step {
        Some(s) => s,
        None => 1,
    };
    if step == 0 {
        Seq::empty()
    } else {
        slice_run(slice_first(start, step, len), slice_limit(end, step, len), step, len)
    }
}

/// The nodes of the subtrees of `items`, tree after tree.
pub open spec fn forest(items: Seq<JsonView>) -> Seq<JsonView>
    decreases items.len(),
{
    if items.len() == 0 {
        Seq::empty()
    } else {
        forest(items.drop_last()) + descendants(items.last())
    }
}

/// The nodes of the subtrees of the first `k` children of `node`.
pub open spec fn children_forest(node: JsonView, k: nat) -> Seq<JsonView>
    decreases node, k,
{
    if k == 0 || k > node.children().len() {
        Seq::empty()
    } else {
        children_forest(node, (k - 1) as nat) + descendants(node.children()[k - 1])
    }
}

/// The node and all nodes below it in pre-order: a node, then the subtrees
/// of its children in document order.
pub open spec fn descendants(node: JsonView) -> Seq<JsonView>
    decreases node, node.children().len() + 1,
{
    seq![node] + children_forest(node, node.children().len())
}

/// The children of `node` at `indices`.
pub open spec fn pick(node: JsonView, indices: Seq<int>) -> Seq<JsonView> {
    Seq::new(indices.len(), |k: int| node.children()[indices[k]])
}

/// The indices `0, 1, ..., n - 1`.
pub open spec fn all_indices(n: nat) -> Seq<int> {
    Seq::new(n, |i: int| i)
}

/// The indices of the children of `node` that the selector selects, in the
/// order in which it selects them.
pub open spec fn select(selector: SelectorView, node: JsonView, root: JsonView) -> Seq<int>
    decreases selector, 0nat, 0nat,
{
    match selector {
        SelectorView::Name(name) => match node {
            JsonView::Object(members) => match find_member(members, name) {
                Some(i) => seq![i],
                None => Seq::empty(),
            },
            _ => Seq::empty(),
        },
        SelectorView::Index(idx) => match node {
            JsonView::Array(items) => match normalized_index(idx, items.len()) {
                Some(i) => seq![i],
                None => Seq::empty(),
            },
            _ => Seq::empty(),
        },
        SelectorView::Wildcard => all_indices(node.children().len()),
        SelectorView::Slice { start, end, step } => match node {
            JsonView::Array(items) => slice_indices(start, end, step, items.len()),
            _ => Seq::empty(),
        },
        SelectorView::Filter(expr) => kept(*expr, node, node.children().len(), root),
    }
}

/// The indices among the first `k` children of `node` on which the filter
/// expression is true.
pub open spec fn kept(expr: ExprView, node: JsonView, k: nat, root: JsonView) -> Seq<int>
    decreases expr, 1nat, k,
{
    if k == 0 || k > node.children().len() {
        Seq::empty()
    } else {
        let before = kept(expr, node, (k - 1) as nat, root);
        if evaluate_expr_spec(expr, node.children()[k - 1], root).is_truthy() {
            before.push(k - 1)
        } else {
            before
        }
    }
}

/// The children of `node` that the first `k` selectors select: for each
/// selector in the order listed, what it selects.
pub open spec fn select_list(
    selectors: Seq<SelectorView>,
    k: nat,
    node: JsonView,
    root: JsonView,
) -> Seq<JsonView>
    decreases selectors, 0nat, k,
{
    if k == 0 || k > selectors.len() {
        Seq::empty()
    } else {
        select_list(selectors, (k - 1) as nat, node, root) + pick(
            node,
            select(selectors[k - 1], node, root),
        )
    }
}

/// What the selectors select from each of the first `k` nodes, node after node.
pub open spec fn select_each(
    selectors: Seq<SelectorView>,
    nodes: Seq<JsonView>,
    k: nat,
    root: JsonView,
) -> Seq<JsonView>
    decreases selectors, 1nat, k,
{
    if k == 0 || k > nodes.len() {
        Seq::empty()
    } else {
        select_each(selectors, nodes, (k - 1) as nat, root) + select_list(
            selectors,
            selectors.len(),
            nodes[k - 1],
            root,
        )
    }
}

/// The nodes that the segment selects from `node`. A child segment selects
/// among the children of the node; a descendant segment among the children
/// of each of its descendants, the node itself included, in pre-order.
pub open spec fn apply_segment(segment: SegmentView, node: JsonView, root: JsonView) -> Seq<
    JsonView,
>
    decreases segment, 0nat, 0nat,
{
    match segment {
        SegmentView::Child(selectors) => select_list(selectors, selectors.len(), node, root),
        SegmentView::Descendant(selectors) => select_each(
            selectors,
            descendants(node),
            descendants(node).len(),
            root,
        ),
    }
}

/// What the segment selects from each of the first `k` nodes, node after node.
pub open spec fn apply_segment_each(
    segment: SegmentView,
    nodes: Seq<JsonView>,
    k: nat,
    root: JsonView,
) -> Seq<JsonView>
    decreases segment, 1nat, k,
{
    if k == 0 || k > nodes.len() {
        Seq::empty()
    } else {
        apply_segment_each(segment, nodes, (k - 1) as nat, root) + apply_segment(
            segment,
            nodes[k - 1],
            root,
        )
    }
}

/// The node list after the first `k` segments, starting from the list that
/// holds `start` alone: each segment replaces the list by what it selects
/// from each node of the list.
pub open spec fn walk(segments: Seq<SegmentView>, k: nat, start: JsonView, root: JsonView) -> Seq<
    JsonView,
>
    decreases segments, 0nat, k,
{
    if k == 0 || k > segments.len() {
        seq![start]
    } else {
        let nodes = walk(segments, (k - 1) as nat, start, root);
        apply_segment_each(segments[k - 1], nodes, nodes.len(), root)
    }
}

/// The result of the function `length`: the number of characters of a
/// string, of elements of an array, of members of an object; nothing else
/// has a length.
pub open spec fn length_of(argument: Outcome) -> Outcome {
    match argument.to_value() {
        Some(JsonView::String(s)) => Outcome::Value(JsonView::Number(Decimal::from_nat(s.len()))),
        Some(JsonView::Array(items)) => Outcome::Value(
            JsonView::Number(Decimal::from_nat(items.len())),
        ),
        Some(JsonView::Object(members)) => Outcome::Value(
            JsonView::Number(Decimal::from_nat(members.len())),
        ),
        _ => Outcome::Nothing,
    }
}

/// The result of the function `value`: the value, or the node of a list of
/// one node; nothing else.
pub open spec fn value_of(argument: Outcome) -> Outcome {
    match argument {
        Outcome::Value(v) => Outcome::Value(v),
        Outcome::NodeList(nodes) => if nodes.len() == 1 {
            Outcome::Value(nodes[0])
        } else {
            Outcome::Nothing
        },
        Outcome::Nothing => Outcome::Nothing,
    }
}

/// The result of the functions `match` (`whole`) and `search`: whether the
/// text matches the pattern, where both are strings.
pub open spec fn match_of(text: Outcome, pattern: Outcome, whole: bool) -> Outcome {
    Outcome::Value(
        JsonView::Bool(
            match (text.to_value(), pattern.to_value()) {
                (Some(JsonView::String(s)), Some(JsonView::String(p))) => if whole {
                    full_match(s, p)
                } else {
                    partial_match(s, p)
                },
                _ => false,
            },
        ),
    )
}

/// The result of the call of the function `name` with `args`.
pub open spec fn evaluate_function_spec(
    name: Seq<char>,
    args: Seq<ExprView>,
    current: JsonView,
    root: JsonView,
) -> Outcome
    decreases args, 0nat, 0nat,
{
    if name == "length"@ {
        if args.len() != 1 {
            Outcome::Nothing
        } else {
            length_of(evaluate_expr_spec(args[0], current, root))
        }
    } else if name == "count"@ {
        if args.len() != 1 {
            Outcome::Nothing
        } else {
            Outcome::Value(
                JsonView::Number(
                    Decimal::from_nat(evaluate_expr_spec(args[0], current, root).count()),
                ),
            )
        }
    } else if name == "value"@ {
        if args.len() != 1 {
            Outcome::Nothing
        } else {
            value_of(evaluate_expr_spec(args[0], current, root))
        }
    } else if name == "match"@ || name == "search"@ {
        if args.len() != 2 {
            Outcome::Nothing
        } else {
            match_of(
                evaluate_expr_spec(args[0], current, root),
                evaluate_expr_spec(args[1], current, root),
                name == "match"@,
            )
        }
    } else {
        Outcome::Nothing
    }
}

/// What the filter expression evaluates to on the node `current` of the
/// document `root`.
pub open spec fn evaluate_expr_spec(expr: ExprView, current: JsonView, root: JsonView) -> Outcome
    decreases expr, 0nat, 0nat,
{
    match expr {
        ExprView::CurrentNode => Outcome::NodeList(seq![current]),
        ExprView::RootNode => Outcome::Value(root),
        ExprView::Path { start, segments } => {
            let from = match *start {
                ExprView::CurrentNode => Some(current),
                ExprView::RootNode => Some(root),
                _ => None,
            };
            match from {
                None => Outcome::Nothing,
                Some(node) => {
                    let nodes = walk(segments, segments.len(), node, root);
                    if nodes.len() == 0 {
                        Outcome::Nothing
                    } else {
                        Outcome::NodeList(nodes)
                    }
                },
            }
        },
        ExprView::Literal(literal) => Outcome::Value(literal.value()),
        ExprView::Comparison { left, op, right } => Outcome::Value(
            JsonView::Bool(
                compare(
                    evaluate_expr_spec(*left, current, root),
                    op,
                    evaluate_expr_spec(*right, current, root),
                ),
            ),
        ),
        ExprView::Logical { left, op, right } => {
            let l = evaluate_expr_spec(*left, current, root).is_truthy();
            let r = evaluate_expr_spec(*right, current, root).is_truthy();
            Outcome::Value(
                JsonView::Bool(
                    match op {
                        LogicalOp::And => l && r,
                        LogicalOp::Or => l || r,
                    },
                ),
            )
        },
        ExprView::Not(inner) => Outcome::Value(
            JsonView::Bool(!evaluate_expr_spec(*inner, current, root).is_truthy()),
        ),
        ExprView::FunctionCall { name, args } => evaluate_function_spec(name, args, current, root),
    }
}

/// The nodes that the query selects from the document `root`:
/// what [`evaluate`] returns.
pub open spec fn evaluate_spec(path: JsonPathView, root: JsonView) -> Seq<JsonView> {
    walk(path.segments, path.segments.len(), root, root)
}

/// The views of the nodes of a node list, in order.
pub open spec fn node_views(nodes: Seq<&Json>) -> Seq<JsonView> {
    Seq::new(nodes.len(), |i: int| nodes[i]@)
}

/// Trees one after the other hold the nodes of the first, then those of the rest.
pub proof fn lemma_forest_concat(a: Seq<JsonView>, b: Seq<JsonView>)
    ensures
        forest(a + b) == forest(a) + forest(b),
    decreases b.len(),
{
    if b.len() == 0 {
        assert(a + b =~= a);
        assert(forest(a) + forest(b) =~= forest(a));
    } else {
        lemma_forest_concat(a, b.drop_last());
        assert((a + b).drop_last() =~= a + b.drop_last());
        assert((a + b).last() == b.last());
        assert(forest(a + b) =~= forest(a) + forest(b));
    }
}

/// The subtrees of the first `k` children are the forest of those children.
pub proof fn lemma_children_forest(node: JsonView, k: nat)
    requires
        k <= node.children().len(),
    ensures
        children_forest(node, k) == forest(node.children().take(k as int)),
    decreases k,
{
    let first = node.children().take(k as int);
    if k > 0 {
        lemma_children_forest(node, (k - 1) as nat);
        assert(first.drop_last() =~= node.children().take(k - 1));
    }
}

/// A node comes first among its descendants, and the subtrees of its
/// children follow.
pub proof fn lemma_descendants_unfold(node: JsonView)
    ensures
        descendants(node) == seq![node] + forest(node.children()),
{
    lemma_children_forest(node, node.children().len());
    assert(node.children().take(node.children().len() as int) =~= node.children());
}

/// Result of evaluating an expression.
pub enum ExprResult<'a> {
    /// A single JSON value of the document or of the query
    Value(&'a Json),
    /// A single JSON value that the evaluation made
    Computed(Json),
    /// The nodes that a query selected
    NodeList(Vec<&'a Json>),
    /// No result (missing property, function without a result)
    Nothing,
}

impl<'a> View for ExprResult<'a> {
    type V = Outcome;

    open spec fn view(&self) -> Outcome {
        match self {
            ExprResult::Value(v) => Outcome::Value(v@),
            ExprResult::Computed(v) => Outcome::Value(v@),
            ExprResult::NodeList(nodes) => Outcome::NodeList(node_views(nodes@)),
            ExprResult::Nothing => Outcome::Nothing,
        }
    }
}

impl<'a> ExprResult<'a> {
    /// Check if the result is truthy.
    pub fn is_truthy(&self) -> (r: bool)
        ensures
            r == self@.is_truthy(),
    {
        match self {
            ExprResult::NodeList(list) => list.len() > 0,
            ExprResult::Value(v) => value_is_truthy(v),
            ExprResult::Computed(v) => value_is_truthy(v),
            ExprResult::Nothing => false,
        }
    }

    /// Check if the result is singular (at most one value).
    pub fn is_singular(&self) -> (r: bool)
        ensures
            r == self@.is_singular(),
    {
        match self {
            ExprResult::NodeList(list) => list.len() <= 1,
            _ => true,
        }
    }

    /// Convert to a single value for comparison (takes first if NodeList).
    pub fn to_value(&self) -> (r: Option<&Json>)
        ensures
            match self@.to_value() {
                Some(v) => r matches Some(x) && x@ == v,
                None => r is None,
            },
    {
        match self {
            ExprResult::Value(v) => Some(*v),
            ExprResult::Computed(v) => Some(v),
            ExprResult::NodeList(list) => if list.len() > 0 {
                Some(list[0])
            } else {
                None
            },
            ExprResult::Nothing => None,
        }
    }
}

/// Check if a JSON value is truthy.
pub fn value_is_truthy(v: &Json) -> (r: bool)
    ensures
        r == value_truthy(v@),
{
    match v {
        Json::Null => false,
        Json::Bool(b) => *b,
        Json::Number(n) => !n.is_zero(),
        Json::String(s) => s.as_str().unicode_len() > 0,
        Json::Array(arr) => arr.len() > 0,
        Json::Object(obj) => obj.len() > 0,
    }
}

/// Whether the text `a` comes before `b` in the order of code points.
fn text_less_than(a: &str, b: &str) -> (r: bool)
    ensures
        r == text_lt(a@, b@),
{
    let x: Vec<char> = chars_of(a);
    let y: Vec<char> = chars_of(b);
    let mut i: usize = 0;
    assert(x@.skip(0) =~= x@);
    assert(y@.skip(0) =~= y@);
    loop
        invariant
            i <= x.len(),
            i <= y.len(),
            x@ == a@,
            y@ == b@,
            text_lt(x@, y@) == text_lt(x@.skip(i as int), y@.skip(i as int)),
        decreases x.len() - i,
    {
        if i == y.len() {
            return false;
        }
        if i == x.len() {
            return true;
        }
        if x[i] != y[i] {
            return (x[i] as u32) < (y[i] as u32);
        }
        assert(x@.skip(i as int).drop_first() =~= x@.skip(i + 1));
        assert(y@.skip(i as int).drop_first() =~= y@.skip(i + 1));
        i += 1;
    }
}

/// Check if two JSON values are equal.
pub fn values_equal(left: &Json, right: &Json) -> (r: bool)
    ensures
        r == left@.same(right@),
{
    left.same(right)
}

/// Check if left < right (only for comparable types).
pub fn values_less_than(left: &Json, right: &Json) -> (r: bool)
    ensures
        r == value_lt(left@, right@),
{
    match (left, right) {
        (Json::Number(l), Json::Number(r)) => l.lt(r),
        (Json::String(l), Json::String(r)) => text_less_than(l.as_str(), r.as_str()),
        _ => false,  // Non-comparable types
    }
}

/// Check if the two values are of a type that has an order.
pub fn values_ordered(left: &Json, right: &Json) -> (r: bool)
    ensures
        r == ordered(left@, right@),
{
    match (left, right) {
        (Json::Number(_), Json::Number(_)) => true,
        (Json::String(_), Json::String(_)) => true,
        _ => false,
    }
}

/// Compare two JSON values.
pub fn compare_json_values(left: &Json, op: CompOp, right: &Json) -> (r: bool)
    ensures
        r == compare_present(left@, op, right@),
{
    match op {
        CompOp::Eq => values_equal(left, right),
        CompOp::Ne => !values_equal(left, right),
        CompOp::Lt => values_less_than(left, right),
        CompOp::Gt => values_less_than(right, left),
        CompOp::Le => values_less_than(left, right) || (values_ordered(left, right)
            && values_equal(left, right)),
        CompOp::Ge => values_less_than(right, left) || (values_ordered(left, right)
            && values_equal(left, right)),
    }
}

/// Compare two expression results with the given operator.
pub fn compare_values(left: &ExprResult, op: CompOp, right: &ExprResult) -> (r: bool)
    ensures
        r == compare(left@, op, right@),
{
    // Non-singular queries in comparisons always give false
    if !left.is_singular() || !right.is_singular() {
        return false;
    }
    match (left.to_value(), right.to_value()) {
        (Some(l), Some(r)) => compare_json_values(l, op, r),
        // Both sides are absent: equal in being absent
        (None, None) => match op {
            CompOp::Eq => true,
            _ => false,
        },
        // One side is absent, one has a value: not equal
        _ => match op {
            CompOp::Ne => true,
            _ => false,
        },
    }
}

pub fn normalize_index(idx: i64, len: usize) -> (r: Option<usize>)
    ensures
        match normalized_index(idx as int, len as nat) {
            Some(i) => r == Some(i as usize),
            None => r is None,
        },
{
    if idx >= 0 {
        if (idx as u64) < (len as u64) {
            Some(idx as usize)
        } else {
            None
        }
    } else {
        let normalized: i128 = len as i128 + idx as i128;
        if normalized >= 0 {
            Some(normalized as usize)
        } else {
            None
        }
    }
}

pub fn normalize_slice_bound(bound: i64, len: usize) -> (r: i128)
    ensures
        r == slice_bound(bound as int, len as nat),
{
    if bound >= 0 {
        bound as i128
    } else {
        let counted: i128 = len as i128 + bound as i128;
        if counted >= 0 {
            counted
        } else {
            0
        }
    }
}

/// Normalize slice bound for negative step end bound: very negative end
/// bounds clamp to -1 (not 0), so that index 0 is included when iterating
/// backwards.
pub fn normalize_slice_bound_for_negative_step(bound: i64, len: usize) -> (r: i128)
    ensures
        r == slice_bound_descending(bound as int, len as nat),
{
    if bound >= 0 {
        bound as i128
    } else {
        let counted: i128 = len as i128 + bound as i128;
        if counted >= -1 {
            counted
        } else {
            -1
        }
    }
}

/// The elements of `arr` at `indices`.
pub open spec fn elements_at(arr: Seq<Json>, indices: Seq<int>) -> Seq<JsonView> {
    Seq::new(indices.len(), |k: int| arr[indices[k]]@)
}

#[verifier::rlimit(40)]
pub fn evaluate_slice<'a>(
    arr: &'a Vec<Json>,
    start: Option<i64>,
    end: Option<i64>,
    step: Option<i64>,
) -> (r: Vec<&'a Json>)
    ensures
        node_views(r@) == elements_at(
            arr@,
            slice_indices(
                bound_view(start),
                bound_view(end),
                bound_view(step),
                arr.len() as nat,
            ),
        ),
{
    let n: usize = arr.len();
    let len: i128 = n as i128;
    let step: i128 = match step {
        Some(s) => s as i128,
        None => 1,
    };
    let mut results: Vec<&'a Json> = Vec::new();
    if step == 0 {
        assert(node_views(results@) =~= elements_at(arr@, Seq::empty()));
        return results;
    }
    let first: i128 = if step > 0 {
        let s: i128 = match start {
            Some(b) => normalize_slice_bound(b, n),
            None => 0,
        };
        if s < 0 { 0 } else { s }
    } else {
        let s: i128 = match start {
            Some(b) => normalize_slice_bound(b, n),
            None => len - 1,
        };
        if s > len - 1 { len - 1 } else { s }
    };
    let limit: i128 = if step > 0 {
        let e: i128 = match end {
            Some(b) => normalize_slice_bound(b, n),
            None => len,
        };
        if e > len { len } else { e }
    } else {
        // For negative step, the end bound clamps to -1 (not 0) to include index 0
        let e: i128 = match end {
            Some(b) => normalize_slice_bound_for_negative_step(b, n),
            None => -1,
        };
        if e < -1 { -1 } else { e }
    };
    let ghost all = slice_run(first as int, limit as int, step as int, n as nat);
    let ghost taken: Seq<int> = Seq::empty();
    let mut i: i128 = first;
    assert(node_views(results@) =~= elements_at(arr@, taken));
    assert(taken + all =~= all);
    while (step > 0 && i < limit) || (step < 0 && i > limit)
        invariant
            n == arr.len(),
            step != 0,
            -0x8000_0000_0000_0000 <= step <= 0x7fff_ffff_ffff_ffff,
            step > 0 ==> limit <= n,
            step < 0 ==> limit >= -1,
            step > 0 ==> 0 <= i,
            step > 0 ==> i < limit ==> i < n,
            step < 0 ==> i <= n - 1,
            step < 0 ==> i > limit ==> i >= 0,
            -0x1_0000_0000_0000_0000_0000 <= i <= 0x1_0000_0000_0000_0000_0000,
            all == taken + slice_run(i as int, limit as int, step as int, n as nat),
            node_views(results@) == elements_at(arr@, taken),
            forall|k: int| 0 <= k < taken.len() ==> 0 <= #[trigger] taken[k] < n,
        decreases
            if step > 0 && limit > i {
                limit - i
            } else if step < 0 && i > limit {
                i - limit
            } else {
                0
            },
    {
        let ghost before = node_views(results@);
        let ghost before_taken = taken;
        let ghost old_results = results@;
        results.push(&arr[i as usize]);
        proof {
            let rest = slice_run(i + step, limit as int, step as int, n as nat);
            assert(slice_run(i as int, limit as int, step as int, n as nat) == seq![i as int]
                + rest);
            assert(taken + (seq![i as int] + rest) =~= taken.push(i as int) + rest);
            taken = taken.push(i as int);
            assert(before.len() == before_taken.len());
            assert(node_views(results@).len() == taken.len());
            assert forall|k: int| 0 <= k < taken.len() implies node_views(results@)[k]
                == elements_at(arr@, taken)[k] by {
                if k < before_taken.len() {
                    assert(results@[k] == old_results[k]);
                    assert(node_views(results@)[k] == before[k]);
                    assert(before[k] == elements_at(arr@, before_taken)[k]);
                }
            }
            assert(node_views(results@) =~= elements_at(arr@, taken));
        }
        i = i + step;
    }
    proof {
        assert(slice_run(i as int, limit as int, step as int, n as nat) =~= Seq::empty());
        assert(taken + Seq::<int>::empty() =~= taken);
    }
    results
}

/// The forest of one tree holds the nodes of that tree.
pub proof fn lemma_forest_single(node: JsonView)
    ensures
        forest(seq![node]) == descendants(node),
{
    let single = seq![node];
    assert(single.drop_last() =~= Seq::<JsonView>::empty());
    assert(forest(Seq::<JsonView>::empty()) =~= Seq::<JsonView>::empty());
    assert(forest(single) == forest(single.drop_last()) + descendants(single.last()));
    assert(Seq::<JsonView>::empty() + descendants(node) =~= descendants(node));
}

/// Visiting the first of the pending trees: its root is done, and its
/// children are pending before the other trees.
pub proof fn lemma_visit(done: Seq<JsonView>, current: JsonView, rest: Seq<JsonView>)
    ensures
        done + forest(seq![current] + rest) == done.push(current) + forest(
            current.children() + rest,
        ),
{
    lemma_forest_concat(seq![current], rest);
    lemma_forest_single(current);
    lemma_descendants_unfold(current);
    lemma_forest_concat(current.children(), rest);
    assert(done + ((seq![current] + forest(current.children())) + forest(rest)) =~= done.push(
        current,
    ) + (forest(current.children()) + forest(rest)));
}

/// A node pushed on a stack comes first when the stack is read from its top.
proof fn lemma_push_reversed(nodes: Seq<&Json>, node: &Json)
    ensures
        node_views(nodes.push(node)).reverse() == seq![node@] + node_views(nodes).reverse(),
{
    assert(node_views(nodes.push(node)).reverse() =~= seq![node@] + node_views(nodes).reverse());
}

proof fn lemma_prepend_child(children: Seq<JsonView>, j: int, count: int, rest: Seq<JsonView>)
    requires
        0 <= j < count <= children.len(),
    ensures
        seq![children[j]] + (children.subrange(j + 1, count) + rest) == children.subrange(
            j,
            count,
        ) + rest,
{
    assert(seq![children[j]] + (children.subrange(j + 1, count) + rest) =~= children.subrange(
        j,
        count,
    ) + rest);
}

/// The node and all nodes below it, in pre-order. The nodes still to visit
/// are kept on a stack, the children of a node in reverse order, so that
/// the first child is visited first.
#[verifier::rlimit(40)]
pub fn collect_descendants<'a>(node: &'a Json) -> (r: Vec<&'a Json>)
    ensures
        node_views(r@) == descendants(node@),
{
    let mut results: Vec<&'a Json> = Vec::new();
    let mut stack: Vec<&'a Json> = Vec::new();
    stack.push(node);
    proof {
        assert(node_views(stack@).reverse() =~= seq![node@]);
        lemma_forest_single(node@);
        assert(node_views(results@) + descendants(node@) =~= descendants(node@));
    }
    while stack.len() > 0
        invariant
            node_views(results@) + forest(node_views(stack@).reverse()) == descendants(node@),
        decreases descendants(node@).len() - results.len(),
    {
        let ghost done = node_views(results@);
        let ghost pending = node_views(stack@).reverse();
        let current: &'a Json = stack.pop().unwrap();
        let ghost rest = node_views(stack@).reverse();
        proof {
            assert(pending =~= seq![current@] + rest);
            lemma_visit(done, current@, rest);
        }
        results.push(current);
        assert(node_views(results@) =~= done.push(current@));
        let count: usize = current.child_count();
        let mut j: usize = count;
        proof {
            assert(current@.children().subrange(count as int, count as int) + rest =~= rest);
        }
        // Push in reverse order to maintain traversal order
        while j > 0
            invariant
                j <= count == current@.children().len(),
                node_views(stack@).reverse() == current@.children().subrange(
                    j as int,
                    count as int,
                ) + rest,
            decreases j,
        {
            j -= 1;
            let ghost before = stack@;
            let child: &'a Json = current.child(j);
            stack.push(child);
            proof {
                lemma_push_reversed(before, child);
                lemma_prepend_child(current@.children(), j as int, count as int, rest);
            }
        }
        assert(current@.children().subrange(0, count as int) =~= current@.children());
    }
    proof {
        assert(node_views(stack@).reverse() =~= Seq::<JsonView>::empty());
        assert(forest(Seq::<JsonView>::empty()) =~= Seq::<JsonView>::empty());
        assert(node_views(results@) + Seq::<JsonView>::empty() =~= node_views(results@));
    }
    results
}

/// The indices of a slice lie in the array.
pub proof fn lemma_slice_run_in_range(i: int, limit: int, step: int, len: nat)
    ensures
        forall|k: int|
            0 <= k < slice_run(i, limit, step, len).len() ==> 0 <= #[trigger] slice_run(
                i,
                limit,
                step,
                len,
            )[k] < len,
    decreases
        if step > 0 && limit > i {
            limit - i
        } else if step < 0 && i > limit {
            i - limit
        } else {
            0
        },
{
    let run = slice_run(i, limit, step, len);
    if step == 0 || (step > 0 && i >= limit) || (step < 0 && i <= limit) {
    } else {
        let rest = slice_run(i + step, limit, step, len);
        lemma_slice_run_in_range(i + step, limit, step, len);
        assert forall|k: int| 0 <= k < run.len() implies 0 <= #[trigger] run[k] < len by {
            if 0 <= i < len {
                if k > 0 {
                    assert(run[k] == rest[k - 1]);
                }
            } else {
                assert(run[k] == rest[k]);
            }
        }
    }
}

/// The indices that a slice selects lie in the array.
pub proof fn lemma_slice_indices_in_range(
    start: Option<int>,
    end: Option<int>,
    step: Option<int>,
    len: nat,
)
    ensures
        forall|k: int|
            0 <= k < slice_indices(start, end, step, len).len() ==> 0 <= #[trigger] slice_indices(
                start,
                end,
                step,
                len,
            )[k] < len,
{
    let by = match step {
        Some(s) => s,
        None => 1,
    };
    if by != 0 {
        lemma_slice_run_in_range(
            slice_first(start, by, len),
            slice_limit(end, by, len),
            by,
            len,
        );
    }
}

/// Evaluate a JSONPath query against a JSON value.
pub fn evaluate<'a>(path: &JsonPath, root: &'a Json) -> (r: Vec<&'a Json>)
    ensures
        node_views(r@) == evaluate_spec(path@, root@),
{
    evaluate_path_segments(&path.segments, root, root)
}

/// Evaluate path segments starting from a value.
pub fn evaluate_path_segments<'a>(segments: &Vec<Segment>, start: &'a Json, root: &'a Json) -> (r:
    Vec<&'a Json>)
    ensures
        node_views(r@) == walk(
            segment_views(segments@),
            segments.len() as nat,
            start@,
            root@,
        ),
    decreases segments, 0nat, 0nat,
{
    let ghost views = segment_views(segments@);
    let mut current: Vec<&'a Json> = Vec::new();
    current.push(start);
    assert(node_views(current@) =~= seq![start@]);
    let mut i: usize = 0;
    while i < segments.len()
        invariant
            i <= segments.len(),
            views == segment_views(segments@),
            node_views(current@) == walk(views, i as nat, start@, root@),
        decreases segments.len() - i,
    {
        current = evaluate_segment(&segments[i], &current, root);
        i += 1;
    }
    current
}

/// What the segment selects from each of the nodes, node after node.
#[verifier::rlimit(40)]
pub fn evaluate_segment<'a>(segment: &Segment, nodes: &Vec<&'a Json>, root: &'a Json) -> (r: Vec<
    &'a Json,
>)
    ensures
        node_views(r@) == apply_segment_each(
            segment@,
            node_views(nodes@),
            nodes.len() as nat,
            root@,
        ),
    decreases segment, 1nat, 0nat,
{
    let mut results: Vec<&'a Json> = Vec::new();
    assert(node_views(results@) =~= Seq::empty());
    let mut i: usize = 0;
    while i < nodes.len()
        invariant
            i <= nodes.len(),
            node_views(results@) == apply_segment_each(
                segment@,
                node_views(nodes@),
                i as nat,
                root@,
            ),
        decreases nodes.len() - i,
    {
        let ghost before = node_views(results@);
        let mut part: Vec<&'a Json> = match segment {
            Segment::Child(selectors) => evaluate_selectors(selectors, nodes[i], root),
            Segment::Descendant(selectors) => {
                let below: Vec<&'a Json> = collect_descendants(nodes[i]);
                evaluate_selectors_each(selectors, &below, root)
            },
        };
        let ghost added = node_views(part@);
        assert(node_views(nodes@)[i as int] == nodes[i as int]@);
        assert(added == apply_segment(segment@, nodes[i as int]@, root@));
        results.append(&mut part);
        assert(node_views(results@) =~= before + added);
        i += 1;
    }
    results
}

/// What the selectors select from each of the nodes, node after node.
fn evaluate_selectors_each<'a>(selectors: &Vec<Selector>, nodes: &Vec<&'a Json>, root: &'a Json)
    -> (r: Vec<&'a Json>)
    ensures
        node_views(r@) == select_each(
            selector_views(selectors@),
            node_views(nodes@),
            nodes.len() as nat,
            root@,
        ),
    decreases selectors, 1nat, 0nat,
{
    let mut results: Vec<&'a Json> = Vec::new();
    assert(node_views(results@) =~= Seq::empty());
    let mut i: usize = 0;
    while i < nodes.len()
        invariant
            i <= nodes.len(),
            node_views(results@) == select_each(
                selector_views(selectors@),
                node_views(nodes@),
                i as nat,
                root@,
            ),
        decreases nodes.len() - i,
    {
        let ghost before = node_views(results@);
        let mut part: Vec<&'a Json> = evaluate_selectors(selectors, nodes[i], root);
        let ghost added = node_views(part@);
        results.append(&mut part);
        assert(node_views(results@) =~= before + added);
        i += 1;
    }
    results
}

/// What the selectors select from the node: for each selector, in the order
/// listed, what it selects.
fn evaluate_selectors<'a>(selectors: &Vec<Selector>, node: &'a Json, root: &'a Json) -> (r: Vec<
    &'a Json,
>)
    ensures
        node_views(r@) == select_list(
            selector_views(selectors@),
            selectors.len() as nat,
            node@,
            root@,
        ),
    decreases selectors, 0nat, 1nat,
{
    let mut results: Vec<&'a Json> = Vec::new();
    assert(node_views(results@) =~= Seq::empty());
    let mut i: usize = 0;
    while i < selectors.len()
        invariant
            i <= selectors.len(),
            node_views(results@) == select_list(
                selector_views(selectors@),
                i as nat,
                node@,
                root@,
            ),
        decreases selectors.len() - i,
    {
        let ghost before = node_views(results@);
        let mut part: Vec<&'a Json> = evaluate_selector(&selectors[i], node, root);
        let ghost added = node_views(part@);
        results.append(&mut part);
        assert(node_views(results@) =~= before + added);
        i += 1;
    }
    results
}

/// The children of the node that the selector selects.
#[verifier::rlimit(40)]
pub fn evaluate_selector<'a>(selector: &Selector, node: &'a Json, root: &'a Json) -> (r: Vec<
    &'a Json,
>)
    ensures
        node_views(r@) == pick(node@, select(selector@, node@, root@)),
    decreases selector, 0nat, 0nat,
{
    let mut results: Vec<&'a Json> = Vec::new();
    match selector {
        Selector::Name(name) => {
            if let Json::Object(map) = node {
                if let Some(i) = find_member_exec(map, name.as_str()) {
                    results.push(&map[i].value);
                }
            }
            assert(node_views(results@) =~= pick(node@, select(selector@, node@, root@)));
            results
        },
        Selector::Index(idx) => {
            if let Json::Array(arr) = node {
                if let Some(i) = normalize_index(*idx, arr.len()) {
                    results.push(&arr[i]);
                }
            }
            assert(node_views(results@) =~= pick(node@, select(selector@, node@, root@)));
            results
        },
        Selector::Wildcard => {
            let count: usize = node.child_count();
            let mut i: usize = 0;
            assert(node_views(results@) =~= node@.children().take(0));
            while i < count
                invariant
                    i <= count == node@.children().len(),
                    node_views(results@) == node@.children().take(i as int),
                decreases count - i,
            {
                let ghost before = node_views(results@);
                let child: &'a Json = node.child(i);
                results.push(child);
                assert(node_views(results@) =~= before.push(child@));
                assert(before.push(child@) =~= node@.children().take(i + 1));
                i += 1;
            }
            assert(node@.children().take(count as int) =~= node@.children());
            assert(node@.children() =~= pick(node@, all_indices(count as nat)));
            results
        },
        Selector::Slice { start, end, step } => {
            if let Json::Array(arr) = node {
                let found: Vec<&'a Json> = evaluate_slice(arr, *start, *end, *step);
                proof {
                    let indices = slice_indices(
                        bound_view(*start),
                        bound_view(*end),
                        bound_view(*step),
                        arr.len() as nat,
                    );
                    lemma_slice_indices_in_range(
                        bound_view(*start),
                        bound_view(*end),
                        bound_view(*step),
                        arr.len() as nat,
                    );
                    assert(select(selector@, node@, root@) == indices);
                    assert forall|k: int| 0 <= k < indices.len() implies elements_at(
                        arr@,
                        indices,
                    )[k] == pick(node@, indices)[k] by {
                        assert(0 <= indices[k] < arr.len());
                    }
                    assert(node_views(found@) =~= pick(node@, indices));
                }
                found
            } else {
                assert(node_views(results@) =~= pick(node@, select(selector@, node@, root@)));
                results
            }
        },
        Selector::Filter(expr) => evaluate_filter(expr, node, root),
    }
}

/// Evaluate a filter expression against the children of a node.
fn evaluate_filter<'a>(expr: &Expr, node: &'a Json, root: &'a Json) -> (r: Vec<&'a Json>)
    ensures
        node_views(r@) == pick(
            node@,
            kept(expr@, node@, node@.children().len(), root@),
        ),
    decreases expr, 1nat, 0nat,
{
    let mut results: Vec<&'a Json> = Vec::new();
    let count: usize = node.child_count();
    let mut i: usize = 0;
    assert(node_views(results@) =~= pick(node@, kept(expr@, node@, 0, root@)));
    while i < count
        invariant
            i <= count == node@.children().len(),
            node_views(results@) == pick(node@, kept(expr@, node@, i as nat, root@)),
        decreases count - i,
    {
        let ghost before = node_views(results@);
        let ghost chosen = kept(expr@, node@, i as nat, root@);
        let elem: &'a Json = node.child(i);
        let keep: bool = evaluate_expr(expr, elem, root).is_truthy();
        if keep {
            results.push(elem);
            assert(node_views(results@) =~= before.push(elem@));
            assert(kept(expr@, node@, (i + 1) as nat, root@) == chosen.push(i as int));
            assert(before.push(elem@) =~= pick(node@, chosen.push(i as int)));
        } else {
            assert(kept(expr@, node@, (i + 1) as nat, root@) == chosen);
        }
        i += 1;
    }
    results
}

/// Evaluate an expression in filter context.
#[verifier::rlimit(40)]
pub fn evaluate_expr<'a>(expr: &'a Expr, current: &'a Json, root: &'a Json) -> (r: ExprResult<'a>)
    ensures
        r@ == evaluate_expr_spec(expr@, current@, root@),
    decreases expr, 0nat, 0nat,
{
    match expr {
        // A bare @ in a filter expression is an existence test: as a node
        // list it is true whatever the node holds, null included.
        Expr::CurrentNode => {
            let mut nodes: Vec<&'a Json> = Vec::new();
            nodes.push(current);
            assert(node_views(nodes@) =~= seq![current@]);
            ExprResult::NodeList(nodes)
        },
        Expr::RootNode => ExprResult::Value(root),
        Expr::Path { start, segments } => {
            assert(expr@ == ExprView::Path {
                start: Box::new(expr_view(**start)),
                segments: segment_views(segments@),
            });
            let start_value: &'a Json = match &**start {
                Expr::CurrentNode => {
                    assert(expr_view(**start) is CurrentNode);
                    current
                },
                Expr::RootNode => {
                    assert(expr_view(**start) is RootNode);
                    root
                },
                _ => {
                    assert(!(expr_view(**start) is CurrentNode) && !(expr_view(**start)
                        is RootNode));
                    return ExprResult::Nothing;
                },
            };
            let results: Vec<&'a Json> = evaluate_path_segments(segments, start_value, root);
            if results.len() == 0 {
                ExprResult::Nothing
            } else {
                // Always a node list for paths: for existence tests, what
                // counts is whether any node exists, not what it holds.
                ExprResult::NodeList(results)
            }
        },
        Expr::Literal(lit) => ExprResult::Value(lit.value()),
        Expr::Comparison { left, op, right } => {
            let left_result = evaluate_expr(left, current, root);
            let right_result = evaluate_expr(right, current, root);
            let result: bool = compare_values(&left_result, *op, &right_result);
            ExprResult::Computed(Json::Bool(result))
        },
        Expr::Logical { left, op, right } => {
            let left_result = evaluate_expr(left, current, root);
            match op {
                LogicalOp::And => {
                    if !left_result.is_truthy() {
                        ExprResult::Computed(Json::Bool(false))
                    } else {
                        let right_result = evaluate_expr(right, current, root);
                        ExprResult::Computed(Json::Bool(right_result.is_truthy()))
                    }
                },
                LogicalOp::Or => {
                    if left_result.is_truthy() {
                        ExprResult::Computed(Json::Bool(true))
                    } else {
                        let right_result = evaluate_expr(right, current, root);
                        ExprResult::Computed(Json::Bool(right_result.is_truthy()))
                    }
                },
            }
        },
        Expr::Not(inner) => {
            let inner_result = evaluate_expr(inner, current, root);
            ExprResult::Computed(Json::Bool(!inner_result.is_truthy()))
        },
        Expr::FunctionCall { name, args } => evaluate_function(name.as_str(), args, current, root),
    }
}

/// Evaluate a built-in function call.
fn evaluate_function<'a>(name: &str, args: &'a Vec<Expr>, current: &'a Json, root: &'a Json) -> (r:
    ExprResult<'a>)
    ensures
        r@ == evaluate_function_spec(name@, expr_views(args@), current@, root@),
    decreases args, 1nat, 0nat,
{
    if same_text(name, "length") {
        fn_length(args, current, root)
    } else if same_text(name, "count") {
        fn_count(args, current, root)
    } else if same_text(name, "value") {
        fn_value(args, current, root)
    } else if same_text(name, "match") {
        fn_match(args, current, root)
    } else if same_text(name, "search") {
        fn_search(args, current, root)
    } else {
        ExprResult::Nothing  // Unknown function
    }
}

/// The function `length`: length of a string, an array, or an object.
fn fn_length<'a>(args: &'a Vec<Expr>, current: &'a Json, root: &'a Json) -> (r: ExprResult<'a>)
    ensures
        r@ == (if args.len() != 1 {
            Outcome::Nothing
        } else {
            length_of(evaluate_expr_spec(expr_views(args@)[0], current@, root@))
        }),
    decreases args, 0nat, 1nat,
{
    if args.len() != 1 {
        return ExprResult::Nothing;
    }
    let arg = evaluate_expr(&args[0], current, root);
    match arg.to_value() {
        // Characters are counted, not bytes
        Some(Json::String(s)) => ExprResult::Computed(
            Json::Number(Number::from_usize(s.as_str().unicode_len())),
        ),
        Some(Json::Array(arr)) => ExprResult::Computed(Json::Number(Number::from_usize(arr.len()))),
        Some(Json::Object(obj)) => ExprResult::Computed(
            Json::Number(Number::from_usize(obj.len())),
        ),
        _ => ExprResult::Nothing,
    }
}

/// The function `count`: number of nodes in a node list.
fn fn_count<'a>(args: &'a Vec<Expr>, current: &'a Json, root: &'a Json) -> (r: ExprResult<'a>)
    ensures
        r@ == (if args.len() != 1 {
            Outcome::Nothing
        } else {
            Outcome::Value(
                JsonView::Number(
                    Decimal::from_nat(
                        evaluate_expr_spec(expr_views(args@)[0], current@, root@).count(),
                    ),
                ),
            )
        }),
    decreases args, 0nat, 1nat,
{
    if args.len() != 1 {
        return ExprResult::Nothing;
    }
    let arg = evaluate_expr(&args[0], current, root);
    let count: usize = match &arg {
        ExprResult::NodeList(list) => list.len(),
        ExprResult::Value(_) => 1,
        ExprResult::Computed(_) => 1,
        ExprResult::Nothing => 0,
    };
    ExprResult::Computed(Json::Number(Number::from_usize(count)))
}

/// The function `value`: the value if exactly one node, nothing otherwise.
fn fn_value<'a>(args: &'a Vec<Expr>, current: &'a Json, root: &'a Json) -> (r: ExprResult<'a>)
    ensures
        r@ == (if args.len() != 1 {
            Outcome::Nothing
        } else {
            value_of(evaluate_expr_spec(expr_views(args@)[0], current@, root@))
        }),
    decreases args, 0nat, 1nat,
{
    if args.len() != 1 {
        return ExprResult::Nothing;
    }
    let arg = evaluate_expr(&args[0], current, root);
    match arg {
        ExprResult::Value(v) => ExprResult::Value(v),
        ExprResult::Computed(v) => ExprResult::Computed(v),
        ExprResult::NodeList(list) => if list.len() == 1 {
            ExprResult::Value(list[0])
        } else {
            ExprResult::Nothing
        },
        ExprResult::Nothing => ExprResult::Nothing,
    }
}

/// The function `match`: whether the string matches the pattern as a whole.
fn fn_match<'a>(args: &'a Vec<Expr>, current: &'a Json, root: &'a Json) -> (r: ExprResult<'a>)
    ensures
        r@ == (if args.len() != 2 {
            Outcome::Nothing
        } else {
            match_of(
                evaluate_expr_spec(expr_views(args@)[0], current@, root@),
                evaluate_expr_spec(expr_views(args@)[1], current@, root@),
                true,
            )
        }),
    decreases args, 0nat, 1nat,
{
    if args.len() != 2 {
        return ExprResult::Nothing;
    }
    let string_arg = evaluate_expr(&args[0], current, root);
    let pattern_arg = evaluate_expr(&args[1], current, root);
    let found: bool = match (string_arg.to_value(), pattern_arg.to_value()) {
        (Some(Json::String(s)), Some(Json::String(p))) => matches_fully(s.as_str(), p.as_str()),
        _ => false,
    };
    ExprResult::Computed(Json::Bool(found))
}

/// The function `search`: whether the pattern is found anywhere in the string.
fn fn_search<'a>(args: &'a Vec<Expr>, current: &'a Json, root: &'a Json) -> (r: ExprResult<'a>)
    ensures
        r@ == (if args.len() != 2 {
            Outcome::Nothing
        } else {
            match_of(
                evaluate_expr_spec(expr_views(args@)[0], current@, root@),
                evaluate_expr_spec(expr_views(args@)[1], current@, root@),
                false,
            )
        }),
    decreases args, 0nat, 1nat,
{
    if args.len() != 2 {
        return ExprResult::Nothing;
    }
    let string_arg = evaluate_expr(&args[0], current, root);
    let pattern_arg = evaluate_expr(&args[1], current, root);
    let found: bool = match (string_arg.to_value(), pattern_arg.to_value()) {
        (Some(Json::String(s)), Some(Json::String(p))) => matches_partly(s.as_str(), p.as_str()),
        _ => false,
    };
    ExprResult::Computed(Json::Bool(found))
}

} // verus!
